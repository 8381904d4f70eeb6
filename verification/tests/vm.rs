use jim::compiler::{Code, Instruction, Interpreter};
use jim::error::RuntimeError;
use jim::machine::{Machine, Request, TaskState};
use jim::value::{Duration, TimeOfDay, Value};
use jim::vm::{StepResult, ThreadContext};
use jim::Compile;

/// An engine that records what it is asked for. The first `get` is answered
/// with `true`; every later one stays open.
struct TestEngine {
    print_args: Vec<String>,
    wait_args: Vec<Duration>,
    get_args: Vec<String>,
    set_args: Vec<(String, String)>,
}

impl TestEngine {
    fn new() -> TestEngine {
        TestEngine {
            print_args: Vec::new(),
            wait_args: Vec::new(),
            get_args: Vec::new(),
            set_args: Vec::new(),
        }
    }
}

/// Runs the machine until no task can go on.
fn drive(machine: &mut Machine, te: &mut TestEngine) {
    while let Some(task) = machine.ready() {
        match machine.advance(task).unwrap() {
            None => {}
            Some(Request::Print(text)) => {
                te.print_args.push(text);
                machine.completed(task);
            }
            Some(Request::Wait(d)) => {
                te.wait_args.push(d);
                machine.completed(task);
            }
            Some(Request::Get(path)) => {
                te.get_args.push(path);
                if te.get_args.len() == 1 {
                    machine.delivered(task, "true".as_bytes()).unwrap();
                }
            }
            Some(Request::Publish(path, payload)) => {
                te.set_args.push((path, String::from_utf8(payload).unwrap()));
                machine.completed(task);
            }
        }
    }
}

fn run_vm(source: &str) -> (TestEngine, Machine) {
    let code = Interpreter::from_source(source).unwrap();
    let mut te = TestEngine::new();
    let mut machine = Machine::new(code);
    drive(&mut machine, &mut te);
    (te, machine)
}

#[test]
fn vm_test_print() {
    let source = "
        print 1;
";
    let (te, mut machine) = run_vm(source);
    assert_eq!(1, te.print_args.len());
    assert_eq!(vec!["1".to_string()], te.print_args);
    assert_eq!(0, te.wait_args.len());
    assert_eq!(0, te.set_args.len());
    assert_eq!(0, te.get_args.len());
    machine.shutdown();
    assert!(machine.finished());
}

#[test]
fn vm_test_as() {
    let source = "
        print 1 as x in x;
";
    let (te, _) = run_vm(source);
    assert_eq!(1, te.print_args.len());
    assert_eq!(vec!["1".to_string()], te.print_args);
    assert_eq!(0, te.wait_args.len());
    assert_eq!(0, te.set_args.len());
    assert_eq!(0, te.get_args.len());
}

#[test]
fn vm_test_index() {
    let source = "
        let o = {x: 1};
        print o.x;
";
    let (te, _) = run_vm(source);
    assert_eq!(1, te.print_args.len());
    assert_eq!(vec!["1".to_string()], te.print_args);
    assert_eq!(0, te.wait_args.len());
    assert_eq!(0, te.set_args.len());
    assert_eq!(0, te.get_args.len());
}

#[test]
fn vm_test_when() {
    let source = "
        when <path> print \"off\";
";
    let (te, machine) = run_vm(source);
    assert_eq!(1, te.print_args.len());
    assert_eq!(vec!["off".to_string()], te.print_args);
    assert_eq!(0, te.wait_args.len());
    assert_eq!(0, te.set_args.len());
    assert_eq!(2, te.get_args.len());
    assert_eq!(vec!["path".to_string(), "path".to_string()], te.get_args);
    // The task of the `when` waits for the next payload.
    assert!(!machine.finished());
    assert_eq!(machine.state(1), Some(TaskState::Receiving));
}

#[test]
fn vm_test_wait() {
    let source = "
            wait 1s print \"done\";
    ";
    let (te, machine) = run_vm(source);
    assert_eq!(0, te.get_args.len());
    assert_eq!(0, te.set_args.len());
    assert_eq!(1, te.wait_args.len());
    assert_eq!(vec![Duration::from_secs(1)], te.wait_args);
    assert_eq!(vec!["done".to_string()], te.print_args);
    assert!(machine.finished());
}

#[test]
fn vm_test_set() {
    let source = "
            set [path/to/value] \"on\";
    ";
    let (te, _) = run_vm(source);
    assert_eq!(0, te.get_args.len());
    assert_eq!(0, te.wait_args.len());
    assert_eq!(1, te.set_args.len());
    assert_eq!(
        vec![("path/to/value".to_string(), "on".to_string())],
        te.set_args
    );
}

#[test]
fn vm_test_many_threads() {
    let source = "
            wait 5s print \"a\";
            wait 4s print \"b\";
            wait 3s print \"c\";
            wait 2s print \"d\";
            wait 1s print \"e\";
    ";
    let (te, machine) = run_vm(source);
    assert_eq!(0, te.get_args.len());
    assert_eq!(0, te.set_args.len());
    assert_eq!(5, te.wait_args.len());
    assert_eq!(
        vec![
            Duration::from_secs(5),
            Duration::from_secs(4),
            Duration::from_secs(3),
            Duration::from_secs(2),
            Duration::from_secs(1),
        ],
        te.wait_args
    );
    assert_eq!(6, machine.task_count());
}

#[test]
fn vm_test_scene() {
    let source = "
        scene night { print \"x\"; };
        start night;
        stop night;
    ";
    let (te, machine) = run_vm(source);
    assert_eq!(0, te.get_args.len());
    assert_eq!(0, te.set_args.len());
    assert_eq!(0, te.wait_args.len());
    assert_eq!(vec!["x".to_string()], te.print_args);
    // The task that ran the scene is in the scene's group and ends with it.
    assert!(machine.finished());
    assert_eq!(machine.group(0), Some(1));
}

#[test]
fn scopes_print_inner_then_outer() {
    let (te, _) = run_vm("let x = \"x\"; { let x = \"y\"; print x; }; print x;");
    assert_eq!(vec!["y".to_string(), "x".to_string()], te.print_args);
}

#[test]
fn hello_is_printed_once() {
    let (te, machine) = run_vm("print \"hello\";");
    assert_eq!(vec!["hello".to_string()], te.print_args);
    assert!(machine.finished());
    assert_eq!(1, machine.task_count());
}

#[test]
fn when_compares_the_payload() {
    // The payload `true` is not the text "on": the body does not run.
    let (te, _) = run_vm("when <path> is \"on\" print \"off\";");
    assert_eq!(2, te.get_args.len());
    assert_eq!(0, te.print_args.len());

    // The payload `"on"` is.
    let code = Interpreter::from_source("when <path> is \"on\" print \"off\";").unwrap();
    let mut machine = Machine::new(code);
    let mut prints = Vec::new();
    let mut gets = 0;
    while let Some(task) = machine.ready() {
        match machine.advance(task).unwrap() {
            Some(Request::Get(_)) => {
                gets += 1;
                if gets == 1 {
                    machine.delivered(task, "\"on\"".as_bytes()).unwrap();
                }
            }
            Some(Request::Print(text)) => {
                prints.push(text);
                machine.completed(task);
            }
            _ => {}
        }
    }
    assert_eq!(2, gets);
    assert_eq!(vec!["off".to_string()], prints);
}

#[test]
fn stop_cancels_the_group_and_nothing_else() {
    // Task 1 waits outside the scene. Task 2 is started inside the scene.
    let source = "
        wait 9s print \"outside\";
        scene night { when <lamp> print \"inside\"; };
        start night;
        stop night;
    ";
    let code = Interpreter::from_source(source).unwrap();
    let mut machine = Machine::new(code);
    let mut waiting = Vec::new();
    while let Some(task) = machine.ready() {
        match machine.advance(task).unwrap() {
            Some(Request::Wait(_)) | Some(Request::Get(_)) => waiting.push(task),
            Some(_) => machine.completed(task),
            None => {}
        }
    }
    assert_eq!(3, machine.task_count());
    // The main task entered the scene, started task 2 there and stopped it.
    assert_eq!(machine.group(0), machine.group(2));
    assert_ne!(machine.group(0), machine.group(1));
    assert_eq!(machine.state(0), Some(TaskState::Done));
    assert_eq!(machine.state(2), Some(TaskState::Done));
    // The task outside the scene still waits.
    assert_eq!(machine.state(1), Some(TaskState::Waiting));
    assert_eq!(waiting, vec![1]);
    // What is reported for a cancelled task changes nothing.
    machine.delivered(2, "true".as_bytes()).unwrap();
    assert_eq!(machine.state(2), Some(TaskState::Done));
    // The task outside goes on when its wait is over.
    machine.completed(1);
    assert_eq!(machine.state(1), Some(TaskState::Ready));
}

#[test]
fn shutdown_ends_every_task() {
    let source = "
        wait 1s print \"a\";
        when <path> print \"b\";
    ";
    let code = Interpreter::from_source(source).unwrap();
    let mut machine = Machine::new(code);
    while let Some(task) = machine.ready() {
        machine.advance(task).unwrap();
    }
    assert!(!machine.finished());
    machine.shutdown();
    assert!(machine.finished());
    assert_eq!(machine.ready(), None);
    for task in 0..machine.task_count() {
        assert_eq!(machine.state(task), Some(TaskState::Done));
        assert_eq!(machine.advance(task), Ok(None));
        machine.completed(task);
        machine.delivered(task, "1".as_bytes()).unwrap();
        assert_eq!(machine.state(task), Some(TaskState::Done));
    }
    assert_eq!(machine.state(99), None);
    assert_eq!(machine.advance(99), Ok(None));
}

#[test]
fn a_failing_task_ends_the_machine() {
    let code = Code {
        instructions: vec![Instruction::Spawn(2), Instruction::Term, Instruction::Pop],
        constants: vec![],
    };
    let mut machine = Machine::new(code);
    assert_eq!(machine.advance(0), Ok(None));
    assert_eq!(machine.task_count(), 2);
    assert_eq!(machine.advance(0), Err(RuntimeError::StackUnderflow));
    assert!(machine.finished());
}

fn code_of(instructions: Vec<Instruction>, constants: Vec<Value>) -> Code {
    Code {
        instructions,
        constants,
    }
}

#[test]
fn block_leaves_the_stack_as_deep_as_it_was() {
    let code = Interpreter::from_source("{ let a = 1; let b = 2; print a; };").unwrap();
    let mut ctx = ThreadContext::new(0);
    let mut deepest = 0;
    loop {
        match ctx.step(&code).unwrap() {
            StepResult::Break => break,
            _ => {}
        }
        deepest = deepest.max(ctx.stack.len());
    }
    assert_eq!(deepest, 3);
    assert_eq!(ctx.stack.len(), 0);
}

#[test]
fn as_leaves_one_value() {
    // 1 as x in x is 1
    let code = code_of(
        vec![
            Instruction::Constant(0),
            Instruction::Pick(0),
            Instruction::Constant(0),
            Instruction::Equal,
            Instruction::Swap,
            Instruction::Pop,
        ],
        vec![Value::Integer(1)],
    );
    let mut ctx = ThreadContext::new(0);
    for _ in 0..6 {
        assert_eq!(ctx.step(&code), Ok(StepResult::Continue));
    }
    assert_eq!(ctx.stack, vec![Value::Bool(true)]);
    assert_eq!(ctx.ip, 6);
    assert_eq!(ctx.step(&code), Err(RuntimeError::InstructionOutOfRange));
}

#[test]
fn stack_operations() {
    let mut ctx = ThreadContext::new(0);
    ctx.push(Value::Integer(1));
    ctx.push(Value::Integer(2));
    ctx.pick(1);
    assert_eq!(
        ctx.stack,
        vec![Value::Integer(1), Value::Integer(2), Value::Integer(1)]
    );
    assert_eq!(ctx.pop(), Value::Integer(1));
    assert_eq!(ctx.pop(), Value::Integer(2));
    let child = ctx.spawn(7);
    assert_eq!(child.ip, 7);
    assert_eq!(child.stack, vec![Value::Integer(1)]);
    assert!(child.call_stack.is_empty());
}

#[test]
fn spawn_gives_the_child_the_stack_and_the_parent_the_way_on() {
    let code = code_of(
        vec![Instruction::Constant(0), Instruction::Spawn(9)],
        vec![Value::Str("v".to_string())],
    );
    let mut ctx = ThreadContext::new(0);
    ctx.call_stack.push(5);
    ctx.step(&code).unwrap();
    match ctx.step(&code).unwrap() {
        StepResult::Spawn(child) => {
            assert_eq!(child.ip, 2);
            assert_eq!(child.stack, vec![Value::Str("v".to_string())]);
            assert!(child.call_stack.is_empty());
        }
        other => panic!("{:?}", other),
    }
    assert_eq!(ctx.ip, 9);
    assert_eq!(ctx.call_stack, vec![5]);
}

#[test]
fn call_and_return() {
    let code = code_of(
        vec![
            Instruction::Constant(0),
            Instruction::Call,
            Instruction::Term,
            Instruction::SceneContext,
            Instruction::Return,
        ],
        vec![Value::Jump(3)],
    );
    let mut ctx = ThreadContext::new(0);
    assert_eq!(ctx.step(&code), Ok(StepResult::Continue));
    assert_eq!(ctx.step(&code), Ok(StepResult::Continue));
    assert_eq!(ctx.ip, 3);
    assert_eq!(ctx.call_stack, vec![2]);
    assert_eq!(ctx.step(&code), Ok(StepResult::SceneContext));
    assert_eq!(ctx.step(&code), Ok(StepResult::Continue));
    assert_eq!(ctx.ip, 2);
    assert_eq!(ctx.step(&code), Ok(StepResult::Break));
}

#[test]
fn jump_if_not() {
    let code = code_of(
        vec![
            Instruction::Constant(0),
            Instruction::JmpNot(0),
            Instruction::Constant(1),
            Instruction::JmpNot(0),
            Instruction::Jump(7),
        ],
        vec![Value::Bool(true), Value::Bool(false)],
    );
    let mut ctx = ThreadContext::new(0);
    ctx.step(&code).unwrap();
    ctx.step(&code).unwrap();
    assert_eq!(ctx.ip, 2);
    ctx.step(&code).unwrap();
    ctx.step(&code).unwrap();
    assert_eq!(ctx.ip, 0);
    assert!(ctx.stack.is_empty());
    ctx.ip = 4;
    ctx.step(&code).unwrap();
    assert_eq!(ctx.ip, 7);
}

#[test]
fn each_runtime_error() {
    let constants = vec![
        Value::Integer(1),
        Value::Str("key".to_string()),
        Value::Object(vec![("other".to_string(), Value::Integer(2))]),
        Value::Path("p".to_string()),
        Value::Bool(true),
        Value::Time(TimeOfDay::Sunrise),
    ];
    let run = |instructions: Vec<Instruction>| {
        let code = code_of(instructions, vec![]);
        let code = Code {
            constants: constants.iter().map(|v| v.copy()).collect(),
            ..code
        };
        let mut ctx = ThreadContext::new(0);
        loop {
            let before = (ctx.ip, ctx.stack.len());
            match ctx.step(&code) {
                Ok(StepResult::Break) => return Ok(()),
                Ok(_) => {}
                Err(e) => {
                    // A task that cannot go on is left as it was.
                    assert_eq!(before, (ctx.ip, ctx.stack.len()));
                    return Err(e);
                }
            }
        }
    };
    assert_eq!(run(vec![]), Err(RuntimeError::InstructionOutOfRange));
    assert_eq!(run(vec![Instruction::Constant(6)]), Err(RuntimeError::ConstantOutOfRange));
    assert_eq!(run(vec![Instruction::Pop]), Err(RuntimeError::StackUnderflow));
    assert_eq!(run(vec![Instruction::Pick(0)]), Err(RuntimeError::StackUnderflow));
    assert_eq!(run(vec![Instruction::Constant(0), Instruction::Swap]), Err(RuntimeError::StackUnderflow));
    assert_eq!(run(vec![Instruction::Constant(0), Instruction::Equal]), Err(RuntimeError::StackUnderflow));
    assert_eq!(run(vec![Instruction::Print]), Err(RuntimeError::StackUnderflow));
    assert_eq!(run(vec![Instruction::Return]), Err(RuntimeError::ReturnWithoutCall));
    assert_eq!(run(vec![Instruction::Constant(0), Instruction::Wait]), Err(RuntimeError::TypeError));
    assert_eq!(run(vec![Instruction::Constant(0), Instruction::At]), Err(RuntimeError::TypeError));
    assert_eq!(run(vec![Instruction::Constant(0), Instruction::Call]), Err(RuntimeError::TypeError));
    assert_eq!(run(vec![Instruction::Constant(0), Instruction::JmpNot(0)]), Err(RuntimeError::TypeError));
    assert_eq!(run(vec![Instruction::Constant(0), Instruction::Get]), Err(RuntimeError::TypeError));
    assert_eq!(run(vec![Instruction::Constant(1), Instruction::Get]), Err(RuntimeError::TypeError));
    assert_eq!(
        run(vec![Instruction::Constant(0), Instruction::Constant(1), Instruction::Index]),
        Err(RuntimeError::TypeError)
    );
    assert_eq!(
        run(vec![Instruction::Constant(2), Instruction::Constant(0), Instruction::Index]),
        Err(RuntimeError::TypeError)
    );
    assert_eq!(
        run(vec![Instruction::Constant(2), Instruction::Constant(1), Instruction::Index]),
        Err(RuntimeError::MissingProperty)
    );
    assert_eq!(
        run(vec![Instruction::Constant(3), Instruction::Constant(4), Instruction::Publish]),
        Err(RuntimeError::NotTransmissible)
    );
    assert_eq!(
        run(vec![Instruction::Constant(1), Instruction::Constant(0), Instruction::Publish]),
        Err(RuntimeError::TypeError)
    );
    assert_eq!(run(vec![Instruction::Constant(5), Instruction::At]), Err(RuntimeError::UnknownTime));
    assert_eq!(run(vec![Instruction::Constant(0), Instruction::Pop, Instruction::Term]), Ok(()));
}

#[test]
fn equal_compares_kind_and_content() {
    let check = |a: Value, b: Value| a.equals(&b);
    assert!(check(Value::Integer(1), Value::Integer(1)));
    assert!(!check(Value::Integer(1), Value::Integer(2)));
    assert!(!check(Value::Integer(1), Value::Float("1".to_string())));
    assert!(!check(Value::Str("a".to_string()), Value::Path("a".to_string())));
    assert!(check(Value::Str("a".to_string()), Value::Str("a".to_string())));
    assert!(check(Value::Float("0".to_string()), Value::Float("-0".to_string())));
    assert!(check(Value::Float("1.5".to_string()), Value::Float("1.5".to_string())));
    assert!(!check(Value::Float("1.5".to_string()), Value::Float("2.5".to_string())));
    assert!(check(
        Value::Duration(Duration::from_secs(2)),
        Value::Duration(Duration::new(2, 0).unwrap())
    ));
    assert!(!check(
        Value::Duration(Duration::from_secs(2)),
        Value::Duration(Duration::new(2, 1).unwrap())
    ));
    assert!(check(
        Value::Time(TimeOfDay::HM(1, 2)),
        Value::Time(TimeOfDay::HM(1, 2))
    ));
    assert!(!check(
        Value::Time(TimeOfDay::Sunrise),
        Value::Time(TimeOfDay::Sunset)
    ));
    assert!(check(Value::Jump(3), Value::Jump(3)));
    assert!(!check(Value::Bool(true), Value::Bool(false)));
    let object = |n: i64| {
        Value::Object(vec![
            ("a".to_string(), Value::Integer(n)),
            ("b".to_string(), Value::Object(vec![])),
        ])
    };
    assert!(check(object(1), object(1)));
    assert!(!check(object(1), object(2)));
    assert!(!check(object(1), Value::Object(vec![])));
}

#[test]
fn at_waits_less_than_a_day() {
    let code = code_of(
        vec![Instruction::Constant(0), Instruction::At],
        vec![Value::Time(TimeOfDay::HM(12, 30))],
    );
    let mut ctx = ThreadContext::new(0);
    ctx.step(&code).unwrap();
    match ctx.step(&code) {
        Ok(StepResult::Wait(d)) => {
            assert!(d.as_secs() >= 1);
            assert!(d.as_secs() <= 86_400 + 3_600);
            assert_eq!(d.subsec_nanos(), 0);
            assert!(ctx.stack.is_empty());
        }
        Err(RuntimeError::UnknownTime) => assert_eq!(ctx.stack.len(), 1),
        other => panic!("{:?}", other),
    }
    // No day has an hour 24 or a minute 60.
    for (h, m) in [(24, 0), (0, 60), (99, 99)] {
        let code = code_of(
            vec![Instruction::Constant(0), Instruction::At],
            vec![Value::Time(TimeOfDay::HM(h, m))],
        );
        let mut ctx = ThreadContext::new(0);
        ctx.step(&code).unwrap();
        assert_eq!(ctx.step(&code), Err(RuntimeError::UnknownTime));
        assert_eq!(ctx.stack.len(), 1);
    }
}

#[test]
fn values_are_printed_and_sent_as_text() {
    let source = "
        let o = {b: {y: \"z\"}, a: 1.50};
        print o;
        print o.b.y;
        print 2 is 2;
        print 1.0 is 1;
        set [p] 7;
        set [p] 2.50;
        set [p] {b: {y: \"z\"}, a: 1.50};
    ";
    let (te, machine) = run_vm(source);
    assert_eq!(
        te.print_args,
        vec![
            "{a: 1.5, b: {y: z}}".to_string(),
            "z".to_string(),
            "true".to_string(),
            "false".to_string(),
        ]
    );
    assert_eq!(
        te.set_args,
        vec![
            ("p".to_string(), "7".to_string()),
            ("p".to_string(), "2.5".to_string()),
            ("p".to_string(), "{\"a\":1.5,\"b\":{\"y\":\"z\"}}".to_string()),
        ]
    );
    assert!(machine.finished());
}

#[test]
fn a_block_gives_the_stack_back_as_it_was() {
    let code =
        Interpreter::from_source("let x = 7; let y = \"s\"; { let a = 1; let b = x; print b; };")
            .unwrap();
    let before = vec![Value::Integer(7), Value::Str("s".to_string())];
    let mut ctx = ThreadContext::new(0);
    assert_eq!(ctx.step(&code), Ok(StepResult::Continue));
    assert_eq!(ctx.step(&code), Ok(StepResult::Continue));
    assert_eq!(ctx.stack, before);
    // Inside the block: two values are bound and one is printed.
    assert_eq!(ctx.step(&code), Ok(StepResult::Continue));
    assert_eq!(ctx.step(&code), Ok(StepResult::Continue));
    assert_eq!(ctx.step(&code), Ok(StepResult::Continue));
    assert_eq!(ctx.stack.len(), 5);
    assert_eq!(ctx.step(&code), Ok(StepResult::Print("7".to_string())));
    assert_eq!(ctx.stack.len(), 4);
    // The end of the block: one pop for each of the two.
    assert_eq!(code.instructions[ctx.ip], Instruction::Pop);
    assert_eq!(ctx.step(&code), Ok(StepResult::Continue));
    assert_eq!(code.instructions[ctx.ip], Instruction::Pop);
    assert_eq!(ctx.step(&code), Ok(StepResult::Continue));
    assert_eq!(ctx.stack, before);
    // The script is a block too, and takes its own two values with it.
    assert_eq!(ctx.step(&code), Ok(StepResult::Continue));
    assert_eq!(ctx.step(&code), Ok(StepResult::Continue));
    assert_eq!(ctx.stack, vec![]);
    assert_eq!(ctx.step(&code), Ok(StepResult::Break));
}

#[test]
fn a_binding_leaves_the_value_of_what_follows_it() {
    let code = Interpreter::from_source("let o = 5; let r = 1 as x in o; let q = 2 as x in x;")
        .unwrap();
    let mut ctx = ThreadContext::new(0);
    assert_eq!(ctx.step(&code), Ok(StepResult::Continue));
    assert_eq!(ctx.stack, vec![Value::Integer(5)]);
    // The bound value, then the value of what follows, above what was there.
    assert_eq!(ctx.step(&code), Ok(StepResult::Continue));
    assert_eq!(ctx.step(&code), Ok(StepResult::Continue));
    assert_eq!(
        ctx.stack,
        vec![Value::Integer(5), Value::Integer(1), Value::Integer(5)]
    );
    assert_eq!(ctx.step(&code), Ok(StepResult::Continue));
    assert_eq!(ctx.step(&code), Ok(StepResult::Continue));
    assert_eq!(ctx.stack, vec![Value::Integer(5), Value::Integer(5)]);
    for _ in 0..4 {
        assert_eq!(ctx.step(&code), Ok(StepResult::Continue));
    }
    assert_eq!(
        ctx.stack,
        vec![Value::Integer(5), Value::Integer(5), Value::Integer(2)]
    );
}

#[test]
fn a_failure_of_the_host_ends_the_machine() {
    let source = "
        wait 1s print \"a\";
        when <path> print \"b\";
    ";
    let code = Interpreter::from_source(source).unwrap();
    let mut machine = Machine::new(code);
    while let Some(task) = machine.ready() {
        machine.advance(task).unwrap();
    }
    assert!(!machine.finished());
    assert_eq!(machine.state(1), Some(TaskState::Waiting));
    machine.failed(1);
    assert!(machine.finished());
    for task in 0..machine.task_count() {
        assert_eq!(machine.state(task), Some(TaskState::Done));
    }
    // A task that is not there can fail too: the machine ends all the same.
    let mut other = Machine::new(Interpreter::from_source("wait 1s print 1;").unwrap());
    other.failed(99);
    assert!(other.finished());
}

#[test]
fn compiled_code_points_only_into_itself() {
    let source = "
        let o = {a: 1, b: {c: 2.5}};
        scene night { when <a/b> is o.b.c { set [out] o; }; wait 2m print 1 as x in x; };
        at 10:05PM { start night; };
        at #sunset stop night;
        { let t = <x>; print t; };
    ";
    let code = Interpreter::from_source(source).unwrap();
    let mut addresses = 0;
    for inst in code.instructions.iter() {
        match inst {
            Instruction::Spawn(a) | Instruction::Jump(a) | Instruction::JmpNot(a) => {
                assert!(*a < code.instructions.len());
                addresses += 1;
            }
            Instruction::Constant(c) => assert!(*c < code.constants.len()),
            _ => {}
        }
    }
    assert!(addresses >= 8);
    let mut jumps = 0;
    for value in code.constants.iter() {
        if let Value::Jump(a) = value {
            assert!(*a < code.instructions.len());
            jumps += 1;
        }
    }
    assert_eq!(jumps, 2);
    assert_eq!(code.instructions.last(), Some(&Instruction::Term));
}
