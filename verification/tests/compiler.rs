use jim::compiler::{Code, Duration, Instruction, Interpreter, TimeOfDay, Value};
use jim::Compile;

#[test]
fn compiler_test_hello_world() {
    let source = r#"print "hello_world";"#;
    let code = Interpreter::from_source(source).unwrap();
    assert_eq!(
        Code {
            instructions: vec![
                Instruction::Constant(0),
                Instruction::Print,
                Instruction::Term,
            ],
            constants: vec![Value::Str("hello_world".to_string())],
        },
        code
    );
}
#[test]
fn compiler_test_let() {
    let source = r#"
let x = "x";
let y = "y";
let z = "z";
print z;
print y;
print x;
print y;
print z;
"#;
    let code = Interpreter::from_source(source).unwrap();
    assert_eq!(
        Code {
            instructions: vec![
                Instruction::Constant(0), // x
                Instruction::Constant(1), // y, x
                Instruction::Constant(2), // z, y, x
                Instruction::Pick(0),     // z, z, y, x
                Instruction::Print,       // z, y, x
                Instruction::Pick(1),     // y, z, y, x
                Instruction::Print,       // z, y, x
                Instruction::Pick(2),     // x, z, y, x
                Instruction::Print,       // z, y, x
                Instruction::Pick(1),     // y, z, y, x
                Instruction::Print,       // z, y, x
                Instruction::Pick(0),     // z, z, y, x
                Instruction::Print,       // z, y, x
                Instruction::Pop,         // y, x
                Instruction::Pop,         // x
                Instruction::Pop,         //
                Instruction::Term,
            ],
            constants: vec![
                Value::Str("x".to_string()),
                Value::Str("y".to_string()),
                Value::Str("z".to_string())
            ],
        },
        code
    );
}
#[test]
fn compiler_test_let_block() {
    let source = r#"
let x = "x";
{
let y = "y";
let z = "z";
print z;
print y;
print x;
print y;
print z;
};
"#;
    let code = Interpreter::from_source(source).unwrap();
    assert_eq!(
        Code {
            instructions: vec![
                Instruction::Constant(0), // x
                Instruction::Constant(1), // y, x
                Instruction::Constant(2), // z, y, x
                Instruction::Pick(0),     // z, z, y, x
                Instruction::Print,       // z, y, x
                Instruction::Pick(1),     // y, z, y, x
                Instruction::Print,       // z, y, x
                Instruction::Pick(2),     // x, z, y, x
                Instruction::Print,       // z, y, x
                Instruction::Pick(1),     // y, z, y, x
                Instruction::Print,       // z, y, x
                Instruction::Pick(0),     // z, z, y, x
                Instruction::Print,       // z, y, x
                Instruction::Pop,         // y, x
                Instruction::Pop,         // x
                Instruction::Pop,         //
                Instruction::Term,
            ],
            constants: vec![
                Value::Str("x".to_string()),
                Value::Str("y".to_string()),
                Value::Str("z".to_string())
            ],
        },
        code
    );
}
#[test]
fn compiler_test_let_blocks() {
    let source = r#"
let x = "x";
{
let y = "y";
{
    let z = "z";
    { print z; };
};
print y;
};
print x;
"#;
    let code = Interpreter::from_source(source).unwrap();
    assert_eq!(
        Code {
            instructions: vec![
                Instruction::Constant(0), // x
                Instruction::Constant(1), // y, x
                Instruction::Constant(2), // z, y, x
                Instruction::Pick(0),     // z, z, y, x
                Instruction::Print,       // z, y, x
                Instruction::Pop,         // y, x
                Instruction::Pick(0),     // y, y, x
                Instruction::Print,       // y, x
                Instruction::Pop,         // x
                Instruction::Pick(0),     // x, x
                Instruction::Print,       // x
                Instruction::Pop,         //
                Instruction::Term,
            ],
            constants: vec![
                Value::Str("x".to_string()),
                Value::Str("y".to_string()),
                Value::Str("z".to_string())
            ],
        },
        code
    );
}
#[test]
fn compiler_test_let_shadow() {
    let source = r#"
let x = "x";
{
let x = "y";
{
    let x = "z";
    { print x; };
};
print x;
};
print x;
"#;
    let code = Interpreter::from_source(source).unwrap();
    assert_eq!(
        Code {
            instructions: vec![
                Instruction::Constant(0), // x
                Instruction::Constant(1), // y, x
                Instruction::Constant(2), // z, y, x
                Instruction::Pick(0),     // z, z, y, x
                Instruction::Print,       // z, y, x
                Instruction::Pop,         // y, x
                Instruction::Pick(0),     // y, y, x
                Instruction::Print,       // y, x
                Instruction::Pop,         // x
                Instruction::Pick(0),     // x, x
                Instruction::Print,       // x
                Instruction::Pop,         //
                Instruction::Term,
            ],
            constants: vec![
                Value::Str("x".to_string()),
                Value::Str("y".to_string()),
                Value::Str("z".to_string())
            ],
        },
        code
    );
}
#[test]
fn compiler_test_as() {
    let source = r#"
    print 1 as x in x;
"#;
    let code = Interpreter::from_source(source).unwrap();
    assert_eq!(
        Code {
            instructions: vec![
                Instruction::Constant(0),
                Instruction::Pick(0),
                Instruction::Swap,
                Instruction::Pop,
                Instruction::Print,
                Instruction::Term,
            ],
            constants: vec![Value::Integer(1)],
        },
        code
    );
}
#[test]
fn compiler_test_index() {
    let source = r#"
    let o = {x: 1};
    print o.x;
"#;
    let code = Interpreter::from_source(source).unwrap();
    assert_eq!(
        Code {
            instructions: vec![
                Instruction::Constant(0),
                Instruction::Pick(0),
                Instruction::Constant(1),
                Instruction::Index,
                Instruction::Print,
                Instruction::Pop,
                Instruction::Term,
            ],
            constants: vec![
                Value::Object(vec![("x".to_string(), Value::Integer(1))]),
                Value::Str("x".to_string()),
            ],
        },
        code
    );
}
#[test]
fn compiler_test_when() {
    let source = r#"
    when <path> is "off" print "off";
"#;
    let code = Interpreter::from_source(source).unwrap();
    assert_eq!(
        Code {
            instructions: vec![
                Instruction::Spawn(9),
                Instruction::Constant(0),
                Instruction::Get,
                Instruction::Constant(1),
                Instruction::Equal,
                Instruction::JmpNot(1),
                Instruction::Constant(2),
                Instruction::Print,
                Instruction::Jump(1),
                Instruction::Term,
            ],
            constants: vec![
                Value::Path("path".to_string()),
                Value::Str("off".to_string()),
                Value::Str("off".to_string())
            ],
        },
        code
    );
}
#[test]
fn test_when_as() {
    let source = r#"
    when <path> as x in x is "off" print "off";
"#;
    let code = Interpreter::from_source(source).unwrap();
    assert_eq!(
        Code {
            instructions: vec![
                Instruction::Spawn(12),
                Instruction::Constant(0),
                Instruction::Get,
                Instruction::Pick(0),
                Instruction::Constant(1),
                Instruction::Equal,
                Instruction::Swap,
                Instruction::Pop,
                Instruction::JmpNot(1),
                Instruction::Constant(2),
                Instruction::Print,
                Instruction::Jump(1),
                Instruction::Term,
            ],
            constants: vec![
                Value::Path("path".to_string()),
                Value::Str("off".to_string()),
                Value::Str("off".to_string())
            ],
        },
        code
    );
}
#[test]
fn compiler_test_wait() {
    let source = r#"
    wait 1s print "done";
"#;
    let code = Interpreter::from_source(source).unwrap();
    assert_eq!(
        Code {
            instructions: vec![
                Instruction::Spawn(6),
                Instruction::Constant(0),
                Instruction::Wait,
                Instruction::Constant(1),
                Instruction::Print,
                Instruction::Term,
                Instruction::Term,
            ],
            constants: vec![
                Value::Duration(Duration::from_secs(1)),
                Value::Str("done".to_string()),
            ],
        },
        code
    );
}
#[test]
fn compiler_test_set() {
    let source = r#"
    set [path/to/value] "on";
"#;
    let code = Interpreter::from_source(source).unwrap();
    assert_eq!(
        Code {
            instructions: vec![
                Instruction::Constant(0),
                Instruction::Constant(1),
                Instruction::Publish,
                Instruction::Term,
            ],
            constants: vec![
                Value::Path("path/to/value".to_string()),
                Value::Str("on".to_string()),
            ],
        },
        code
    );
}
#[test]
fn compiler_test_scene() {
    let source = r#"
    scene night { print "x"; };
    start night;
    stop night;
"#;
    let code = Interpreter::from_source(source).unwrap();
    assert_eq!(
        Code {
            instructions: vec![
                Instruction::Constant(0), // Jump address of scene start code
                Instruction::Constant(1), // Jump address of scene stop code
                Instruction::Jump(9),
                Instruction::SceneContext, // Scene start
                Instruction::Constant(2),
                Instruction::Print,
                Instruction::Return,
                Instruction::Stop, // Scene stop
                Instruction::Return,
                Instruction::Pick(1), // Start
                Instruction::Call,
                Instruction::Pick(0), // Stop
                Instruction::Call,
                Instruction::Pop, // pop the scene start out of scope
                Instruction::Pop, // pop the scene stop out of scope
                Instruction::Term
            ],
            constants: vec![Value::Jump(3), Value::Jump(7), Value::Str("x".to_string()),],
        },
        code
    );
}
#[test]
fn compiler_test_at() {
    let source = r#"
    at 12:50PM print "x";
"#;
    let code = Interpreter::from_source(source).unwrap();
    assert_eq!(
        Code {
            instructions: vec![
                Instruction::Spawn(6),
                Instruction::Constant(0),
                Instruction::At,
                Instruction::Constant(1),
                Instruction::Print,
                Instruction::Jump(1),
                Instruction::Term,
            ],
            constants: vec![
                Value::Time(TimeOfDay::HM(12, 50)),
                Value::Str("x".to_string()),
            ],
        },
        code
    );
}
#[test]
fn compiler_test_bool() {
    let source = r#"
    print true;
"#;
    let code = Interpreter::from_source(source).unwrap();
    assert_eq!(
        Code {
            instructions: vec![
                Instruction::Constant(0),
                Instruction::Print,
                Instruction::Term,
            ],
            constants: vec![Value::Bool(true),],
        },
        code
    );
}
#[test]
fn compiler_test_float() {
    let source = r#"
    print 7.0;
"#;
    let code = Interpreter::from_source(source).unwrap();
    assert_eq!(
        Code {
            instructions: vec![
                Instruction::Constant(0),
                Instruction::Print,
                Instruction::Term,
            ],
            constants: vec![Value::Float(7.0f64.to_string()),],
        },
        code
    );
}
#[test]
fn test_integer() {
    let source = r#"
    print 7;
"#;
    let code = Interpreter::from_source(source).unwrap();
    assert_eq!(
        Code {
            instructions: vec![
                Instruction::Constant(0),
                Instruction::Print,
                Instruction::Term,
            ],
            constants: vec![Value::Integer(7),],
        },
        code
    );
}
