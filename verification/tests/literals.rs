use jim::ast::{BinaryOpcode, Expr, Stmt};
use jim::compiler::{Code, Instruction, Interpreter};
use jim::error::CompileError;
use jim::parser::parse;
use jim::scope::Env;
use jim::value::{Duration, TimeOfDay, Value};
use jim::Compile;

fn literal(e: Expr) -> Result<Value, CompileError> {
    Value::from_expr(&e)
}

#[test]
fn times_of_day() {
    let time = |s: &str| literal(Expr::Time(s.to_string()));
    assert_eq!(time("10:05PM"), Ok(Value::Time(TimeOfDay::HM(22, 5))));
    assert_eq!(time("12:50PM"), Ok(Value::Time(TimeOfDay::HM(12, 50))));
    assert_eq!(time("12:25AM"), Ok(Value::Time(TimeOfDay::HM(12, 25))));
    assert_eq!(time("0:00AM"), Ok(Value::Time(TimeOfDay::HM(0, 0))));
    assert_eq!(time("11:59PM"), Ok(Value::Time(TimeOfDay::HM(23, 59))));
    assert_eq!(time("sunrise"), Ok(Value::Time(TimeOfDay::Sunrise)));
    assert_eq!(time("sunset"), Ok(Value::Time(TimeOfDay::Sunset)));
    assert_eq!(time("#sunrise"), Ok(Value::Time(TimeOfDay::Sunrise)));
    assert_eq!(time("#sunset"), Ok(Value::Time(TimeOfDay::Sunset)));
    for bad in [
        "#sun", "##sunrise", "sunrise ", "Sunrise", "10:05", "10:05pm", "1005PM", "10:60PM",
        "13:00PM", "24:00AM", ":05AM", "10:AM", "1:2:3AM", "", "M", "AM", "a:bAM",
    ] {
        assert_eq!(time(bad), Err(CompileError::MalformedTime), "{}", bad);
    }
}

#[test]
fn spans_of_time() {
    let span = |s: &str| literal(Expr::Duration(s.to_string()));
    assert_eq!(span("1s"), Ok(Value::Duration(Duration::from_secs(1))));
    assert_eq!(span("0s"), Ok(Value::Duration(Duration::from_secs(0))));
    assert_eq!(
        span("18446744073709551615s"),
        Ok(Value::Duration(Duration::from_secs(u64::MAX)))
    );
    assert_eq!(span("5h"), Ok(Value::Duration(Duration::from_secs(18000))));
    assert_eq!(span("2m"), Ok(Value::Duration(Duration::from_secs(120))));
    assert_eq!(span("0h"), Ok(Value::Duration(Duration::from_secs(0))));
    assert_eq!(
        span("5124095576030431h"),
        Ok(Value::Duration(Duration::from_secs(18446744073709551600)))
    );
    assert_eq!(
        span("307445734561825860m"),
        Ok(Value::Duration(Duration::from_secs(18446744073709551600)))
    );
    for bad in [
        "s", "h", "", "1", "5x", "5d", "18446744073709551616s", "5124095576030432h",
        "307445734561825861m", "18446744073709551615m", "-1s", "1.5s", "1 s",
    ] {
        assert_eq!(span(bad), Err(CompileError::MalformedDuration), "{}", bad);
    }
}

#[test]
fn numbers_with_a_fraction() {
    let number = |s: &str| literal(Expr::Float(s.to_string()));
    assert_eq!(number("7.0"), Ok(Value::Float(7.0f64.to_string())));
    assert_eq!(number("0.1"), Ok(Value::Float(0.1f64.to_string())));
    assert_eq!(number("42.50"), Ok(Value::Float("42.5".to_string())));
    assert_eq!(number("00.5"), Ok(Value::Float("0.5".to_string())));
    assert_eq!(number("7"), Ok(Value::Float("7".to_string())));
    assert_eq!(number("1.5.2"), Err(CompileError::MalformedNumber));
    assert_eq!(number("x"), Err(CompileError::MalformedNumber));
    assert_eq!(number(""), Err(CompileError::MalformedNumber));
}

#[test]
fn other_literals() {
    assert_eq!(
        literal(Expr::String("a".to_string())),
        Ok(Value::Str("a".to_string()))
    );
    assert_eq!(literal(Expr::Boolean(true)), Ok(Value::Bool(true)));
    assert_eq!(literal(Expr::Integer(-3)), Ok(Value::Integer(-3)));
    assert_eq!(
        literal(Expr::Object(vec![
            ("b".to_string(), Expr::Integer(1)),
            ("a".to_string(), Expr::Duration("2s".to_string())),
            ("b".to_string(), Expr::Boolean(false)),
        ])),
        Ok(Value::Object(vec![
            ("a".to_string(), Value::Duration(Duration::from_secs(2))),
            ("b".to_string(), Value::Bool(false)),
        ]))
    );
    assert_eq!(
        literal(Expr::Object(vec![
            ("a".to_string(), Expr::Duration("2x".to_string())),
            ("b".to_string(), Expr::Ident("x".to_string())),
        ])),
        Err(CompileError::MalformedDuration)
    );
    assert_eq!(
        literal(Expr::Ident("x".to_string())),
        Err(CompileError::NotLiteral)
    );
    assert_eq!(
        literal(Expr::Path("x".to_string())),
        Err(CompileError::NotLiteral)
    );
}

#[test]
fn each_compile_error() {
    let compile = |s: &str| Interpreter::from_source(s).map(|_| ());
    assert_eq!(compile("@"), Err(CompileError::Syntax));
    assert_eq!(compile("print x;"), Err(CompileError::UndefinedIdentifier));
    assert_eq!(compile("start s;"), Err(CompileError::UndefinedIdentifier));
    assert_eq!(compile("stop t;"), Err(CompileError::UndefinedIdentifier));
    assert_eq!(
        compile("let a = 1; print b;"),
        Err(CompileError::UndefinedIdentifier)
    );
    assert_eq!(
        compile("let a = 1; { let c = 2; print b; };"),
        Err(CompileError::UndefinedIdentifier)
    );
    assert_eq!(
        compile("scene s { print 1; }; stop t;"),
        Err(CompileError::UndefinedIdentifier)
    );
    assert_eq!(compile("wait 5h print 1;"), Ok(()));
    assert_eq!(
        compile("wait 18446744073709551616s print 1;"),
        Err(CompileError::MalformedDuration)
    );
    assert_eq!(
        compile("wait 18446744073709551615m print 1;"),
        Err(CompileError::MalformedDuration)
    );
    assert_eq!(compile("at #sunrise print 1;"), Ok(()));
    assert_eq!(compile("at #sunset print 1;"), Ok(()));
    assert_eq!(compile("at 13:00PM print 1;"), Err(CompileError::MalformedTime));
    assert_eq!(compile("print 00.5;"), Ok(()));
    assert_eq!(
        Interpreter::from_ast(Stmt::Print(Expr::Float("1.5.2".to_string()))).map(|_| ()),
        Err(CompileError::MalformedNumber)
    );
    assert_eq!(compile("print 1 + 2;"), Err(CompileError::UnsupportedOperator));
    assert_eq!(
        compile("print x + 2;"),
        Err(CompileError::UndefinedIdentifier)
    );
    assert_eq!(compile(""), Ok(()));
    let ast = Stmt::Print(Expr::Binary(
        Box::new(Expr::Integer(1)),
        BinaryOpcode::Mul,
        Box::new(Expr::Ident("nobody".to_string())),
    ));
    assert_eq!(
        Interpreter::from_ast(ast).map(|_| ()),
        Err(CompileError::UndefinedIdentifier)
    );
}

#[test]
fn the_same_text_gives_the_same_code() {
    let source = "let o = {b: 1, a: 2.5}; when <p> is o.a { set [q] o; };";
    let first = Interpreter::from_source(source).unwrap();
    let second = Interpreter::from_source(&source.to_string()).unwrap();
    assert_eq!(first, second);
    assert_eq!(
        Interpreter::from_source("print y;").map(|_| ()),
        Interpreter::from_source("print y;").map(|_| ())
    );
}

#[test]
fn names_are_found_by_walking_outward() {
    let mut root = Env::new();
    assert_eq!(root.get_depth(&"x".to_string()), 0);
    assert!(root.has_room());
    root.bind("x".to_string());
    root.bind("y".to_string());
    assert_eq!(root.depth(), 2);
    assert_eq!(root.get_depth(&"x".to_string()), 2);
    assert_eq!(root.get_depth(&"y".to_string()), 1);
    let mut inner = root.nest();
    assert_eq!(inner.depth(), 0);
    assert_eq!(inner.get_depth(&"x".to_string()), 2);
    inner.bind("z".to_string());
    inner.bind("x".to_string());
    assert_eq!(inner.get_depth(&"z".to_string()), 2);
    assert_eq!(inner.get_depth(&"x".to_string()), 1);
    assert_eq!(inner.get_depth(&"y".to_string()), 3);
    assert_eq!(inner.get_depth(&"nobody".to_string()), 0);
    let innermost = inner.nest();
    assert_eq!(innermost.get_depth(&"x".to_string()), 1);
    assert_eq!(innermost.get_depth(&"y".to_string()), 3);
    assert_eq!(innermost.get_depth(&"nobody".to_string()), 0);
}

#[test]
fn code_of_a_task_in_a_block() {
    let code = Interpreter::from_source("{ let d = 2s; wait d set [out] {on: true}; };").unwrap();
    assert_eq!(
        Code {
            instructions: vec![
                Instruction::Constant(0),
                Instruction::Spawn(8),
                Instruction::Pick(0),
                Instruction::Wait,
                Instruction::Constant(1),
                Instruction::Constant(2),
                Instruction::Publish,
                Instruction::Term,
                Instruction::Pop,
                Instruction::Term,
            ],
            constants: vec![
                Value::Duration(Duration::from_secs(2)),
                Value::Path("out".to_string()),
                Value::Object(vec![("on".to_string(), Value::Bool(true))]),
            ],
        },
        code
    );
}

#[test]
fn what_the_grammar_reads() {
    let text = |s: &str| parse(s).map(|ast| ast.to_text());
    assert_eq!(text("  "), Ok("[]".to_string()));
    assert_eq!(
        text("print (1 + 2) * 3;"),
        Ok("[print ((1 + 2) * 3);]".to_string())
    );
    assert_eq!(
        text("print 1 - 2 - 3;"),
        Ok("[print ((1 - 2) - 3);]".to_string())
    );
    assert_eq!(
        text("print a.b.c is 1 / 2;"),
        Ok("[print (a.b.c is (1 / 2));]".to_string())
    );
    assert_eq!(
        text("let o = {a: {b: 1,}, c: \"d\"};"),
        Ok("[let o = {a: {b: 1}, c: \"d\"};]".to_string())
    );
    assert_eq!(
        text("{ when <a/+/#> is true { set [b c] 1s; }; };"),
        Ok("[[when (<a/+/#> is true) [set b c 1s;];];]".to_string())
    );
    assert_eq!(
        text("scene s wait 1m at 1:02AM start t;"),
        Ok("[scene s wait 1m at 1:02AM start t;]".to_string())
    );
    assert_eq!(text("x;\n\ty.z ;"), Ok("[x; y.z;]".to_string()));
    assert_eq!(text("print 9223372036854775807;").is_ok(), true);
    for bad in [
        "print 1", "print;", "let = 1;", "let let = 1;", "print \"a;", "print <a;", "set a 1;",
        "print {a 1};", "print (1;", "print 1 +;", "print 5x;", "print 5sx;", "print 1:5;",
        "print 1:05XM;", "print #sun;", "print 9223372036854775808;", "{ print 1; ", "};",
        "print x as in y;", "print x as y z;", "when print 1;", "start;", "scene { };", "print 1;;",
    ] {
        assert_eq!(text(bad), Err(jim::error::CompileError::Syntax), "{}", bad);
    }
    assert_eq!(
        parse("print 1 as x in x;").unwrap(),
        Stmt::Block(vec![Stmt::Print(Expr::As(
            Box::new(Expr::Integer(1)),
            "x".to_string(),
            Box::new(Expr::Ident("x".to_string())),
        ))])
    );
}
