use jim::codegen::{to_sexpr, to_string, to_vec, Sexp, Type, WASMExpr};

#[test]
fn test_empty_module() {
    let e = WASMExpr::Module(vec![]);
    assert_eq!("(module)", to_string(&e).unwrap());
}

#[test]
fn test_module() {
    let e = WASMExpr::Module(vec![WASMExpr::Func(vec![]), WASMExpr::Func(vec![])]);
    assert_eq!("(module (func) (func))", to_string(&e).unwrap());
}

#[test]
fn test_empty_func() {
    let e = WASMExpr::Func(vec![]);
    assert_eq!("(func)", to_string(&e).unwrap());
}

#[test]
fn test_func() {
    let e = WASMExpr::Func(vec![
        WASMExpr::Param(Type::I32, None),
        WASMExpr::Param(Type::F32, None),
        WASMExpr::Result(Type::I64, None),
        WASMExpr::Local(Type::I64, None),
        WASMExpr::Cmd("local.get".to_string()),
        WASMExpr::Number(0),
        WASMExpr::Cmd("local.get".to_string()),
        WASMExpr::Number(1),
        WASMExpr::Cmd("local.get".to_string()),
        WASMExpr::Number(2),
    ]);
    assert_eq!(
        "(func (param i32) (param f32) (result i64) (local i64) local.get 0 local.get 1 local.get 2)",
        to_string(&e).unwrap()
    );
}

#[test]
fn test_func_named() {
    let e = WASMExpr::Func(vec![
        WASMExpr::Param(Type::I32, Some("$a".to_string())),
        WASMExpr::Param(Type::F32, Some("$b".to_string())),
        WASMExpr::Result(Type::I64, None),
        WASMExpr::Local(Type::I64, Some("$x".to_string())),
        WASMExpr::Cmd("local.get".to_string()),
        WASMExpr::Name("$a".to_string()),
        WASMExpr::Cmd("local.get".to_string()),
        WASMExpr::Name("$b".to_string()),
        WASMExpr::Cmd("local.get".to_string()),
        WASMExpr::Name("$x".to_string()),
        WASMExpr::Call,
        WASMExpr::Name("$y".to_string()),
    ]);
    assert_eq!(
        "(func (param $a i32) (param $b f32) (result i64) (local $x i64) local.get $a local.get $b local.get $x call $y)",
        to_string(&e).unwrap()
    );
}

#[test]
fn sexpr_of_a_declaration() {
    let e = WASMExpr::Local(Type::F64, Some("$x".to_string()));
    let cons = |a: Sexp, b: Sexp| Sexp::Cons(Box::new(a), Box::new(b));
    let sym = |s: &str| Sexp::Symbol(s.to_string());
    assert_eq!(
        to_sexpr(&e),
        cons(sym("local"), cons(sym("$x"), cons(sym("f64"), Sexp::Null)))
    );
    assert_eq!(to_sexpr(&WASMExpr::Number(-3)), Sexp::Number(-3));
    assert_eq!(to_sexpr(&WASMExpr::Call), sym("call"));
    assert_eq!(Type::I32.to_sexpr(), sym("i32"));
}

#[test]
fn bytes_of_a_number() {
    assert_eq!(to_vec(&WASMExpr::Number(-42)).unwrap(), b"-42".to_vec());
    assert_eq!(
        to_vec(&WASMExpr::Module(vec![WASMExpr::Number(7)])).unwrap(),
        b"(module 7)".to_vec()
    );
}

#[test]
fn text_of_each_kind_of_expression() {
    assert_eq!(to_string(&WASMExpr::Number(0)).unwrap(), "0");
    assert_eq!(
        to_string(&WASMExpr::Number(i64::MIN)).unwrap(),
        "-9223372036854775808"
    );
    assert_eq!(to_string(&WASMExpr::Call).unwrap(), "call");
    assert_eq!(to_string(&WASMExpr::Func(vec![])).unwrap(), "(func)");
    assert_eq!(
        to_string(&WASMExpr::Result(Type::F64, Some("$r".to_string()))).unwrap(),
        "(result $r f64)"
    );
    // A name is written as it is, whatever it holds.
    assert_eq!(
        to_string(&WASMExpr::Name("a b(c)".to_string())).unwrap(),
        "a b(c)"
    );
    assert_eq!(
        to_vec(&WASMExpr::Cmd("gr\u{fc}n".to_string())).unwrap(),
        "gr\u{fc}n".as_bytes().to_vec()
    );
    assert_eq!(
        to_string(&WASMExpr::Module(vec![
            WASMExpr::Module(vec![]),
            WASMExpr::Func(vec![WASMExpr::Number(1), WASMExpr::Number(-2)]),
        ]))
        .unwrap(),
        "(module (module) (func 1 -2))"
    );
}
