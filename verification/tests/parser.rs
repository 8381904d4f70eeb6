use jim::parser::parse;

#[test]
fn test_ident() {
    let expr = parse("print a;").unwrap();
    assert_eq!(expr.to_text(), r#"[print a;]"#);

    let expr = parse("print _a;").unwrap();
    assert_eq!(expr.to_text(), r#"[print _a;]"#);

    let expr = parse("print _a; print b0;").unwrap();
    assert_eq!(expr.to_text(), r#"[print _a; print b0;]"#);
}
#[test]
fn test_string() {
    let expr = parse(r#"print "string";"#).unwrap();
    assert_eq!(expr.to_text(), r#"[print "string";]"#);

    let expr = parse(r#"print "string with spaces";"#).unwrap();
    assert_eq!(expr.to_text(), r#"[print "string with spaces";]"#);
}
#[test]
fn parser_test_bool() {
    let expr = parse(r#"print true;"#).unwrap();
    assert_eq!(expr.to_text(), r#"[print true;]"#);

    let expr = parse(r#"print false;"#).unwrap();
    assert_eq!(expr.to_text(), r#"[print false;]"#);
}
#[test]
fn test_int() {
    let expr = parse(r#"print 42;"#).unwrap();
    assert_eq!(expr.to_text(), r#"[print 42;]"#);

    let expr = parse(r#"print 0;"#).unwrap();
    assert_eq!(expr.to_text(), r#"[print 0;]"#);
}

#[test]
fn parser_test_float() {
    let expr = parse(r#"print 42.0;"#).unwrap();
    assert_eq!(expr.to_text(), r#"[print 42.0;]"#);

    let expr = parse(r#"print 0.0;"#).unwrap();
    assert_eq!(expr.to_text(), r#"[print 0.0;]"#);

    let expr = parse(r#"print 0.1;"#).unwrap();
    assert_eq!(expr.to_text(), r#"[print 0.1;]"#);
}

#[test]
fn test_object() {
    let expr = parse(r#"print {value: 42.0};"#).unwrap();
    assert_eq!(expr.to_text(), r#"[print {value: 42.0};]"#);

    let expr = parse(r#"print {answer: 42.0, question: "how many roads?"};"#).unwrap();
    assert_eq!(expr.to_text(), r#"[print {answer: 42.0, question: "how many roads?"};]"#);
}

#[test]
fn test_duration() {
    let expr = parse(r#"print 5h;"#).unwrap();
    assert_eq!(expr.to_text(), r#"[print 5h;]"#);

    let expr = parse(r#"print 1h;print  2m;print  3s;"#).unwrap();
    assert_eq!(expr.to_text(), r#"[print 1h; print 2m; print 3s;]"#);
}
#[test]
fn test_time() {
    let expr = parse(r#"print 10:05PM;"#).unwrap();
    assert_eq!(expr.to_text(), r#"[print 10:05PM;]"#);

    let expr = parse(r#"print #sunrise; print #sunset; print 12:25AM;"#).unwrap();
    assert_eq!(expr.to_text(), r#"[print #sunrise; print #sunset; print 12:25AM;]"#);
}
#[test]
fn parser_test_set() {
    let expr = parse(r#"set [path] 0;"#).unwrap();
    assert_eq!(expr.to_text(), r#"[set path 0;]"#);
}
#[test]
fn parser_test_let() {
    let expr = parse(r#"let x = 0;"#).unwrap();
    assert_eq!(expr.to_text(), r#"[let x = 0;]"#);
}
#[test]
fn parser_test_when() {
    let expr = parse(r#"when <path> is 0 print 5;"#).unwrap();
    assert_eq!(expr.to_text(), r#"[when (<path> is 0) print 5;]"#);
}
#[test]
fn parser_test_as() {
    let expr = parse(r#"print x as y in y;"#).unwrap();
    assert_eq!(expr.to_text(), r#"[print x as y in y;]"#);
    let expr = parse(r#"print x as a in y as b in b + c;"#).unwrap();
    assert_eq!(expr.to_text(), r#"[print x as a in y as b in (b + c);]"#);
    let expr = parse(r#"print 1 + 2 * 3 as a in a / 4;"#).unwrap();
    assert_eq!(expr.to_text(), r#"[print (1 + (2 * 3)) as a in (a / 4);]"#);
}
#[test]
fn parser_test_wait() {
    let expr = parse(r#"wait 1s print 0;"#).unwrap();
    assert_eq!(expr.to_text(), r#"[wait 1s print 0;]"#);
}
#[test]
fn parser_test_at() {
    let expr = parse(r#"at x print 0;"#).unwrap();
    assert_eq!(expr.to_text(), r#"[at x print 0;]"#);
}
#[test]
fn parser_test_print() {
    let expr = parse(r#"print 0;"#).unwrap();
    assert_eq!(expr.to_text(), r#"[print 0;]"#);
}
#[test]
fn parser_test_scene() {
    let expr = parse(r#"scene a { print 0;};"#).unwrap();
    assert_eq!(expr.to_text(), r#"[scene a [print 0;];]"#);
}
#[test]
fn test_start() {
    let expr = parse(r#"start a;"#).unwrap();
    assert_eq!(expr.to_text(), r#"[start a;]"#);
}
#[test]
fn test_stop() {
    let expr = parse(r#"stop a;"#).unwrap();
    assert_eq!(expr.to_text(), r#"[stop a;]"#);
}
#[test]
fn test_binary_expr() {
    let expr = parse("").unwrap();
    assert_eq!(expr.to_text(), r#"[]"#);

    let expr = parse("print 22 * 44 + 66;").unwrap();
    assert_eq!(expr.to_text(), r#"[print ((22 * 44) + 66);]"#);

    let expr = parse("print 22 * 44 + 66;").unwrap();
    assert_eq!(expr.to_text(), r#"[print ((22 * 44) + 66);]"#);

    let expr = parse("print 22 * 44 + 66;print 13*3;").unwrap();
    assert_eq!(expr.to_text(), r#"[print ((22 * 44) + 66); print (13 * 3);]"#);

    let expr = parse("print 22 * 44 + 66; print 13*3;").unwrap();
    assert_eq!(expr.to_text(), r#"[print ((22 * 44) + 66); print (13 * 3);]"#);
}

#[test]
fn test_fail() {
    assert!(parse("@").is_err());
}
