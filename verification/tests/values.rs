use jim::clock::Clock;
use jim::error::RuntimeError;
use jim::json::Json;
use jim::text::{chars_of, compare_text, read_number, string_of, Order};
use jim::value::{find_property, put_property, Duration, TimeOfDay, Value};

fn object(props: Vec<(&str, Value)>) -> Value {
    Value::Object(props.into_iter().map(|(k, v)| (k.to_string(), v)).collect())
}

#[test]
fn text_of_each_kind() {
    assert_eq!(Value::Str("a b".to_string()).to_text(), "a b");
    assert_eq!(Value::Path("a/b".to_string()).to_text(), "a/b");
    assert_eq!(Value::Duration(Duration::from_secs(1)).to_text(), "1s");
    assert_eq!(Value::Duration(Duration::from_secs(0)).to_text(), "0ns");
    assert_eq!(
        Value::Duration(Duration::new(1, 500_000_000).unwrap()).to_text(),
        "1.5s"
    );
    assert_eq!(Value::Time(TimeOfDay::Sunrise).to_text(), "sunrise");
    assert_eq!(Value::Time(TimeOfDay::Sunset).to_text(), "sunset");
    assert_eq!(Value::Time(TimeOfDay::HM(22, 5)).to_text(), "22:5");
    assert_eq!(Value::Float(1.5f64.to_string()).to_text(), "1.5");
    assert_eq!(Value::Float(7.0f64.to_string()).to_text(), "7");
    assert_eq!(Value::Integer(-12).to_text(), "-12");
    assert_eq!(Value::Integer(0).to_text(), "0");
    assert_eq!(Value::Integer(i64::MIN).to_text(), i64::MIN.to_string());
    assert_eq!(Value::Integer(i64::MAX).to_text(), i64::MAX.to_string());
    assert_eq!(Value::Bool(true).to_text(), "true");
    assert_eq!(Value::Bool(false).to_text(), "false");
    assert_eq!(Value::Jump(17).to_text(), "jmp: 17");
    assert_eq!(object(vec![]).to_text(), "{}");
    assert_eq!(
        object(vec![
            ("a", Value::Integer(1)),
            ("b", object(vec![("c", Value::Str("d".to_string()))])),
        ])
        .to_text(),
        "{a: 1, b: {c: d}}"
    );
}

#[test]
fn durations() {
    assert_eq!(Duration::new(1, 1_000_000_000), None);
    let d = Duration::new(3, 999_999_999).unwrap();
    assert_eq!(d.as_secs(), 3);
    assert_eq!(d.subsec_nanos(), 999_999_999);
    assert!(d.same(&d));
    assert!(!d.same(&Duration::from_secs(3)));
    assert_eq!(Duration::from_secs(u64::MAX).as_secs(), u64::MAX);
}

#[test]
fn payload_of_each_kind() {
    assert_eq!(
        Value::Str("on".to_string()).to_payload(),
        Ok(b"on".to_vec())
    );
    assert_eq!(
        Value::Path("a/b".to_string()).to_payload(),
        Ok(b"a/b".to_vec())
    );
    assert_eq!(Value::Integer(-7).to_payload(), Ok(b"-7".to_vec()));
    assert_eq!(
        Value::Float(2.5f64.to_string()).to_payload(),
        Ok(b"2.5".to_vec())
    );
    assert_eq!(
        object(vec![
            ("answer", Value::Integer(42)),
            ("half", Value::Float(0.5f64.to_string())),
            ("inner", object(vec![("on", Value::Bool(true))])),
            ("name", Value::Str("x".to_string())),
            ("whole", Value::Float(7.0f64.to_string())),
        ])
        .to_payload(),
        Ok(br#"{"answer":42,"half":0.5,"inner":{"on":true},"name":"x","whole":7.0}"#.to_vec())
    );
    let refused = Err(RuntimeError::NotTransmissible);
    assert_eq!(Value::Bool(true).to_payload(), refused);
    assert_eq!(Value::Jump(1).to_payload(), refused);
    assert_eq!(Value::Time(TimeOfDay::Sunset).to_payload(), refused);
    assert_eq!(Value::Duration(Duration::from_secs(1)).to_payload(), refused);
    // Inside an object every kind of value has a document.
    assert_eq!(
        object(vec![("d", Value::Duration(Duration::from_secs(1)))]).to_payload(),
        Ok(br#"{"d":{"secs":1,"nanos":0}}"#.to_vec())
    );
    assert_eq!(
        object(vec![
            ("at", Value::Time(TimeOfDay::HM(22, 5))),
            ("d", Value::Duration(Duration::new(u64::MAX, 999_999_999).unwrap())),
            ("j", Value::Jump(1)),
            ("p", Value::Path("a/b".to_string())),
            ("up", Value::Time(TimeOfDay::Sunrise)),
        ])
        .to_payload(),
        Ok(
            br#"{"at":{"HM":[22,5]},"d":{"secs":18446744073709551615,"nanos":999999999},"j":1,"p":"a/b","up":"Sunrise"}"#
                .to_vec()
        )
    );
    assert_eq!(
        object(vec![("down", Value::Time(TimeOfDay::Sunset))]).to_payload(),
        Ok(br#"{"down":"Sunset"}"#.to_vec())
    );
}

#[test]
fn a_span_in_an_object_comes_back_as_an_object() {
    let sent = object(vec![("d", Value::Duration(Duration::from_secs(90)))]);
    let payload = sent.to_payload().unwrap();
    assert_eq!(
        Value::from_payload(&payload),
        Ok(object(vec![(
            "d",
            object(vec![("nanos", Value::Integer(0)), ("secs", Value::Integer(90))])
        )]))
    );
}

#[test]
fn value_of_each_payload() {
    assert_eq!(Value::from_payload(b"true"), Ok(Value::Bool(true)));
    assert_eq!(Value::from_payload(b"false"), Ok(Value::Bool(false)));
    assert_eq!(Value::from_payload(b"42"), Ok(Value::Integer(42)));
    assert_eq!(Value::from_payload(b"-42"), Ok(Value::Integer(-42)));
    assert_eq!(
        Value::from_payload(b"9223372036854775807"),
        Ok(Value::Integer(i64::MAX))
    );
    assert_eq!(
        Value::from_payload(b"9223372036854775808"),
        Err(RuntimeError::TypeError)
    );
    assert_eq!(
        Value::from_payload(b"1.5"),
        Ok(Value::Float(1.5f64.to_string()))
    );
    assert_eq!(
        Value::from_payload(b"7.0"),
        Ok(Value::Float(7.0f64.to_string()))
    );
    assert_eq!(
        Value::from_payload(b"1e3"),
        Ok(Value::Float(1000.0f64.to_string()))
    );
    assert_eq!(
        Value::from_payload(b"\"on\""),
        Ok(Value::Str("on".to_string()))
    );
    assert_eq!(
        Value::from_payload(br#"{"b": {"c": 1.5}, "a": "x"}"#),
        Ok(object(vec![
            ("a", Value::Str("x".to_string())),
            ("b", object(vec![("c", Value::Float(1.5f64.to_string()))])),
        ]))
    );
    // Neither an array nor null is a value.
    assert_eq!(Value::from_payload(b"[1, 2]"), Err(RuntimeError::TypeError));
    assert_eq!(Value::from_payload(b"null"), Err(RuntimeError::TypeError));
    assert_eq!(
        Value::from_payload(br#"{"a": [1]}"#),
        Err(RuntimeError::TypeError)
    );
    assert_eq!(
        Value::from_payload(br#"{"a": null}"#),
        Err(RuntimeError::TypeError)
    );
    // What is no JSON is text.
    assert_eq!(Value::from_payload(b"on"), Ok(Value::Str("on".to_string())));
    assert_eq!(Value::from_payload(b""), Ok(Value::Str("".to_string())));
    assert_eq!(
        Value::from_payload("gr\u{fc}n".as_bytes()),
        Ok(Value::Str("gr\u{fc}n".to_string()))
    );
    // What is no text either is refused.
    assert_eq!(
        Value::from_payload(&[0xff, 0xfe]),
        Err(RuntimeError::InvalidPayload)
    );
}

#[test]
fn text_of_a_value() {
    assert_eq!(Value::Str("a".to_string()).into_text(), Ok("a".to_string()));
    assert_eq!(Value::Path("p".to_string()).into_text(), Ok("p".to_string()));
    assert_eq!(Value::Integer(1).into_text(), Err(RuntimeError::TypeError));
}

#[test]
fn an_object_comes_back_from_its_payload() {
    let v = object(vec![
        ("a", Value::Integer(-1)),
        ("b", Value::Float(0.25f64.to_string())),
        ("c", Value::Bool(false)),
        ("d", Value::Str("text with \"quotes\"".to_string())),
        ("e", object(vec![("f", object(vec![]))])),
    ]);
    let payload = v.to_payload().unwrap();
    assert_eq!(Value::from_payload(&payload), Ok(v));
}

#[test]
fn documents_and_values() {
    let v = object(vec![
        ("a", Value::Integer(1)),
        ("p", Value::Path("x/y".to_string())),
    ]);
    let doc = Json::from_value(&v);
    assert_eq!(
        doc,
        Json::Object(vec![
            ("a".to_string(), Json::Integer(1)),
            ("p".to_string(), Json::Str("x/y".to_string())),
        ])
    );
    // A path comes back as text.
    assert_eq!(
        doc.to_value(),
        Some(object(vec![
            ("a", Value::Integer(1)),
            ("p", Value::Str("x/y".to_string())),
        ]))
    );
    assert_eq!(Json::from_value(&Value::Jump(1)), Json::Integer(1));
    assert_eq!(
        Json::from_value(&Value::Duration(Duration::new(2, 5).unwrap())),
        Json::Object(vec![
            ("secs".to_string(), Json::Integer(2)),
            ("nanos".to_string(), Json::Integer(5)),
        ])
    );
    assert_eq!(
        Json::from_value(&Value::Duration(Duration::from_secs(u64::MAX))),
        Json::Object(vec![
            ("secs".to_string(), Json::Unsigned(u64::MAX)),
            ("nanos".to_string(), Json::Integer(0)),
        ])
    );
    assert_eq!(
        Json::from_value(&Value::Time(TimeOfDay::HM(1, 2))),
        Json::Object(vec![(
            "HM".to_string(),
            Json::Array(vec![Json::Integer(1), Json::Integer(2)])
        )])
    );
    assert_eq!(
        Json::from_value(&Value::Time(TimeOfDay::Sunset)),
        Json::Str("Sunset".to_string())
    );
    assert_eq!(Json::from_value(&Value::Bool(true)), Json::Bool(true));
    // A document keeps its members in the order in which they stand.
    assert_eq!(
        Json::read(br#"{"b":1,"a":2,"b":3}"#),
        Some(Json::Object(vec![
            ("b".to_string(), Json::Integer(3)),
            ("a".to_string(), Json::Integer(2)),
        ]))
    );
    assert_eq!(
        Json::Object(vec![
            ("b".to_string(), Json::Integer(1)),
            ("a".to_string(), Json::Integer(2)),
        ])
        .write(),
        Some(br#"{"b":1,"a":2}"#.to_vec())
    );
    assert_eq!(Json::Null.to_value(), None);
    assert_eq!(Json::Array(vec![]).to_value(), None);
    assert_eq!(Json::Unsigned(5).to_value(), Some(Value::Integer(5)));
    assert_eq!(Json::Unsigned(u64::MAX).to_value(), None);
    // Members are put in order, and a later one replaces an earlier one.
    assert_eq!(
        Json::Object(vec![
            ("b".to_string(), Json::Integer(1)),
            ("a".to_string(), Json::Integer(2)),
            ("b".to_string(), Json::Integer(3)),
        ])
        .to_value(),
        Some(object(vec![
            ("a", Value::Integer(2)),
            ("b", Value::Integer(3)),
        ]))
    );
    assert_eq!(
        Json::read(b"[1, null, 18446744073709551615, -0.0]"),
        Some(Json::Array(vec![
            Json::Integer(1),
            Json::Null,
            Json::Unsigned(u64::MAX),
            Json::Float("-0".to_string()),
        ]))
    );
    assert_eq!(Json::read(b"{"), None);
    assert_eq!(
        Json::Array(vec![
            Json::Null,
            Json::Unsigned(u64::MAX),
            Json::Float("inf".to_string()),
            Json::Float("0.1".to_string()),
        ])
        .write(),
        Some(b"[null,18446744073709551615,null,0.1]".to_vec())
    );
}

#[test]
fn properties_are_kept_in_order() {
    let mut props: Vec<(String, Value)> = Vec::new();
    put_property(&mut props, "m".to_string(), Value::Integer(1));
    put_property(&mut props, "z".to_string(), Value::Integer(2));
    put_property(&mut props, "a".to_string(), Value::Integer(3));
    put_property(&mut props, "m".to_string(), Value::Integer(4));
    put_property(&mut props, "ma".to_string(), Value::Integer(5));
    let keys: Vec<&str> = props.iter().map(|p| p.0.as_str()).collect();
    assert_eq!(keys, vec!["a", "m", "ma", "z"]);
    assert_eq!(find_property(&props, "m"), Some(1));
    assert_eq!(props[1].1, Value::Integer(4));
    assert_eq!(find_property(&props, "x"), None);
}

#[test]
fn texts_are_ordered_by_their_bytes() {
    assert_eq!(compare_text("a", "b"), Order::Before);
    assert_eq!(compare_text("b", "a"), Order::After);
    assert_eq!(compare_text("a", "a"), Order::Same);
    assert_eq!(compare_text("a", "ab"), Order::Before);
    assert_eq!(compare_text("", ""), Order::Same);
    assert_eq!(compare_text("Z", "a"), Order::Before);
    assert_eq!(compare_text("z", "\u{e9}"), Order::Before);
    assert_eq!(compare_text("\u{10000}", "\u{ffff}"), Order::After);
}

#[test]
fn numbers_are_read_as_the_standard_library_reads_them() {
    let read = |s: &str, max: u64| {
        let chars = chars_of(s);
        read_number(&chars, 0, chars.len(), max)
    };
    assert_eq!(read("0", 9), Some(0));
    assert_eq!(read("007", 9), Some(7));
    assert_eq!(read("+5", 9), Some(5));
    assert_eq!(read("10", 9), None);
    assert_eq!(read("", 9), None);
    assert_eq!(read("+", 9), None);
    assert_eq!(read("-1", 9), None);
    assert_eq!(read("1a", 99), None);
    assert_eq!(read("18446744073709551615", u64::MAX), Some(u64::MAX));
    assert_eq!(read("18446744073709551616", u64::MAX), None);
    assert_eq!(string_of(&chars_of("gr\u{fc}n")), "gr\u{fc}n");
}

#[test]
fn the_next_time_is_today_or_tomorrow() {
    let wait = |target: Option<i64>, now: i64| Clock { target, now }.wait();
    assert_eq!(wait(Some(1000), 400), Ok(Duration::from_secs(600)));
    assert_eq!(wait(Some(400), 1000), Ok(Duration::from_secs(86_400 - 600)));
    assert_eq!(wait(Some(1000), 1000), Ok(Duration::from_secs(86_400)));
    assert_eq!(wait(Some(0), 86_399), Ok(Duration::from_secs(1)));
    assert_eq!(wait(Some(0), 86_400), Err(RuntimeError::UnknownTime));
    assert_eq!(wait(None, 0), Err(RuntimeError::UnknownTime));
    assert_eq!(
        wait(Some(i64::MAX), i64::MIN),
        Ok(Duration::from_secs(u64::MAX))
    );
    assert_eq!(
        wait(Some(i64::MIN), i64::MAX),
        Err(RuntimeError::UnknownTime)
    );
    let reading = Clock::read(12, 0);
    assert!(reading.now > 1_600_000_000);
    assert_eq!(Clock::read(24, 0).target, None);
    assert_eq!(Clock::read(0, 60).target, None);
}
