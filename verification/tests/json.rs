use refresh_service::{Error, Number, Object, Value};

fn text(s: &str) -> Value {
    Value::String(s.to_string())
}

fn number(s: &str) -> Value {
    Value::Number(Number::parse(s).unwrap())
}

#[test]
fn literals_are_read() {
    assert_eq!(Value::from_json("null"), Ok(Value::Null));
    assert_eq!(Value::from_json("true"), Ok(Value::Bool(true)));
    assert_eq!(Value::from_json("false"), Ok(Value::Bool(false)));
    assert_eq!(Value::from_json(" \t\r\n null \n"), Ok(Value::Null));
}

#[test]
fn broken_literals_are_rejected() {
    for json in ["nul", "nulll", "tru", "fals", "falsey", "True", "n", "t", "f", "nuxl"] {
        assert_eq!(Value::from_json(json), Err(Error::Syntax), "{}", json);
    }
}

#[test]
fn numbers_are_kept_as_written() {
    for json in ["0", "-0", "1", "-1", "10", "1234567890123456789012345678901234567890", "0.5",
        "-0.000", "1e5", "1E5", "1e+5", "1e-5", "12.34e56", "0e0", "1.0E+0"]
    {
        let value = Value::from_json(json).unwrap();
        match &value {
            Value::Number(n) => assert_eq!(n.as_str(), json),
            other => panic!("not a number: {:?}", other),
        }
        assert_eq!(value.to_json(), json);
        assert_eq!(Number::parse(json).unwrap().as_str(), json);
    }
}

#[test]
fn broken_numbers_are_rejected() {
    for json in ["", "-", "+1", "01", "-01", "1.", ".5", "1.e5", "1e", "1e+", "1e-", "1.5.5",
        "1e5e5", "0x10", "1 2", "--1", "1-", "Infinity", "NaN", " 1", "1 "]
    {
        assert!(Number::parse(json).is_none(), "{}", json);
    }
    for json in ["-", "+1", "01", "-01", "1.", ".5", "1.e5", "1e", "1e+", "1e-", "1.5.5",
        "1e5e5", "0x10", "1 2", "--1", "1-"]
    {
        assert_eq!(Value::from_json(json), Err(Error::Syntax), "{}", json);
    }
}

#[test]
fn strings_are_read_with_their_escapes() {
    assert_eq!(Value::from_json(r#""""#), Ok(text("")));
    assert_eq!(Value::from_json(r#""abc""#), Ok(text("abc")));
    assert_eq!(Value::from_json(r#""a\"b\\c\/d""#), Ok(text("a\"b\\c/d")));
    assert_eq!(Value::from_json(r#""\b\f\n\r\t""#), Ok(text("\u{8}\u{c}\n\r\t")));
    assert_eq!(Value::from_json(r#""\u0041\u00e9\u00E9\u20ac""#), Ok(text("A\u{e9}\u{e9}\u{20ac}")));
    assert_eq!(Value::from_json(r#""\u0000""#), Ok(text("\u{0}")));
    assert_eq!(Value::from_json(r#""\ud83d\ude00""#), Ok(text("\u{1F600}")));
    assert_eq!(Value::from_json(r#""\uD83D\uDE00""#), Ok(text("\u{1F600}")));
    assert_eq!(Value::from_json(r#""\ud800\udc00\udbff\udfff""#), Ok(text("\u{10000}\u{10FFFF}")));
    assert_eq!(Value::from_json(r#""\ud7ff\ue000\uffff""#), Ok(text("\u{d7ff}\u{e000}\u{ffff}")));
    assert_eq!(Value::from_json("\"\u{e9}\u{1F600}\u{7f}\""), Ok(text("\u{e9}\u{1F600}\u{7f}")));
}

#[test]
fn broken_strings_are_rejected() {
    for json in [
        "\"", "\"abc", "\"a\nb\"", "\"a\tb\"", "\"\u{0}\"", "\"\u{1f}\"", r#""\x""#, r#""\"#,
        r#""\u""#, r#""\u12""#, r#""\u12g4""#, r#""\ud800""#, r#""\ud800x""#, r#""\ud800\n""#,
        r#""\ud800A""#, r#""\ud800\ud800""#, r#""\udc00""#, r#""\udfff\ud800""#,
        r#""\ud83d\ude0""#, r#""\ud83d\""#, "'a'",
    ] {
        assert_eq!(Value::from_json(json), Err(Error::Syntax), "{}", json);
    }
}

#[test]
fn strings_are_written_with_their_escapes() {
    assert_eq!(text("").to_json(), r#""""#);
    assert_eq!(text("a\"b\\c/d").to_json(), r#""a\"b\\c/d""#);
    assert_eq!(text("\u{8}\u{c}\n\r\t").to_json(), r#""\b\f\n\r\t""#);
    assert_eq!(text("\u{0}\u{1}\u{a}\u{b}\u{f}\u{10}\u{1a}\u{1f}").to_json(),
        r#""\u0000\u0001\n\u000b\u000f\u0010\u001a\u001f""#);
    assert_eq!(text(" \u{7f}\u{e9}\u{1F600}").to_json(), "\" \u{7f}\u{e9}\u{1F600}\"");
}

#[test]
fn arrays_are_read_and_written() {
    assert_eq!(Value::from_json("[]"), Ok(Value::Array(vec![])));
    assert_eq!(Value::from_json(" [ \n ] "), Ok(Value::Array(vec![])));
    let value = Value::from_json(r#" [ 1 , "a" ,[ ],[null,[true]] , {} ] "#).unwrap();
    let expected = Value::Array(vec![
        number("1"),
        text("a"),
        Value::Array(vec![]),
        Value::Array(vec![Value::Null, Value::Array(vec![Value::Bool(true)])]),
        Value::Object(Object::new()),
    ]);
    assert_eq!(value, expected);
    assert_eq!(value.to_json(), r#"[1,"a",[],[null,[true]],{}]"#);
}

#[test]
fn broken_arrays_are_rejected() {
    for json in ["[", "]", "[1", "[1,", "[1,]", "[,1]", "[1 2]", "[1,,2]", "[1]]", "[1}", "[\"a\":1]"] {
        assert_eq!(Value::from_json(json), Err(Error::Syntax), "{}", json);
    }
}

#[test]
fn objects_are_read_and_written_in_order() {
    assert_eq!(Value::from_json("{}"), Ok(Value::Object(Object::new())));
    assert_eq!(Value::from_json(" { \t } "), Ok(Value::Object(Object::new())));
    let value = Value::from_json(r#" { "b" : 1 , "a" : { "c" : [ ] } , "" : null } "#).unwrap();
    let mut inner = Object::new();
    inner.insert("c".to_string(), Value::Array(vec![]));
    let mut expected = Object::new();
    expected.insert("b".to_string(), number("1"));
    expected.insert("a".to_string(), Value::Object(inner));
    expected.insert("".to_string(), Value::Null);
    assert_eq!(value, Value::Object(expected));
    assert_eq!(value.to_json(), r#"{"b":1,"a":{"c":[]},"":null}"#);
}

#[test]
fn broken_objects_are_rejected() {
    for json in ["{", "}", "{\"a\"}", "{\"a\":}", "{\"a\":1", "{\"a\":1,}", "{,\"a\":1}",
        "{\"a\" 1}", "{a:1}", "{1:1}", "{\"a\":1 \"b\":2}", "{\"a\":1}}", "{\"a\":1]"]
    {
        assert_eq!(Value::from_json(json), Err(Error::Syntax), "{}", json);
    }
}

#[test]
fn a_name_twice_is_rejected() {
    assert_eq!(Value::from_json(r#"{"a":1,"a":2}"#), Err(Error::Syntax));
    assert_eq!(Value::from_json(r#"{"a":1,"b":2,"a":3}"#), Err(Error::Syntax));
    assert_eq!(Value::from_json(r#"[{"a":{"b":1,"b":1}}]"#), Err(Error::Syntax));
    assert!(Value::from_json(r#"{"a":{"a":1},"b":{"a":1}}"#).is_ok());
}

#[test]
fn text_around_a_value_is_rejected() {
    for json in ["null null", "1,", "{} []", "\"a\"b", "[] x", "x", "\u{a0}1", "//\n1"] {
        assert_eq!(Value::from_json(json), Err(Error::Syntax), "{}", json);
    }
}

#[test]
fn what_is_written_is_read_back() {
    let mut inner = Object::new();
    inner.insert("k\u{1}\"".to_string(), text("\\u0041 \u{1F600} \u{d7ff}"));
    inner.insert("n".to_string(), number("-1.25E-10"));
    let mut outer = Object::new();
    outer.insert("inner".to_string(), Value::Object(inner));
    outer.insert("list".to_string(), Value::Array(vec![Value::Null, Value::Bool(true), number("0")]));
    let values = vec![
        Value::Null,
        Value::Bool(false),
        number("-0"),
        text("\u{0}\u{1f} \"\\/"),
        Value::Array(vec![Value::Array(vec![Value::Array(vec![])])]),
        Value::Object(outer),
    ];
    for value in values {
        let json = value.to_json();
        assert_eq!(Value::from_json(&json), Ok(value.clone()));
        assert_eq!(value.clone(), value);
    }
}

#[test]
fn insert_replaces_in_place_and_appends() {
    let mut object = Object::new();
    assert!(object.is_empty());
    assert_eq!(object.insert("a".to_string(), number("1")), None);
    assert_eq!(object.insert("b".to_string(), number("2")), None);
    assert_eq!(object.insert("c".to_string(), number("3")), None);
    assert_eq!(object.insert("b".to_string(), text("two")), Some(number("2")));
    assert_eq!(object.len(), 3);
    assert!(!object.is_empty());
    assert_eq!(object.entry(0), Some((&"a".to_string(), &number("1"))));
    assert_eq!(object.entry(1), Some((&"b".to_string(), &text("two"))));
    assert_eq!(object.entry(2), Some((&"c".to_string(), &number("3"))));
    assert_eq!(object.entry(3), None);
    assert_eq!(object.get("b"), Some(&text("two")));
    assert_eq!(object.get("d"), None);
    assert!(object.contains_key("c"));
    assert!(!object.contains_key("C"));
}

#[test]
fn remove_takes_one_member_out() {
    let mut object = Object::new();
    object.insert("a".to_string(), number("1"));
    object.insert("b".to_string(), number("2"));
    object.insert("c".to_string(), number("3"));
    assert_eq!(object.remove("x"), None);
    assert_eq!(object.len(), 3);
    assert_eq!(object.remove("b"), Some(number("2")));
    assert_eq!(object.len(), 2);
    assert_eq!(object.entry(0).unwrap().0, "a");
    assert_eq!(object.entry(1).unwrap().0, "c");
    assert_eq!(object.remove("b"), None);
    assert_eq!(Value::Object(object).to_json(), r#"{"a":1,"c":3}"#);
}

#[test]
fn objects_are_equal_whatever_the_order_of_their_members() {
    let mut first = Object::new();
    first.insert("a".to_string(), number("1"));
    first.insert("b".to_string(), Value::Array(vec![text("x"), Value::Null]));
    let mut second = Object::new();
    second.insert("b".to_string(), Value::Array(vec![text("x"), Value::Null]));
    second.insert("a".to_string(), number("1"));
    assert_eq!(first, second);
    assert_eq!(second, first);
    let mut outer_first = Object::new();
    outer_first.insert("o".to_string(), Value::Object(first.clone()));
    let mut outer_second = Object::new();
    outer_second.insert("o".to_string(), Value::Object(second.clone()));
    assert_eq!(Value::Object(outer_first), Value::Object(outer_second));
    assert_eq!(Value::Object(first.clone()).to_json(), r#"{"a":1,"b":["x",null]}"#);
    assert_eq!(Value::Object(second.clone()).to_json(), r#"{"b":["x",null],"a":1}"#);
}

#[test]
fn different_values_are_not_equal() {
    let mut first = Object::new();
    first.insert("a".to_string(), number("1"));
    let mut second = Object::new();
    second.insert("a".to_string(), number("2"));
    let mut third = Object::new();
    third.insert("a".to_string(), number("1"));
    third.insert("b".to_string(), number("1"));
    let mut fourth = Object::new();
    fourth.insert("b".to_string(), number("1"));
    assert_ne!(first, second);
    assert_ne!(first, third);
    assert_ne!(third, first);
    assert_ne!(first, fourth);
    assert_ne!(first, Object::new());
    assert_ne!(Object::new(), first);
    assert_eq!(Object::new(), Object::new());
    assert_ne!(number("1"), number("1.0"));
    assert_ne!(number("1"), text("1"));
    assert_ne!(Value::Null, Value::Bool(false));
    assert_ne!(Value::Array(vec![]), Value::Object(Object::new()));
    assert_ne!(Value::Array(vec![Value::Null]), Value::Array(vec![]));
    assert_ne!(Value::Array(vec![number("1"), number("2")]), Value::Array(vec![number("2"), number("1")]));
    assert_eq!(Value::Array(vec![number("1"), text("a")]), Value::Array(vec![number("1"), text("a")]));
    assert_eq!(Value::Bool(true), Value::Bool(true));
    assert_ne!(Value::Bool(true), Value::Bool(false));
    assert_eq!(text("a"), text("a"));
    assert_ne!(text("a"), text("b"));
}
