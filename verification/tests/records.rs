use refresh_service::{Error, Number, Object, OneOrMany, RefreshService, Url, Value};

const ID: &str = "https://example.edu/refresh/3732";

fn url() -> Url {
    Url::parse(ID).unwrap()
}

fn text(s: &str) -> Value {
    Value::String(s.to_string())
}

fn tags(items: &[&str]) -> OneOrMany {
    OneOrMany::many(items.iter().map(|s| s.to_string()).collect()).unwrap()
}

#[test]
fn test_from_json() {
    let json = "{\n  \"id\": \"https://example.edu/refresh/3732\",\n  \"type\": \"ManualRefreshService2018\"\n}\n";
    let service: RefreshService = RefreshService::from_json(json).unwrap();
    assert_eq!(service.id.as_str(), "https://example.edu/refresh/3732");
    assert_eq!(service.types.as_slice(), ["ManualRefreshService2018"]);
}

#[test]
fn from_json_reads_a_compact_object() {
    let json = r#"{"id":"https://example.edu/refresh/3732","type":"ManualRefreshService2018"}"#;
    let service = RefreshService::from_json(json).unwrap();
    assert_eq!(service.id.as_str(), "https://example.edu/refresh/3732");
    assert_eq!(service.types.len(), 1);
    assert!(service.types.is_one());
    assert_eq!(service.types.as_slice(), ["ManualRefreshService2018"]);
    assert!(service.properties.is_empty());
}

#[test]
fn new_has_no_properties() {
    let service = RefreshService::new(url(), OneOrMany::one("T".to_string()));
    assert_eq!(service.id.as_str(), ID);
    assert_eq!(service.types.as_slice(), ["T"]);
    assert!(service.properties.is_empty());
    assert_eq!(service.properties.len(), 0);
}

#[test]
fn with_properties_keeps_them_as_given() {
    let mut properties = Object::new();
    properties.insert("note".to_string(), text("x"));
    properties.insert("id".to_string(), text("kept"));
    let service = RefreshService::with_properties(url(), tags(&["A", "B"]), properties.clone());
    assert_eq!(service.properties, properties);
    assert_eq!(service.properties.get("id"), Some(&text("kept")));
    assert_eq!(service.types.as_slice(), ["A", "B"]);
}

#[test]
fn several_types_are_written_as_an_array() {
    let service = RefreshService::new(url(), tags(&["A", "B"]));
    assert_eq!(
        service.to_json().unwrap(),
        r#"{"id":"https://example.edu/refresh/3732","type":["A","B"]}"#
    );
}

#[test]
fn one_type_is_written_as_a_bare_string() {
    let service = RefreshService::new(url(), OneOrMany::one("A".to_string()));
    assert_eq!(
        service.to_json().unwrap(),
        r#"{"id":"https://example.edu/refresh/3732","type":"A"}"#
    );
    let same = RefreshService::new(url(), tags(&["A"]));
    assert_eq!(same.to_json().unwrap(), service.to_json().unwrap());
    assert_eq!(same, service);
}

#[test]
fn three_types_keep_their_order() {
    let service = RefreshService::new(url(), tags(&["C", "A", "B"]));
    match service.to_value().unwrap() {
        Value::Object(object) => match object.get("type") {
            Some(Value::Array(items)) => {
                assert_eq!(items.len(), 3);
                assert_eq!(items[0], text("C"));
                assert_eq!(items[1], text("A"));
                assert_eq!(items[2], text("B"));
            }
            other => panic!("not an array: {:?}", other),
        },
        other => panic!("not an object: {:?}", other),
    }
}

#[test]
fn properties_are_written_beside_the_fixed_fields() {
    let mut properties = Object::new();
    properties.insert("note".to_string(), text("x"));
    let service = RefreshService::with_properties(url(), OneOrMany::one("T".to_string()), properties);
    assert_eq!(
        service.to_json().unwrap(),
        r#"{"id":"https://example.edu/refresh/3732","type":"T","note":"x"}"#
    );
}

#[test]
fn every_property_is_a_member_of_the_object() {
    let mut nested = Object::new();
    nested.insert("deep".to_string(), Value::Array(vec![Value::Null, Value::Bool(true)]));
    let mut properties = Object::new();
    properties.insert("note".to_string(), text("x"));
    properties.insert("count".to_string(), Value::Number(Number::parse("-12.50e+3").unwrap()));
    properties.insert("nested".to_string(), Value::Object(nested));
    let service = RefreshService::with_properties(url(), tags(&["A", "B"]), properties.clone());
    let object = match service.to_value().unwrap() {
        Value::Object(object) => object,
        other => panic!("not an object: {:?}", other),
    };
    assert_eq!(object.len(), 5);
    assert_eq!(object.get("id"), Some(&text(ID)));
    for i in 0..properties.len() {
        let (key, value) = properties.entry(i).unwrap();
        assert_eq!(object.get(key), Some(value));
    }
    assert!(object.get("properties").is_none());
}

#[test]
fn writing_and_reading_gives_the_record_back() {
    let mut nested = Object::new();
    nested.insert("a\"b\\c".to_string(), text("line\nbreak\ttab\u{1}\u{1f}\u{7f}\u{e9}\u{1F600}"));
    nested.insert("".to_string(), Value::Array(vec![]));
    let mut properties = Object::new();
    properties.insert("zeta".to_string(), Value::Null);
    properties.insert("alpha".to_string(), Value::Bool(false));
    properties.insert("number".to_string(), Value::Number(Number::parse("0.1E-7").unwrap()));
    properties.insert("nested".to_string(), Value::Object(nested));
    properties.insert(
        "list".to_string(),
        Value::Array(vec![
            Value::Number(Number::parse("1").unwrap()),
            text("two"),
            Value::Array(vec![Value::Object(Object::new())]),
        ]),
    );
    let records = vec![
        RefreshService::new(url(), OneOrMany::one("T".to_string())),
        RefreshService::new(url(), tags(&["A", "B", "C"])),
        RefreshService::new(Url::parse("did:example:123#key-1").unwrap(), tags(&["", "x y"])),
        RefreshService::with_properties(url(), tags(&["A", "B"]), properties),
    ];
    for record in records {
        let json = record.to_json().unwrap();
        let back = RefreshService::from_json(&json).unwrap();
        assert_eq!(back, record);
        assert_eq!(back.to_json().unwrap(), json);
        let value = record.to_value().unwrap();
        assert_eq!(RefreshService::from_value(&value).unwrap(), record);
    }
}

#[test]
fn reading_takes_the_fixed_fields_out_of_the_properties() {
    let json = r#" { "note" : "x", "type" : [ "A" , "B" ], "n": [1, {"id": 2}], "id" : "urn:x" } "#;
    let service = RefreshService::from_json(json).unwrap();
    assert_eq!(service.id.as_str(), "urn:x");
    assert_eq!(service.types.as_slice(), ["A", "B"]);
    assert_eq!(service.properties.len(), 2);
    assert!(!service.properties.contains_key("id"));
    assert!(!service.properties.contains_key("type"));
    assert_eq!(service.properties.get("note"), Some(&text("x")));
    assert_eq!(service.properties.entry(0).unwrap().0, "note");
    assert_eq!(service.properties.entry(1).unwrap().0, "n");
    assert_eq!(
        service.to_json().unwrap(),
        r#"{"id":"urn:x","type":["A","B"],"note":"x","n":[1,{"id":2}]}"#
    );
}

#[test]
fn an_array_of_one_type_is_one_type() {
    let service = RefreshService::from_json(r#"{"id":"urn:x","type":["A"]}"#).unwrap();
    assert_eq!(service.types.as_slice(), ["A"]);
    assert_eq!(service.to_json().unwrap(), r#"{"id":"urn:x","type":"A"}"#);
}

#[test]
fn missing_id_is_rejected() {
    assert_eq!(RefreshService::from_json(r#"{"type":"T"}"#), Err(Error::MissingId));
    assert_eq!(RefreshService::from_json("{}"), Err(Error::MissingId));
}

#[test]
fn missing_type_is_rejected() {
    assert_eq!(RefreshService::from_json(r#"{"id":"urn:x"}"#), Err(Error::MissingType));
    assert_eq!(
        RefreshService::from_json(r#"{"id":"urn:x","types":"T"}"#),
        Err(Error::MissingType)
    );
}

#[test]
fn empty_type_is_rejected() {
    assert_eq!(RefreshService::from_json(r#"{"id":"urn:x","type":[]}"#), Err(Error::EmptyType));
    assert_eq!(RefreshService::from_json(r#"{"id":"urn:x","type":[ ]}"#), Err(Error::EmptyType));
}

#[test]
fn wrong_kinds_of_value_are_rejected() {
    assert_eq!(RefreshService::from_json(r#"{"id":7,"type":"T"}"#), Err(Error::InvalidId));
    assert_eq!(RefreshService::from_json(r#"{"id":null,"type":"T"}"#), Err(Error::InvalidId));
    assert_eq!(RefreshService::from_json(r#"{"id":"urn:x","type":7}"#), Err(Error::InvalidType));
    assert_eq!(
        RefreshService::from_json(r#"{"id":"urn:x","type":["A",7]}"#),
        Err(Error::InvalidType)
    );
    assert_eq!(
        RefreshService::from_json(r#"{"id":"urn:x","type":{"a":"b"}}"#),
        Err(Error::InvalidType)
    );
    assert_eq!(RefreshService::from_json(r#"["id","type"]"#), Err(Error::NotAnObject));
    assert_eq!(RefreshService::from_json("\"id\""), Err(Error::NotAnObject));
}

#[test]
fn an_id_that_is_no_url_is_rejected() {
    assert_eq!(
        RefreshService::from_json(r#"{"id":"not a url","type":"T"}"#),
        Err(Error::InvalidUrl)
    );
    assert_eq!(RefreshService::from_json(r#"{"id":"","type":"T"}"#), Err(Error::InvalidUrl));
    assert_eq!(
        RefreshService::from_json(r#"{"id":"/refresh/3732","type":"T"}"#),
        Err(Error::InvalidUrl)
    );
}

#[test]
fn the_id_is_judged_before_the_type() {
    assert_eq!(RefreshService::from_json(r#"{"type":[]}"#), Err(Error::MissingId));
    assert_eq!(RefreshService::from_json(r#"{"id":"x","type":[]}"#), Err(Error::InvalidUrl));
}

#[test]
fn malformed_text_is_rejected() {
    for json in [
        "",
        "{",
        r#"{"id":"urn:x","type":"T""#,
        r#"{"id":"urn:x","type":"T",}"#,
        r#"{"id":"urn:x" "type":"T"}"#,
        r#"{"id":"urn:x","type":"T"} x"#,
        r#"{"id":"urn:x","type":"T","id":"urn:y"}"#,
        r#"{"id":"urn:x","type":"T","a":1,"a":1}"#,
        r#"{id:"urn:x","type":"T"}"#,
    ] {
        assert_eq!(RefreshService::from_json(json), Err(Error::Syntax), "{}", json);
    }
}

#[test]
fn a_reserved_property_is_refused_when_writing() {
    for name in ["id", "type"] {
        let mut properties = Object::new();
        properties.insert("note".to_string(), text("x"));
        properties.insert(name.to_string(), text("y"));
        let service =
            RefreshService::with_properties(url(), OneOrMany::one("T".to_string()), properties);
        assert_eq!(service.to_json(), Err(Error::ReservedProperty));
        assert_eq!(service.to_value(), Err(Error::ReservedProperty));
    }
}

#[test]
fn from_value_reads_what_to_value_wrote() {
    let mut object = Object::new();
    object.insert("type".to_string(), Value::Array(vec![text("A"), text("B")]));
    object.insert("extra".to_string(), Value::Bool(true));
    object.insert("id".to_string(), text(ID));
    let service = RefreshService::from_value(&Value::Object(object)).unwrap();
    assert_eq!(service.id.as_str(), ID);
    assert_eq!(service.types.as_slice(), ["A", "B"]);
    assert_eq!(service.properties.len(), 1);
    assert_eq!(service.properties.get("extra"), Some(&Value::Bool(true)));
    let mut expected = Object::new();
    expected.insert("id".to_string(), text(ID));
    expected.insert("type".to_string(), Value::Array(vec![text("A"), text("B")]));
    expected.insert("extra".to_string(), Value::Bool(true));
    assert_eq!(service.to_value().unwrap(), Value::Object(expected));
}

#[test]
fn records_are_equal_whatever_the_order_of_their_properties() {
    let mut first = Object::new();
    first.insert("a".to_string(), text("1"));
    first.insert("b".to_string(), text("2"));
    let mut second = Object::new();
    second.insert("b".to_string(), text("2"));
    second.insert("a".to_string(), text("1"));
    let one = RefreshService::with_properties(url(), tags(&["A", "B"]), first);
    let other = RefreshService::with_properties(url(), tags(&["A", "B"]), second);
    assert_eq!(one, other);
    let swapped = RefreshService::with_properties(url(), tags(&["B", "A"]), Object::new());
    assert_ne!(RefreshService::new(url(), tags(&["A", "B"])), swapped);
}
