use refresh_service::{Error, OneOrMany, Url};

#[test]
fn urls_are_accepted() {
    for text in [
        "https://example.edu/refresh/3732",
        "http://example.com",
        "HTTP://EXAMPLE.COM/a?b=c&d=%20#frag",
        "did:example:123456789abcdefghi#key-1",
        "urn:uuid:6e8bc430-9c3a-11d9-9669-0800200c9a66",
        "mailto:someone@example.com",
        "a:",
        "a+b-c.d1://[::1]:8080/~x_y/(z)*;,'!$",
    ] {
        let url = Url::parse(text).unwrap();
        assert_eq!(url.as_str(), text);
        assert_eq!(url.clone(), url);
        assert_eq!(url.into_string(), text);
    }
}

#[test]
fn other_texts_are_rejected() {
    for text in [
        "",
        ":",
        "://example.com",
        "example.com/path",
        "/refresh/3732",
        "1http://example.com",
        "+a:b",
        "ht tp://example.com",
        "ht_tp://example.com",
        "https//example.com",
        "https://example.com/a b",
        "https://example.com/\"",
        "https://example.com/<x>",
        "https://example.com/\u{e9}",
        "https://example.com/\n",
        "https://example.com/{x}",
        "https://example.com/a\\b",
        "https",
    ] {
        assert_eq!(Url::parse(text), Err(Error::InvalidUrl), "{}", text);
    }
}

#[test]
fn one_holds_one_string() {
    let one = OneOrMany::one("A".to_string());
    assert_eq!(one.len(), 1);
    assert!(one.is_one());
    assert_eq!(one.first(), "A");
    assert_eq!(one.get(0), Some(&"A".to_string()));
    assert_eq!(one.get(1), None);
    assert_eq!(one.as_slice(), ["A"]);
    assert_eq!(one.clone(), one);
}

#[test]
fn many_holds_its_strings_in_order() {
    let many = OneOrMany::many(vec!["B".to_string(), "A".to_string(), "B".to_string()]).unwrap();
    assert_eq!(many.len(), 3);
    assert!(!many.is_one());
    assert_eq!(many.first(), "B");
    assert_eq!(many.get(1), Some(&"A".to_string()));
    assert_eq!(many.get(2), Some(&"B".to_string()));
    assert_eq!(many.get(3), None);
    assert_eq!(many.as_slice(), ["B", "A", "B"]);
    assert_eq!(many.clone(), many);
}

#[test]
fn many_of_nothing_is_refused() {
    assert_eq!(OneOrMany::many(vec![]), None);
}

#[test]
fn many_of_one_is_one() {
    let many = OneOrMany::many(vec!["A".to_string()]).unwrap();
    assert!(many.is_one());
    assert_eq!(many, OneOrMany::one("A".to_string()));
}
