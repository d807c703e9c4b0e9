use strange_sandwich::json::Json;

#[test]
fn parse_simple_object() {
    let j = Json::parse("{\"a\":1,\"b\":[true,null,\"x\"]}").expect("should parse");
    match j {
        Json::Obj(ms) => {
            assert_eq!(ms.len(), 2);
            assert_eq!(ms[0].0, "a");
            assert!(matches!(&ms[0].1, Json::Num(n) if n == "1"));
            assert_eq!(ms[1].0, "b");
            match &ms[1].1 {
                Json::Arr(items) => {
                    assert_eq!(items.len(), 3);
                    assert!(matches!(items[0], Json::Bool(true)));
                    assert!(matches!(items[1], Json::Null));
                    assert!(matches!(&items[2], Json::Str(s) if s == "x"));
                },
                other => panic!("expected array, got {:?}", other),
            }
        },
        other => panic!("expected object, got {:?}", other),
    }
}

#[test]
fn parse_rejects_non_json() {
    assert!(Json::parse("not json").is_none());
    assert!(Json::parse("").is_none());
    assert!(Json::parse("{\"a\":").is_none());
    assert!(Json::parse("[1,2,]").is_none());
    assert!(Json::parse("{\"a\":1} trailing").is_none());
}

#[test]
fn parse_accepts_whitespace() {
    let j = Json::parse(" \t\r\n { \"a\" : \"b\" } \n").expect("should parse");
    match j {
        Json::Obj(ms) => {
            assert_eq!(ms.len(), 1);
            assert_eq!(ms[0].0, "a");
            assert!(matches!(&ms[0].1, Json::Str(s) if s == "b"));
        },
        other => panic!("expected object, got {:?}", other),
    }
}

#[test]
fn parse_number_grammar() {
    assert!(matches!(Json::parse("12.5e3"), Some(Json::Num(n)) if n == "12.5e3"));
    assert!(matches!(Json::parse("-0.5"), Some(Json::Num(n)) if n == "-0.5"));
    assert!(matches!(Json::parse("0"), Some(Json::Num(n)) if n == "0"));
    // A leading zero is not a JSON number.
    assert!(Json::parse("01").is_none());
    // A bare dot or a dot without digits is not a JSON number.
    assert!(Json::parse("1.").is_none());
    assert!(Json::parse(".5").is_none());
    // An exponent needs digits.
    assert!(Json::parse("1e").is_none());
}

#[test]
fn parse_string_escapes() {
    let j = Json::parse("\"a\\nb\\t\\\"q\\\"\\u0041\\uD83D\\uDE00\"").expect("should parse");
    match j {
        Json::Str(s) => assert_eq!(s, "a\nb\t\"q\"A\u{1F600}"),
        other => panic!("expected string, got {:?}", other),
    }
    // A lone surrogate is rejected.
    assert!(Json::parse("\"\\uD83D\"").is_none());
    // An unescaped control character is rejected.
    assert!(Json::parse("\"a\nb\"").is_none());
}

#[test]
fn to_text_escapes_and_round_trips() {
    let j = Json::Obj(vec![(
        "k".to_owned(),
        Json::Str("a\"b\\c\nd\u{0001}".to_owned()),
    )]);
    let text = j.to_text();
    assert_eq!(text, "{\"k\":\"a\\\"b\\\\c\\nd\\u0001\"}");
    let back = Json::parse(&text).expect("own output should parse");
    assert_eq!(back.to_text(), text);
}

#[test]
fn to_text_matches_serde_json() {
    let j = Json::Obj(vec![
        ("title".to_owned(), Json::Str("x".to_owned())),
        (
            "items".to_owned(),
            Json::Arr(vec![Json::Bool(false), Json::Null, Json::Num("2".to_owned())]),
        ),
    ]);
    let text = j.to_text();
    let v: serde_json::Value = serde_json::from_str(&text).expect("serde_json should accept it");
    assert_eq!(v["title"], serde_json::Value::String("x".to_owned()));
    assert_eq!(v["items"].as_array().map(|a| a.len()), Some(3));
}

#[test]
fn parse_accepts_serde_json_output() {
    let v: serde_json::Value =
        serde_json::from_str("{\"n\": -1.5e-3, \"s\": \"caf\u{00e9}\", \"l\": [{}, []]}").unwrap();
    let text = serde_json::to_string(&v).unwrap();
    assert!(Json::parse(&text).is_some());
}
