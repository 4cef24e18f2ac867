use mini_agent::json::{parse, render, Json};

#[test]
fn reading_and_writing() {
    let j = parse(r#" {"b": [1, -2, 2.5, null, true], "a": "x\"y"} "#).unwrap();
    assert_eq!(render(&j), r#"{"a":"x\"y","b":[1,-2,2.5,null,true]}"#);
    assert!(parse("{").is_none());
    assert!(parse("").is_none());
}

#[test]
fn numbers_by_kind() {
    assert!(matches!(parse("18446744073709551615"), Some(Json::Unsigned(u64::MAX))));
    assert!(matches!(parse("-9"), Some(Json::Negative(-9))));
    assert!(matches!(parse("1.5"), Some(Json::Float(s)) if s == "1.5"));
    assert_eq!(parse("7").unwrap().as_i64(), Some(7));
    assert_eq!(parse("-7").unwrap().as_i64(), Some(-7));
    assert_eq!(parse("18446744073709551615").unwrap().as_i64(), None);
    assert_eq!(parse("-7").unwrap().as_u64(), None);
    assert_eq!(parse("1.5").unwrap().as_u64(), None);
}

#[test]
fn looking_inside() {
    let j = parse(r#"{"name": "n", "limit": 3, "list": []}"#).unwrap();
    assert_eq!(j.get_str("name"), Some("n"));
    assert_eq!(j.get_str("limit"), None);
    assert_eq!(j.get_u64("limit"), Some(3));
    assert!(j.get("other").is_none());
    assert!(Json::Null.get("name").is_none());
    assert_eq!(render(&j.clone()), render(&j));
}
