use urva::index_attr::partial_int;
use urva::json::{parse_json_object, Json};

#[test]
fn a_json_object_is_read_with_numbers_as_text() {
    let value = parse_json_object(r#"{"qty": {"$gt": 5}, "ratio": 1.5, "tags": ["a", true, null]}"#, "partial_raw").unwrap();
    assert_eq!(
        value,
        Json::Object(vec![
            ("qty".to_string(), Json::Object(vec![("$gt".to_string(), Json::Number("5".to_string()))])),
            ("ratio".to_string(), Json::Number("1.5".to_string())),
            (
                "tags".to_string(),
                Json::Array(vec![Json::Str("a".to_string()), Json::Bool(true), Json::Null])
            ),
        ])
    );
}

#[test]
fn json_that_is_not_an_object_is_refused() {
    assert_eq!(
        parse_json_object("[1, 2]", "wildcard_projection").unwrap_err(),
        "wildcard_projection must be a JSON object (a document, `{...}`)"
    );
}

#[test]
fn text_that_is_not_json_is_refused() {
    let message = parse_json_object("{status: 1}", "partial_raw").unwrap_err();
    assert!(message.starts_with("invalid JSON: "), "{message}");
    assert!(message.len() > "invalid JSON: ".len());
}

#[test]
fn partial_integers_must_fit_in_i64() {
    assert_eq!(partial_int("42"), Ok(42));
    assert_eq!(partial_int("9223372036854775807"), Ok(i64::MAX));
    assert_eq!(partial_int("9223372036854775808"), Err("number too large to fit in target type".to_string()));
    assert_eq!(partial_int("4x"), Err("invalid digit found in string".to_string()));
}
