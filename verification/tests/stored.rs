use urva::bson::{Bson, Document, Float};
use urva::doc::{split_stored, stored_document};
use urva::version::{DecodeError, Version};

fn order_body() -> Document {
    let mut d = Document::new();
    d.insert("status".to_string(), Bson::String("open".to_string()));
    d.insert("total".to_string(), Bson::Int64(100));
    d
}

fn document(entries: Vec<(&str, Bson)>) -> Document {
    Document::from_entries(entries.into_iter().map(|(k, v)| (k.to_string(), v)).collect())
}

fn float(value: f64) -> Float {
    Float {
        bits: value.to_bits(),
        truncated: value as i64,
        integral: value.fract() == 0.0,
        in_i64_range: (-9_223_372_036_854_775_808.0..9_223_372_036_854_775_808.0).contains(&value),
    }
}

#[test]
fn versioned_doc_stores_id_and_lock() {
    let stored = stored_document(order_body(), Bson::Int64(7), Version::committed(3), "version");
    assert_eq!(
        stored,
        document(vec![
            ("status", Bson::String("open".to_string())),
            ("total", Bson::Int64(100)),
            ("_id", Bson::Int64(7)),
            ("version", Bson::Int64(3)),
        ])
    );
    let (id, version, body) = split_stored::<Version>(stored, "version").unwrap();
    assert_eq!(id, Bson::Int64(7));
    assert_eq!(version, Version::committed(3));
    assert_eq!(body, order_body());
}

#[test]
fn stored_document_without_id_is_rejected() {
    let error = split_stored::<Version>(
        document(vec![
            ("status", Bson::String("open".to_string())),
            ("total", Bson::Int64(100)),
            ("version", Bson::Int64(1)),
        ]),
        "version",
    )
    .unwrap_err();
    assert!(error.message("").contains("no `_id`"), "{}", error.message(""));
}

#[test]
fn versioned_document_without_lock_is_rejected() {
    let error = split_stored::<Version>(
        document(vec![
            ("_id", Bson::Int64(7)),
            ("status", Bson::String("open".to_string())),
            ("total", Bson::Int64(100)),
        ]),
        "version",
    )
    .unwrap_err();
    assert!(error.message("").contains("backfill"), "{}", error.message(""));
}

#[test]
fn unversioned_doc_has_no_lock_field() {
    let body = document(vec![("text", Bson::String("hello".to_string()))]);
    let stored = stored_document(body, Bson::String("n1".to_string()), (), "version");
    assert_eq!(
        stored,
        document(vec![("text", Bson::String("hello".to_string())), ("_id", Bson::String("n1".to_string()))])
    );
    let (id, (), body) = split_stored::<()>(stored, "version").unwrap();
    assert_eq!(id, Bson::String("n1".to_string()));
    assert_eq!(body, document(vec![("text", Bson::String("hello".to_string()))]));
}

#[test]
fn deserialization_accepts_integral_numbers_only() {
    let zero = Version::from_bson(&Bson::Int64(0)).unwrap();
    assert_eq!(zero.value(), 0);
    let positive = Version::from_bson(&Bson::Int64(2)).unwrap();
    assert_eq!(positive.value(), 2);
    let int32 = Version::from_bson(&Bson::Int32(2)).unwrap();
    assert_eq!(int32.value(), 2);
    let double = Version::from_bson(&Bson::Double(float(2.0))).unwrap();
    assert_eq!(double.value(), 2);
    assert!(Version::from_bson(&Bson::Double(float(2.5))).is_err());
    assert!(Version::from_bson(&Bson::String("2".into())).is_err());
}

#[test]
fn a_missing_lock_names_the_field() {
    let error = split_stored::<Version>(document(vec![("_id", Bson::Int64(1))]), "rev").unwrap_err();
    assert_eq!(error, DecodeError::MissingLock { field: "rev".to_string() });
    assert_eq!(
        error.message(""),
        "stored document has no `rev` lock, backfill the collection before deploying a versioned entity"
    );
}

#[test]
fn a_double_outside_i64_is_not_a_version() {
    assert!(matches!(Version::from_bson(&Bson::Double(float(1e19))), Err(DecodeError::NotIntegral(_))));
    assert_eq!(Version::from_bson(&Bson::Null), Err(DecodeError::InvalidType));
}

#[test]
fn a_stored_document_reads_back_as_written() {
    let stored = stored_document(order_body(), Bson::Int64(9), Version::committed(41), "version");
    let (id, version, body) = split_stored::<Version>(stored, "version").unwrap();
    assert_eq!((id, version.value(), body), (Bson::Int64(9), 41, order_body()));
}

#[test]
fn a_fractional_version_names_its_value() {
    let error = Version::from_bson(&Bson::Double(float(2.5))).unwrap_err();
    assert_eq!(error.message("2.5"), "stored version 2.5 is not an integer");
}
