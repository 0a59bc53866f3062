use urva::doc::{prepare, Doc};
use urva::entity::Entity;
use urva::error::{BulkReport, DriverError, DriverErrorKind, Error};
use urva::filter::Filter;
use urva::index::IndexSpec;
use urva::ops::{classify, insert_many_applied, BulkBuilder, WriteOp};
use urva::partial::{classify_bulk_failure, indexed, BulkClass, PartialFailure};
use urva::update::Update;
use urva::bson::{Bson, Document};

#[derive(Debug, PartialEq)]
struct Body;

impl Entity for Body {
    type Id = i64;
    type Lock = ();
    fn collection() -> &'static str {
        "bodies"
    }
    fn version_field() -> &'static str {
        "version"
    }
    fn index_specs() -> Vec<&'static IndexSpec> {
        Vec::new()
    }
    fn external_index_names() -> Vec<&'static str> {
        Vec::new()
    }
}

fn docs() -> Vec<(usize, Doc<Body>)> {
    (0..3).map(|i| (i, prepare(i as i64, Body))).collect()
}

fn error() -> Error {
    Error::InvalidUpdate { message: String::new() }
}

fn indices<T>(entries: &[(usize, T)]) -> Vec<usize> {
    entries.iter().map(|(i, _)| *i).collect()
}

fn driver(kind: DriverErrorKind) -> DriverError {
    DriverError { kind, labels: Vec::new(), message: String::new(), has_source: false }
}

#[test]
fn known_outcomes_split_into_inserted_and_rejected() {
    let failure = PartialFailure::split(error(), docs(), Some(&vec![0, 2]));
    assert_eq!(indices(&failure.inserted), [0, 2]);
    assert_eq!(indices(&failure.rejected), [1]);
    assert!(failure.unknown.is_empty());
}

#[test]
fn opaque_outcomes_claim_nothing() {
    let failure = PartialFailure::split(error(), docs(), None);
    assert!(failure.inserted.is_empty());
    assert!(failure.rejected.is_empty());
    assert_eq!(indices(&failure.unknown), [0, 1, 2]);
}

#[test]
fn ordered_applies_everything_before_the_first_failure() {
    assert_eq!(
        classify_bulk_failure(true, 5, &vec![3, 1], false),
        BulkClass::PerOp { applied: vec![0] }
    );
}

#[test]
fn unordered_applies_the_complement_of_the_failures() {
    assert_eq!(
        classify_bulk_failure(false, 5, &vec![3, 1], false),
        BulkClass::PerOp { applied: vec![0, 2, 4] }
    );
}

#[test]
fn wrapped_or_empty_reports_are_opaque() {
    assert_eq!(classify_bulk_failure(true, 5, &vec![1], true), BulkClass::Opaque);
    assert_eq!(classify_bulk_failure(true, 3, &vec![], false), BulkClass::Opaque);
}

#[test]
fn bulk_report_answers_is_duplicate_key() {
    let report = |code| {
        Error::Bulk(BulkReport { write_errors: vec![(1, code)], applied: vec![0] })
    };
    assert!(report(11000).is_duplicate_key());
    assert!(!report(14).is_duplicate_key());
}

#[test]
fn indexed_numbers_documents_in_order() {
    let numbered = indexed(vec![prepare(5, Body), prepare(6, Body)]);
    assert_eq!(indices(&numbered), [0, 1]);
    assert_eq!(*numbered[1].1.id(), 6);
}

#[test]
fn a_bulk_failure_naming_operations_becomes_a_report() {
    let error = driver(DriverErrorKind::BulkWrite { errors: vec![(2, 11000)] });
    let (classified, applied) = classify(error, true, 4);
    assert_eq!(applied, Some(vec![0, 1]));
    match classified {
        Error::Bulk(report) => {
            assert_eq!(report.write_errors, vec![(2, 11000)]);
            assert_eq!(report.applied, vec![0, 1]);
        }
        other => panic!("unexpected {other:?}"),
    }
}

#[test]
fn a_wrapped_bulk_failure_stays_a_driver_error() {
    let mut error = driver(DriverErrorKind::BulkWrite { errors: vec![(0, 1)] });
    error.has_source = true;
    let (classified, applied) = classify(error, false, 4);
    assert!(matches!(classified, Error::Driver(_)));
    assert_eq!(applied, None);
}

#[test]
fn a_failure_before_sending_applied_nothing() {
    let (classified, applied) = classify(driver(DriverErrorKind::InvalidArgument), true, 4);
    assert!(matches!(classified, Error::Driver(_)));
    assert_eq!(applied, Some(vec![]));
    let (_, applied) = classify(driver(DriverErrorKind::Other), true, 4);
    assert_eq!(applied, None);
}

#[test]
fn a_failed_insert_many_reports_what_it_wrote() {
    let error = driver(DriverErrorKind::InsertMany { errors: vec![(1, 11000), (3, 11000)] });
    assert_eq!(insert_many_applied(&error, false, 5), Some(vec![0, 2, 4]));
    assert_eq!(insert_many_applied(&error, true, 5), Some(vec![0]));
    assert_eq!(insert_many_applied(&driver(DriverErrorKind::BsonSerialization), true, 5), Some(vec![]));
    assert_eq!(insert_many_applied(&driver(DriverErrorKind::Command { code: 1 }), true, 5), None);
}

fn doc_with(key: &str, value: Bson) -> Document {
    let mut d = Document::new();
    d.insert(key.to_string(), value);
    d
}

#[test]
fn the_bulk_queue_keeps_operations_in_order() {
    let builder = BulkBuilder::<Body>::new()
        .insert_doc(prepare(1, Body), Ok(doc_with("_id", Bson::Int64(1))))
        .delete_one(Filter::raw(doc_with("_id", Bson::Int64(2))))
        .update_many(Filter::empty(), Update::raw(doc_with("$set", Bson::Document(doc_with("a", Bson::Int32(1))))))
        .ordered(false);
    let (ops, docs, ordered) = builder.into_parts().unwrap();
    assert_eq!(ops.len(), 3);
    assert!(matches!(ops[0], WriteOp::InsertOne { .. }));
    assert!(matches!(ops[1], WriteOp::DeleteOne { .. }));
    assert!(matches!(ops[2], WriteOp::UpdateMany { .. }));
    assert_eq!(docs.len(), 1);
    assert_eq!(docs[0].0, 0);
    assert!(!ordered);
}

#[test]
fn the_first_queueing_failure_refuses_the_whole_write() {
    let builder = BulkBuilder::<Body>::new()
        .delete_one(Filter::rejected(Error::InvalidUpdate { message: "first".to_string() }))
        .delete_many(Filter::rejected(Error::InvalidUpdate { message: "second".to_string() }));
    match builder.into_parts() {
        Err(Error::InvalidUpdate { message }) => assert_eq!(message, "first"),
        other => panic!("unexpected {:?}", other.map(|t| t.2)),
    }
}

#[test]
fn a_bulk_write_is_ordered_by_default() {
    let (_, _, ordered) = BulkBuilder::<Body>::new().into_parts().unwrap();
    assert!(ordered);
}

#[test]
fn an_opaque_bulk_failure_keeps_the_driver_error_as_it_was() {
    let mut error = driver(DriverErrorKind::Command { code: 11000 });
    error.labels = vec!["TransientTransactionError".to_string()];
    error.message = "E11000 duplicate key".to_string();
    let (classified, applied) = classify(error, true, 3);
    assert_eq!(applied, None);
    match classified {
        Error::Driver(e) => {
            assert_eq!(e.kind, DriverErrorKind::Command { code: 11000 });
            assert_eq!(e.labels, vec!["TransientTransactionError".to_string()]);
            assert_eq!(e.message, "E11000 duplicate key");
        }
        other => panic!("unexpected {other:?}"),
    }
}
