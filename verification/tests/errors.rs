use urva::error::{DriverError, DriverErrorKind, Error};

#[test]
fn error_stays_small_enough_for_result() {
    assert!(std::mem::size_of::<Error>() <= 128);
}

#[test]
fn duplicate_keys_are_recognised_in_every_kind() {
    let error = |kind| Error::Driver(DriverError { kind, labels: Vec::new(), message: String::new(), has_source: false });
    assert!(error(DriverErrorKind::Write { code: 11000 }).is_duplicate_key());
    assert!(error(DriverErrorKind::Command { code: 11000 }).is_duplicate_key());
    assert!(error(DriverErrorKind::InsertMany { errors: vec![(0, 1), (4, 11000)] }).is_duplicate_key());
    assert!(!error(DriverErrorKind::WriteConcern { code: 11000 }).is_duplicate_key());
    assert!(!error(DriverErrorKind::Write { code: 1 }).is_duplicate_key());
}
