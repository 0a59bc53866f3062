use urva::bson::{Bson, Document};
use urva::doc::{split_stored, Doc};
use urva::entity::Entity;
use urva::error::Error;
use urva::filter::Filter;
use urva::index::IndexSpec;
use urva::ops::{delete_outcome, prepare_save, save_miss, save_outcome, version_filter};
use urva::version::Version;

struct Order;

impl Entity for Order {
    type Id = i64;
    type Lock = Version;
    fn collection() -> &'static str {
        "orders"
    }
    fn version_field() -> &'static str {
        "version"
    }
    fn index_specs() -> Vec<&'static IndexSpec> {
        Vec::new()
    }
    fn external_index_names() -> Vec<&'static str> {
        Vec::new()
    }
}

struct Note;

impl Entity for Note {
    type Id = String;
    type Lock = ();
    fn collection() -> &'static str {
        "notes"
    }
    fn version_field() -> &'static str {
        "version"
    }
    fn index_specs() -> Vec<&'static IndexSpec> {
        Vec::new()
    }
    fn external_index_names() -> Vec<&'static str> {
        Vec::new()
    }
}

fn document(entries: Vec<(&str, Bson)>) -> Document {
    Document::from_entries(entries.into_iter().map(|(k, v)| (k.to_string(), v)).collect())
}

fn body() -> Document {
    document(vec![("status", Bson::String("open".to_string()))])
}

#[test]
fn a_save_asks_for_the_current_version_and_writes_the_next() {
    let doc = Doc::new(7, Version::committed(3), Order);
    let (id, filter, replacement, next) = prepare_save(Bson::Int64(7), body(), &doc, "version", None).unwrap();
    assert_eq!(id, Bson::Int64(7));
    assert_eq!(filter, document(vec![("_id", Bson::Int64(7)), ("version", Bson::Int64(3))]));
    assert_eq!(next, Version::committed(4));
    let (read_id, version, read_body) = split_stored::<Version>(replacement, "version").unwrap();
    assert_eq!((read_id, version, read_body), (Bson::Int64(7), Version::committed(4), body()));
}

#[test]
fn a_conditional_save_adds_its_condition() {
    let doc = Doc::new(7, Version::committed(3), Order);
    let extra = Filter::<Order>::raw(document(vec![("status", Bson::String("open".to_string()))]));
    let (_, filter, _, _) = prepare_save(Bson::Int64(7), body(), &doc, "version", Some(extra)).unwrap();
    assert_eq!(
        filter,
        document(vec![(
            "$and",
            Bson::Array(vec![
                Bson::Document(document(vec![("_id", Bson::Int64(7)), ("version", Bson::Int64(3))])),
                Bson::Document(document(vec![("status", Bson::String("open".to_string()))])),
            ])
        )])
    );
    let rejected = Filter::<Order>::rejected(Error::InvalidUpdate { message: "bad".to_string() });
    assert!(matches!(
        prepare_save(Bson::Int64(7), body(), &doc, "version", Some(rejected)),
        Err(Error::InvalidUpdate { .. })
    ));
}

#[test]
fn an_unversioned_filter_is_the_id_alone() {
    let filter = version_filter::<Note>(Bson::String("n1".to_string()), &(), "version", None).unwrap();
    assert_eq!(filter, document(vec![("_id", Bson::String("n1".to_string()))]));
}

#[test]
fn a_write_that_matched_nothing_names_why() {
    assert!(save_outcome::<Order>("orders", 1, false, Bson::Int64(7)).is_ok());
    assert!(matches!(
        save_outcome::<Order>("orders", 0, false, Bson::Int64(7)),
        Err(Error::VersionConflict { collection: "orders", id: Bson::Int64(7) })
    ));
    assert!(matches!(
        save_miss::<Order>("orders", true, Bson::Int64(7)),
        Error::ConditionFailed { collection: "orders", .. }
    ));
    assert!(matches!(
        delete_outcome::<Note>("notes", 0, Bson::String("n1".to_string())),
        Err(Error::NotFound { collection: "notes", .. })
    ));
    assert!(delete_outcome::<Note>("notes", 1, Bson::String("n1".to_string())).is_ok());
}
