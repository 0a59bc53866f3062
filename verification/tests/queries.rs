use urva::bson::{Bson, Document};
use urva::error::Error;
use urva::field::Field;
use urva::filter::{all, any, prefix_pattern, Filter};
use urva::ops::merge_array_filters;
use urva::sort::Sort;
use urva::update::{apply, Update};
use urva::version::Version;

fn document(entries: Vec<(&str, Bson)>) -> Document {
    Document::from_entries(entries.into_iter().map(|(k, v)| (k.to_string(), v)).collect())
}

fn op(path: &str, op: &str, value: Bson) -> Document {
    document(vec![(path, Bson::Document(document(vec![(op, value)])))])
}

fn total() -> Field<(), i64> {
    Field::new("total")
}

fn status() -> Field<(), String> {
    Field::new("status")
}

#[test]
fn array_filters_append_to_the_options() {
    let mut options = Some(vec![op("hot.qty", "$gt", Bson::Int32(5))]);
    merge_array_filters(&mut options, vec![document(vec![("cold.qty", Bson::Int32(1))])]);
    assert_eq!(
        options.unwrap(),
        vec![op("hot.qty", "$gt", Bson::Int32(5)), document(vec![("cold.qty", Bson::Int32(1))])]
    );

    let mut options = None;
    merge_array_filters(&mut options, Vec::new());
    assert!(options.is_none());
    merge_array_filters(&mut options, vec![document(vec![("hot.qty", Bson::Int32(1))])]);
    assert_eq!(options.unwrap(), vec![document(vec![("hot.qty", Bson::Int32(1))])]);
}

#[test]
fn field_comparisons_render_operator_documents() {
    assert_eq!(total().gt(Bson::Int64(5)).into_document().unwrap(), op("total", "$gt", Bson::Int64(5)));
    assert_eq!(total().lte(Bson::Int64(9)).into_document().unwrap(), op("total", "$lte", Bson::Int64(9)));
    assert_eq!(
        status().is_in(vec![Bson::String("open".into())]).into_document().unwrap(),
        op("status", "$in", Bson::Array(vec![Bson::String("open".into())]))
    );
    assert_eq!(
        status().starts_with("a.b").into_document().unwrap(),
        op("status", "$regex", Bson::String("^a\\.b".into()))
    );
}

#[test]
fn chained_conjunctions_extend_one_list() {
    let f = total().gt(Bson::Int64(1)).and(total().lt(Bson::Int64(9))).and(status().eq(Bson::String("open".into())));
    let expected = document(vec![(
        "$and",
        Bson::Array(vec![
            Bson::Document(op("total", "$gt", Bson::Int64(1))),
            Bson::Document(op("total", "$lt", Bson::Int64(9))),
            Bson::Document(op("status", "$eq", Bson::String("open".into()))),
        ]),
    )]);
    assert_eq!(f.into_document().unwrap(), expected);
}

#[test]
fn the_first_failure_of_a_combination_wins() {
    let f = Filter::<()>::rejected(Error::InvalidUpdate { message: "a".into() })
        .or(Filter::rejected(Error::InvalidUpdate { message: "b".into() }));
    assert_eq!(f.into_document(), Err(Error::InvalidUpdate { message: "a".into() }));
    let g = all::<()>(vec![Filter::empty(), Filter::rejected(Error::InvalidUpdate { message: "c".into() })]);
    assert_eq!(g.into_document(), Err(Error::InvalidUpdate { message: "c".into() }));
    assert!(any::<()>(vec![total().gt(Bson::Int64(1))]).into_document().is_ok());
}

#[test]
fn prefixes_are_escaped_literally() {
    assert_eq!(prefix_pattern("a+b(c)"), "^a\\+b\\(c\\)");
    assert_eq!(prefix_pattern(""), "^");
}

#[test]
fn updates_merge_by_operator() {
    let u = total().inc(Bson::Int64(1)).and(status().set(Bson::String("paid".into()))).and(total().max(Bson::Int64(9)));
    let expected = document(vec![
        ("$inc", Bson::Document(document(vec![("total", Bson::Int64(1))]))),
        ("$set", Bson::Document(document(vec![("status", Bson::String("paid".into()))]))),
        ("$max", Bson::Document(document(vec![("total", Bson::Int64(9))]))),
    ]);
    assert_eq!(u.into_document().unwrap(), expected);
}

#[test]
fn a_path_written_twice_by_one_operator_is_refused() {
    let u = apply::<()>(vec![status().set(Bson::String("a".into())), status().set(Bson::String("b".into()))]);
    match u.into_document() {
        Err(Error::InvalidUpdate { message }) => assert!(message.contains("status"), "{message}"),
        other => panic!("unexpected {other:?}"),
    }
}

#[test]
fn a_version_bump_increments_the_lock() {
    let bump = urva::field::VersionField::<()>::new("version").bump();
    assert_eq!(bump.into_document().unwrap(), op("$inc", "version", Bson::Int64(1)));
}

#[test]
fn a_version_field_matches_one_version() {
    let f = urva::field::VersionField::<()>::new("version").eq(Version::committed(4));
    assert_eq!(f.into_document().unwrap(), op("version", "$eq", Bson::Int64(4)));
}

#[test]
fn sorts_break_ties_in_order() {
    let s = total().desc().then(status().asc()).then(Sort::single("total", 1));
    assert_eq!(
        s.into_document(),
        document(vec![("status", Bson::Int32(1)), ("total", Bson::Int32(1))])
    );
    let _ = Update::<()>::raw(Document::new());
}
