use urva::bson::{Bson, Document, Float};
use urva::error::{DriverError, DriverErrorKind, Error};
use urva::index::{
    CollationSpec, CollationStrength, ConstBson, Hint, HintFor, IndexKey, IndexRef, IndexSpec, KeyKind, Weight,
};
use urva::lifecycle::{
    compute_diff, is_namespace_missing, select_named, sync_plan, verify_outcome, IndexDiff, NameDrift,
};

fn float(value: f64) -> Float {
    Float {
        bits: value.to_bits(),
        truncated: value as i64,
        integral: value.fract() == 0.0,
        in_i64_range: (-9_223_372_036_854_775_808.0..9_223_372_036_854_775_808.0).contains(&value),
    }
}

fn document(entries: Vec<(&str, Bson)>) -> Document {
    Document::from_entries(entries.into_iter().map(|(k, v)| (k.to_string(), v)).collect())
}

fn text(s: &str) -> Bson {
    Bson::String(s.to_string())
}

#[test]
fn every_option_renders_into_the_driver_model() {
    let partial = ConstBson::Doc(vec![(
        "status",
        ConstBson::Doc(vec![("$in", ConstBson::Arr(vec![ConstBson::Str("open"), ConstBson::Null]))]),
    )]);
    let projection = ConstBson::Doc(vec![("title", ConstBson::I64(1))]);
    let spec = IndexSpec {
        name: "everything",
        keys: vec![
            IndexKey { path: "tenant", kind: KeyKind::Asc },
            IndexKey { path: "created", kind: KeyKind::Desc },
        ],
        unique: true,
        sparse: true,
        hidden: true,
        ttl_seconds: Some(3600),
        partial: Some(partial),
        weights: vec![Weight { field: "title", weight: 10 }],
        collation: Some(CollationSpec { locale: "en", strength: Some(CollationStrength::Secondary) }),
        wildcard_projection: Some(projection),
        bits: Some(26),
        min: Some(float(-180.0)),
        max: Some(float(180.0)),
    };

    let model = spec.to_model();
    assert_eq!(model.keys, document(vec![("tenant", Bson::Int32(1)), ("created", Bson::Int32(-1))]));
    let options = model.options.unwrap();
    assert_eq!(options.name.as_deref(), Some("everything"));
    assert_eq!(options.unique, Some(true));
    assert_eq!(options.sparse, Some(true));
    assert_eq!(options.hidden, Some(true));
    assert_eq!(options.expire_after_secs, Some(3600));
    assert_eq!(
        options.partial_filter_expression,
        Some(document(vec![("status", Bson::Document(document(vec![("$in", Bson::Array(vec![text("open"), Bson::Null]))])))]))
    );
    assert_eq!(options.weights, Some(document(vec![("title", Bson::Int32(10))])));
    let collation = options.collation.unwrap();
    assert_eq!(collation.locale, "en");
    assert!(matches!(collation.strength, Some(CollationStrength::Secondary)));
    assert_eq!(options.wildcard_projection, Some(document(vec![("title", Bson::Int64(1))])));
    assert_eq!(options.bits, Some(26));
    assert_eq!(options.min.map(|f| f64::from_bits(f.bits)), Some(-180.0));
    assert_eq!(options.max.map(|f| f64::from_bits(f.bits)), Some(180.0));
}

#[test]
fn the_default_spec_renders_only_its_name_and_keys() {
    let mut spec = IndexSpec::named("plain");
    spec.keys = vec![IndexKey { path: "status", kind: KeyKind::Asc }];
    let model = spec.to_model();
    assert_eq!(model.keys, document(vec![("status", Bson::Int32(1))]));
    let options = model.options.unwrap();
    assert_eq!(options.name.as_deref(), Some("plain"));
    assert_eq!(options.unique, None);
    assert_eq!(options.sparse, None);
    assert_eq!(options.hidden, None);
    assert_eq!(options.expire_after_secs, None);
    assert_eq!(options.partial_filter_expression, None);
    assert_eq!(options.weights, None);
    assert!(options.collation.is_none());
    assert_eq!(options.wildcard_projection, None);
    assert_eq!(options.bits, None);
    assert_eq!(options.min, None);
    assert_eq!(options.max, None);
}

#[test]
fn every_key_kind_renders_its_server_spelling() {
    assert_eq!(KeyKind::Asc.to_bson(), Bson::Int32(1));
    assert_eq!(KeyKind::Desc.to_bson(), Bson::Int32(-1));
    assert_eq!(KeyKind::Text.to_bson(), text("text"));
    assert_eq!(KeyKind::Hashed.to_bson(), text("hashed"));
    assert_eq!(KeyKind::TwoDSphere.to_bson(), text("2dsphere"));
    assert_eq!(KeyKind::TwoD.to_bson(), text("2d"));
    assert_eq!(KeyKind::Wildcard.to_bson(), Bson::Int32(1));
}

#[test]
fn index_refs_hint_by_name_and_driver_hints_pass_through() {
    let spec: &'static IndexSpec = Box::leak(Box::new(IndexSpec::named("by_status")));
    let index: IndexRef<()> = IndexRef::from_spec(spec);
    assert_eq!(index.name(), "by_status");
    assert!(matches!(
        HintFor::<()>::to_hint(&index),
        Hint::Name(name) if name == "by_status"
    ));
    let keys = Hint::Keys(document(vec![("status", Bson::Int32(1))]));
    assert!(matches!(
        HintFor::<()>::to_hint(&keys),
        Hint::Keys(doc) if doc == document(vec![("status", Bson::Int32(1))])
    ));
}

fn listing(name: &str, keys: Document) -> Document {
    document(vec![("v", Bson::Int32(2)), ("key", Bson::Document(keys)), ("name", text(name))])
}

fn keys(entries: Vec<(&str, i32)>) -> Document {
    document(entries.into_iter().map(|(k, v)| (k, Bson::Int32(v))).collect())
}

#[test]
fn an_index_on_the_server_as_declared_is_in_sync() {
    let declared = vec![("by_status".to_string(), listing("by_status", keys(vec![("status", 1)])))];
    let existing = vec![
        listing("_id_", keys(vec![("_id", 1)])),
        listing("by_status", keys(vec![("status", 1)])),
    ];
    let diff = compute_diff(&declared, &existing, &Vec::new());
    assert!(diff.is_empty());
    assert!(!diff.fails_verify());
    assert_eq!(verify_outcome(diff), Ok(()));
}

#[test]
fn the_diff_sorts_what_differs() {
    let declared = vec![
        ("by_status".to_string(), listing("by_status", keys(vec![("status", 1)]))),
        ("by_total".to_string(), listing("by_total", keys(vec![("total", -1)]))),
        ("by_owner".to_string(), listing("by_owner", keys(vec![("owner", 1)]))),
        ("by_day".to_string(), listing("by_day", keys(vec![("day", 1)]))),
    ];
    let existing = vec![
        listing("_id_", keys(vec![("_id", 1)])),
        listing("by_status", keys(vec![("status", -1)])),
        listing("owner_1", keys(vec![("owner", 1)])),
        listing("stale", keys(vec![("gone", 1)])),
        listing("managed", keys(vec![("elsewhere", 1)])),
    ];
    let external = vec!["managed".to_string(), "audit".to_string()];
    let diff = compute_diff(&declared, &existing, &external);
    assert_eq!(diff.mismatched, vec!["by_status".to_string()]);
    assert_eq!(
        diff.name_drift,
        vec![NameDrift { expected: "by_owner".to_string(), actual: "owner_1".to_string() }]
    );
    assert_eq!(diff.to_create, vec!["by_total".to_string(), "by_day".to_string()]);
    assert_eq!(diff.to_drop, vec!["stale".to_string()]);
    assert_eq!(diff.missing_external, vec!["audit".to_string()]);
    assert!(diff.fails_verify());

    let (drops, creates) = sync_plan(&diff, &external);
    assert_eq!(drops, vec!["stale".to_string(), "by_status".to_string(), "owner_1".to_string()]);
    assert_eq!(
        creates,
        vec!["by_total".to_string(), "by_day".to_string(), "by_status".to_string(), "by_owner".to_string()]
    );
    assert!(matches!(verify_outcome(diff), Err(Error::IndexDrift(_))));
}

#[test]
fn extra_indexes_alone_pass_verification_but_sync_drops_them() {
    let existing = vec![listing("_id_", keys(vec![("_id", 1)])), listing("old", keys(vec![("x", 1)]))];
    let diff = compute_diff(&Vec::new(), &existing, &Vec::new());
    assert_eq!(diff.to_drop, vec!["old".to_string()]);
    assert!(!diff.fails_verify());
    assert!(!diff.is_empty());
    let (drops, creates) = sync_plan(&diff, &Vec::new());
    assert_eq!(drops, vec!["old".to_string()]);
    assert!(creates.is_empty());
}

#[test]
fn a_drifted_external_index_is_not_dropped() {
    let diff = IndexDiff {
        to_create: Vec::new(),
        to_drop: Vec::new(),
        mismatched: Vec::new(),
        name_drift: vec![NameDrift { expected: "mine".to_string(), actual: "theirs".to_string() }],
        missing_external: Vec::new(),
    };
    let (drops, creates) = sync_plan(&diff, &vec!["theirs".to_string()]);
    assert!(drops.is_empty());
    assert_eq!(creates, vec!["mine".to_string()]);
}

#[test]
fn a_sync_creates_the_named_specs_in_declaration_order() {
    let a: &'static IndexSpec = Box::leak(Box::new(IndexSpec::named("a")));
    let b: &'static IndexSpec = Box::leak(Box::new(IndexSpec::named("b")));
    let c: &'static IndexSpec = Box::leak(Box::new(IndexSpec::named("c")));
    let picked = select_named(&vec![a, b, c], &vec!["c".to_string(), "a".to_string()]);
    assert_eq!(picked, vec![0, 2]);
}

#[test]
fn a_missing_collection_lists_no_indexes() {
    let error = |code| DriverError {
        kind: DriverErrorKind::Command { code },
        labels: Vec::new(),
        message: String::new(),
        has_source: false,
    };
    assert!(is_namespace_missing(&error(26)));
    assert!(!is_namespace_missing(&error(27)));
}

#[test]
fn collation_strength_and_numbers_compare_by_value() {
    let declared = vec![(
        "geo".to_string(),
        document(vec![
            ("key", Bson::Document(keys(vec![("loc", 1)]))),
            ("name", text("geo")),
            ("bits", Bson::Int32(26)),
        ]),
    )];
    let existing = vec![document(vec![
        ("key", Bson::Document(document(vec![("loc", Bson::Double(float(1.0)))]))),
        ("name", text("geo")),
        ("bits", Bson::Int64(26)),
    ])];
    let diff = compute_diff(&declared, &existing, &Vec::new());
    assert!(diff.is_empty(), "{diff:?}");
}

#[test]
fn each_declared_index_lands_in_one_outcome() {
    let declared = vec![
        ("by_status".to_string(), listing("by_status", keys(vec![("status", 1)]))),
        ("by_total".to_string(), listing("by_total", keys(vec![("total", -1)]))),
        ("by_owner".to_string(), listing("by_owner", keys(vec![("owner", 1)]))),
        ("by_day".to_string(), listing("by_day", keys(vec![("day", 1)]))),
        ("by_kind".to_string(), listing("by_kind", keys(vec![("kind", 1)]))),
    ];
    let existing = vec![
        listing("_id_", keys(vec![("_id", 1)])),
        listing("by_status", keys(vec![("status", -1)])),
        listing("owner_1", keys(vec![("owner", 1)])),
        listing("by_kind", keys(vec![("kind", 1)])),
        listing("stale", keys(vec![("gone", 1)])),
    ];
    let diff = compute_diff(&declared, &existing, &Vec::new());
    for (name, _) in &declared {
        let mismatched = diff.mismatched.contains(name);
        let created = diff.to_create.contains(name);
        let renamed = diff.name_drift.iter().any(|d| &d.expected == name);
        let listed = existing.iter().any(|l| l.get("name") == Some(&Bson::String(name.clone())));
        assert_eq!([mismatched, created, renamed].iter().filter(|b| **b).count() <= 1, true);
        if listed {
            assert!(!created && !renamed);
        } else {
            assert!(!mismatched && created != renamed);
        }
    }
    assert_eq!(diff.to_drop, vec!["stale".to_string()]);
}
