use urva::entity_decl::{
    parse_entity, parse_struct, stored_key_path, DeriveKind, EntityFacts, EntityOption, FieldFacts, GenericsKind,
    IndexAttr, Shape, StructFacts, Unstorable,
};
use urva::index_attr::{AttrError, Delimiter, Lit, Name, Token};

fn name(text: &str, span: usize) -> Name {
    Name { text: text.to_string(), raw: false, span }
}

fn field(text: &str, span: usize) -> FieldFacts {
    FieldFacts {
        ident: name(text, span),
        serialize_name: text.to_string(),
        deserialize_name: text.to_string(),
        flatten: false,
        skip_serializing: false,
        skip_deserializing: false,
        custom_writer: false,
    }
}

fn order(fields: Vec<FieldFacts>) -> StructFacts {
    StructFacts {
        ident: name("Order", 1),
        generics: GenericsKind::Absent,
        generics_span: 2,
        shape: Shape::Named,
        split_rename_all: false,
        from: None,
        try_from: None,
        into: None,
        remote: None,
        fields,
    }
}

fn messages(errors: Vec<AttrError>) -> Vec<String> {
    errors.into_iter().map(|e| e.message).collect()
}

fn ident(text: &str, span: usize) -> Token {
    Token::Ident { name: text.to_string(), raw: false, keyword: false, span }
}

fn punct(ch: char, span: usize) -> Token {
    Token::Punct { ch, span }
}

/// `#[index(<index>, keys(<keys>))]`, each key ascending.
fn index(index: &str, keys: &[&str]) -> IndexAttr {
    let mut inner = Vec::new();
    for (i, k) in keys.iter().enumerate() {
        if i > 0 {
            inner.push(punct(',', 200 + i));
        }
        inner.push(ident(k, 100 + i));
    }
    IndexAttr::Tokens {
        tokens: vec![
            ident(index, 50),
            punct(',', 51),
            ident("keys", 52),
            Token::Group { delimiter: Delimiter::Parenthesis, tokens: inner, span: 53 },
        ],
        end: 54,
    }
}

fn entity(fields: Vec<FieldFacts>, options: Vec<EntityOption>, indexes: Vec<IndexAttr>) -> EntityFacts {
    EntityFacts { base: order(fields), field_attrs: Vec::new(), options, indexes }
}

fn collection() -> EntityOption {
    EntityOption::Collection("orders".to_string())
}

#[test]
fn a_plain_struct_stores_each_field_under_its_name() {
    let model = parse_struct(&order(vec![field("status", 10), field("total", 11)]), DeriveKind::Embedded).unwrap();
    let stored: Vec<&str> = model.fields.iter().map(|f| f.stored_name.as_str()).collect();
    assert_eq!(stored, ["status", "total"]);
    assert_eq!(model.fields[1].position, 1);
    assert!(model.fields.iter().all(|f| f.unstorable.is_none()));
}

#[test]
fn generics_and_other_shapes_are_refused() {
    let mut s = order(Vec::new());
    s.generics = GenericsKind::Lifetimes;
    assert_eq!(messages(parse_struct(&s, DeriveKind::Entity).unwrap_err()), ["`#[derive(Entity)]` does not support lifetime parameters"]);
    s.generics = GenericsKind::Types;
    assert_eq!(messages(parse_struct(&s, DeriveKind::Embedded).unwrap_err()), ["`#[derive(Embedded)]` does not support generic types"]);
    let mut s = order(Vec::new());
    s.shape = Shape::NotStruct;
    assert_eq!(messages(parse_struct(&s, DeriveKind::Entity).unwrap_err()), ["`#[derive(Entity)]` supports structs only"]);
    s.shape = Shape::Unnamed;
    assert_eq!(messages(parse_struct(&s, DeriveKind::Entity).unwrap_err()), ["`#[derive(Entity)]` requires named fields"]);
}

#[test]
fn stored_names_are_checked_and_reported_together() {
    let mut renamed = field("total", 11);
    renamed.deserialize_name = "sum".to_string();
    let mut dotted = field("nested", 12);
    dotted.serialize_name = "a.b".to_string();
    dotted.deserialize_name = "a.b".to_string();
    let mut id = field("key", 13);
    id.serialize_name = "_id".to_string();
    id.deserialize_name = "_id".to_string();
    let mut again = field("state", 14);
    again.serialize_name = "status".to_string();
    again.deserialize_name = "status".to_string();
    let mut s = order(vec![field("status", 10), renamed, dotted, id, again]);
    s.from = Some(3);
    let errors = parse_struct(&s, DeriveKind::Entity).unwrap_err();
    let spans: Vec<usize> = errors.iter().map(|e| e.span).collect();
    assert_eq!(
        messages(errors),
        [
            "`#[serde(from)]` stores this struct through another type, so its fields do not describe the stored document",
            "`total` is stored as `total` but read back as `sum`",
            "the stored name `a.b` contains a `.`, which query paths read as nested-field access",
            "the stored name `_id` is reserved",
            "two fields store under `status`",
            "the first field stored under `status`",
        ]
    );
    assert_eq!(spans, [3, 11, 12, 13, 14, 10]);
}

#[test]
fn skipped_and_flattened_fields_claim_no_name() {
    let mut skipped = field("cache", 11);
    skipped.serialize_name = "status".to_string();
    skipped.deserialize_name = "status".to_string();
    skipped.skip_serializing = true;
    skipped.skip_deserializing = true;
    let mut flat = field("extra", 12);
    flat.flatten = true;
    let mut write_only = field("draft", 13);
    write_only.skip_serializing = true;
    let model = parse_struct(&order(vec![field("status", 10), skipped, flat, write_only]), DeriveKind::Entity).unwrap();
    let reasons: Vec<Option<Unstorable>> = model.fields.iter().map(|f| f.unstorable).collect();
    assert_eq!(reasons, [None, Some(Unstorable::Skip), Some(Unstorable::Flatten), Some(Unstorable::SkipSerializing)]);
    assert!(!model.fields[1].occupies_stored_name());
    assert!(model.fields[3].occupies_stored_name());
}

#[test]
fn the_embedded_derive_allows_an_id_field() {
    let mut id = field("key", 13);
    id.serialize_name = "_id".to_string();
    id.deserialize_name = "_id".to_string();
    assert!(parse_struct(&order(vec![id]), DeriveKind::Embedded).is_ok());
}

#[test]
fn split_rename_rules_are_refused() {
    let mut s = order(vec![field("status", 10)]);
    s.split_rename_all = true;
    assert_eq!(
        messages(parse_struct(&s, DeriveKind::Embedded).unwrap_err()),
        ["split serialize/deserialize `rename_all` writes fields under one set of names and reads them back under another"]
    );
}

#[test]
fn an_entity_reads_its_options() {
    let facts = entity(
        vec![field("status", 10)],
        vec![collection(), EntityOption::Id(0), EntityOption::Versioned(Some(("rev".to_string(), 30)))],
        vec![index("by_status", &["status"])],
    );
    let model = parse_entity(&facts).unwrap();
    assert_eq!(model.collection, "orders");
    assert_eq!(model.id_type, Some(0));
    assert_eq!(model.version.as_deref(), Some("rev"));
    assert_eq!(model.indexes.len(), 1);
    assert_eq!(model.indexes[0].ident.text, "by_status");
    assert_eq!(stored_key_path(&model.base, &model.indexes[0].keys[0]), "status");
}

#[test]
fn a_bare_versioned_option_names_the_lock_version() {
    let facts = entity(vec![field("status", 10)], vec![collection(), EntityOption::Versioned(None)], Vec::new());
    assert_eq!(parse_entity(&facts).unwrap().version.as_deref(), Some("version"));
}

#[test]
fn entity_option_failures() {
    let facts = entity(Vec::new(), vec![EntityOption::Unknown(40)], Vec::new());
    assert_eq!(
        messages(parse_entity(&facts).unwrap_err()),
        ["unknown `entity` option, expected `collection`, `id`, or `versioned`"]
    );
    let facts = entity(Vec::new(), vec![EntityOption::Versioned(Some(("1rev".to_string(), 41)))], Vec::new());
    assert_eq!(messages(parse_entity(&facts).unwrap_err()), ["the version field name must be an identifier"]);
    let facts = entity(Vec::new(), Vec::new(), Vec::new());
    assert_eq!(messages(parse_entity(&facts).unwrap_err()), ["missing `#[entity(collection = \"...\")]`"]);
}

#[test]
fn the_lock_name_is_reserved() {
    let facts = entity(vec![field("version", 10)], vec![collection(), EntityOption::Versioned(None)], Vec::new());
    assert_eq!(
        messages(parse_entity(&facts).unwrap_err()),
        ["the stored name `version` is reserved for the version lock. Rename the field, or the lock with `versioned = \"...\"`"]
    );
}

#[test]
fn struct_attributes_on_fields_are_refused() {
    let mut facts = entity(vec![field("status", 10)], vec![collection()], Vec::new());
    facts.field_attrs = vec![(Some("serde".to_string()), 60), (Some("index".to_string()), 61)];
    let errors = parse_entity(&facts).unwrap_err();
    assert_eq!(errors[0].span, 61);
    assert_eq!(messages(errors), ["`#[index]` applies to the struct, not a field"]);
}

#[test]
fn index_keys_must_be_stored_fields() {
    let mut skipped = field("cache", 11);
    skipped.skip_serializing = true;
    skipped.skip_deserializing = true;
    let facts = entity(
        vec![field("status", 10), skipped],
        vec![collection()],
        vec![
            index("by_missing", &["missing"]),
            index("by_cache", &["cache"]),
            index("twice", &["status", "status"]),
            index("by_id", &["_id"]),
            index("fine", &["_id", "status"]),
        ],
    );
    assert_eq!(
        messages(parse_entity(&facts).unwrap_err()),
        [
            "`missing` is not a field of `Order`",
            "`cache` carries #[serde(skip)], so it is never stored and cannot be indexed",
            "`status` appears twice in this index's keys",
            "a one-key `_id` index restates the server's built-in `_id_` index. Remove it",
        ]
    );
}

#[test]
fn index_attributes_that_do_not_parse_are_reported_together() {
    let bad = IndexAttr::Tokens { tokens: vec![ident("keys", 70)], end: 71 };
    let malformed = IndexAttr::Malformed(AttrError { span: 72, message: "expected attribute arguments in parentheses".to_string() });
    let facts = entity(vec![field("status", 10)], vec![collection()], vec![bad, malformed]);
    let errors = parse_entity(&facts).unwrap_err();
    assert_eq!(errors.len(), 2);
    assert_eq!(errors[0].span, 70);
    assert_eq!(errors[1].message, "expected attribute arguments in parentheses");
}

#[test]
fn wildcard_key_paths() {
    let facts = entity(vec![field("attrs", 10)], vec![collection()], Vec::new());
    let model = parse_entity(&facts).unwrap();
    let key_tokens = vec![
        ident("attrs", 80),
        punct('=', 81),
        ident("wildcard", 82),
        punct(',', 83),
        ident("wildcard", 84),
        punct(',', 85),
        ident("_id", 86),
        punct('=', 87),
        Token::Literal { lit: Lit::Int { digits: "1".to_string(), suffix: String::new() }, span: 88 },
    ];
    let tokens = vec![
        ident("w", 90),
        punct(',', 91),
        ident("keys", 92),
        Token::Group { delimiter: Delimiter::Parenthesis, tokens: key_tokens, span: 93 },
    ];
    let decl = urva::index_attr::IndexDecl::parse(&tokens, 94).unwrap();
    let paths: Vec<String> = decl.keys.iter().map(|k| stored_key_path(&model.base, k)).collect();
    assert_eq!(paths, ["attrs.$**", "$**", "_id"]);
}

#[test]
fn a_partial_filter_on_a_skipped_field_is_refused() {
    let mut status = field("status", 11);
    status.skip_serializing = true;
    status.skip_deserializing = true;
    let open = IndexAttr::Tokens {
        tokens: vec![
            ident("open", 50),
            punct(',', 51),
            ident("keys", 52),
            Token::Group { delimiter: Delimiter::Parenthesis, tokens: vec![ident("x", 100)], span: 53 },
            punct(',', 54),
            ident("partial", 55),
            Token::Group {
                delimiter: Delimiter::Parenthesis,
                tokens: vec![ident("status", 60), punct('=', 61), Token::Literal { lit: Lit::Str("open".to_string()), span: 62 }],
                span: 63,
            },
        ],
        end: 64,
    };
    let errors = parse_entity(&entity(vec![field("x", 10), status], vec![collection()], vec![open])).unwrap_err();
    assert_eq!(errors[0].span, 60);
    assert_eq!(
        messages(errors),
        ["`status` carries #[serde(skip)], so it is never stored and cannot filter an index"]
    );
}

