use urva::index_attr::{
    AttrError, CollationDecl, Delimiter, IndexDecl, KeyKindDecl, Lit, Name, NumberLit, PartialDecl, PartialLit,
    Token,
};

struct Spans(usize);

impl Spans {
    fn next(&mut self) -> usize {
        self.0 += 1;
        self.0
    }
    fn ident(&mut self, name: &str) -> Token {
        Token::Ident { name: name.to_string(), raw: false, keyword: false, span: self.next() }
    }
    fn keyword(&mut self, name: &str) -> Token {
        Token::Ident { name: name.to_string(), raw: false, keyword: true, span: self.next() }
    }
    fn raw(&mut self, name: &str) -> Token {
        Token::Ident { name: name.to_string(), raw: true, keyword: false, span: self.next() }
    }
    fn punct(&mut self, ch: char) -> Token {
        Token::Punct { ch, span: self.next() }
    }
    fn integer(&mut self, digits: &str, suffix: &str) -> Token {
        Token::Literal {
            lit: Lit::Int { digits: digits.to_string(), suffix: suffix.to_string() },
            span: self.next(),
        }
    }
    fn float(&mut self, digits: &str) -> Token {
        Token::Literal { lit: Lit::Float { digits: digits.to_string(), suffix: String::new() }, span: self.next() }
    }
    fn string(&mut self, value: &str) -> Token {
        Token::Literal { lit: Lit::Str(value.to_string()), span: self.next() }
    }
    fn paren(&mut self, tokens: Vec<Token>) -> Token {
        Token::Group { delimiter: Delimiter::Parenthesis, tokens, span: self.next() }
    }
}

fn span_of(t: &Token) -> usize {
    match t {
        Token::Ident { span, .. } | Token::Punct { span, .. } | Token::Literal { span, .. } | Token::Group { span, .. } => {
            *span
        }
    }
}

/// `name, keys(status)` followed by the given option tokens.
fn with_options(s: &mut Spans, options: Vec<Token>) -> Vec<Token> {
    let mut ts = vec![s.ident("by_status"), s.punct(',')];
    ts.push(s.ident("keys"));
    let inner = vec![s.ident("status")];
    ts.push(s.paren(inner));
    ts.extend(options);
    ts
}

fn parse(ts: &Vec<Token>) -> Result<IndexDecl, AttrError> {
    IndexDecl::parse(ts, 0)
}

fn message(r: Result<IndexDecl, AttrError>) -> String {
    r.unwrap_err().message
}

#[test]
fn a_declaration_names_its_keys_and_kinds() {
    let mut s = Spans(0);
    let inner = vec![
        s.ident("tenant"),
        s.punct(','),
        s.ident("created"),
        s.punct('='),
        s.punct('-'),
        s.integer("1", ""),
        s.punct(','),
        s.ident("loc"),
        s.punct('='),
        s.integer("2", "dsphere"),
        s.punct(','),
        s.ident("body"),
        s.punct('='),
        s.ident("text"),
        s.punct(','),
        s.ident("wildcard"),
        s.punct(','),
    ];
    let ts = vec![s.ident("by_tenant"), s.punct(','), s.ident("keys"), s.paren(inner)];
    let decl = parse(&ts).unwrap();
    assert_eq!(decl.ident.text, "by_tenant");
    let kinds: Vec<KeyKindDecl> = decl.keys.iter().map(|k| k.kind).collect();
    assert_eq!(
        kinds,
        vec![KeyKindDecl::Asc, KeyKindDecl::Desc, KeyKindDecl::TwoDSphere, KeyKindDecl::Text, KeyKindDecl::WholeDocWildcard]
    );
    assert!(decl.keys[4].field.is_none());
    assert_eq!(decl.keys[1].field.as_ref().unwrap().text, "created");
    assert!(!decl.unique && decl.ttl.is_none() && decl.weights.is_empty());
}

#[test]
fn every_option_is_read() {
    let mut s = Spans(0);
    let weights = vec![s.ident("title"), s.punct('='), s.integer("10", ""), s.punct(','), s.ident("body"), s.punct('='), s.integer("2", "")];
    let collation = vec![s.ident("locale"), s.punct('='), s.string("en"), s.punct(','), s.ident("strength"), s.punct('='), s.integer("2", "")];
    let partial = vec![s.ident("status"), s.punct('='), s.string("open")];
    let options = vec![
        s.punct(','), s.ident("unique"),
        s.punct(','), s.ident("sparse"),
        s.punct(','), s.ident("hidden"),
        s.punct(','), s.ident("ttl"), s.punct('='), s.integer("3600", ""),
        s.punct(','), s.ident("weights"), s.paren(weights),
        s.punct(','), s.ident("collation"), s.paren(collation),
        s.punct(','), s.ident("partial"), s.paren(partial),
        s.punct(','), s.ident("wildcard_projection"), s.punct('='), s.string("{\"title\": 1}"),
        s.punct(','), s.ident("bits"), s.punct('='), s.integer("26", ""),
        s.punct(','), s.ident("min"), s.punct('='), s.punct('-'), s.float("180.0"),
        s.punct(','), s.ident("max"), s.punct('='), s.integer("180", ""),
        s.punct(','),
    ];
    let ts = with_options(&mut s, options);
    let decl = parse(&ts).unwrap();
    assert!(decl.unique && decl.sparse && decl.hidden);
    assert_eq!(decl.ttl.map(|t| t.0), Some(3600));
    let weights: Vec<(String, i32)> = decl.weights.iter().map(|(n, w)| (n.text.clone(), *w)).collect();
    assert_eq!(weights, vec![("title".to_string(), 10), ("body".to_string(), 2)]);
    assert_eq!(decl.collation, Some(CollationDecl { locale: "en".to_string(), strength: Some(2) }));
    match &decl.partial {
        Some(PartialDecl::Shorthand { field, value, .. }) => {
            assert_eq!(field.text, "status");
            assert_eq!(*value, PartialLit::Str("open".to_string()));
        }
        other => panic!("unexpected {other:?}"),
    }
    assert_eq!(decl.wildcard_projection.as_ref().map(|w| w.0.as_str()), Some("{\"title\": 1}"));
    assert_eq!(decl.bits.map(|b| b.0), Some(26));
    assert_eq!(decl.min.as_ref().map(|m| &m.0), Some(&NumberLit { negative: true, digits: "180.0".to_string(), float: true }));
    assert_eq!(decl.max.as_ref().map(|m| &m.0), Some(&NumberLit { negative: false, digits: "180".to_string(), float: false }));
}

#[test]
fn the_name_comes_first() {
    let mut s = Spans(0);
    let inner = vec![s.ident("status")];
    let ts = vec![s.ident("keys"), s.paren(inner)];
    assert_eq!(message(parse(&ts)), "missing the index name. Write `#[index(<name>, keys(...))]`");
    let ts = vec![s.integer("1", "")];
    assert_eq!(message(parse(&ts)), "missing the index name. Write `#[index(<name>, keys(...))]`");
    assert_eq!(message(parse(&Vec::new())), "missing the index name. Write `#[index(<name>, keys(...))]`");
}

#[test]
fn keys_follow_the_name() {
    let mut s = Spans(0);
    let ts = vec![s.ident("by_status")];
    assert_eq!(message(parse(&ts)), "expected `, keys(...)` after the index name");
    let ts = vec![s.ident("by_status"), s.punct(','), s.ident("fields"), s.paren(Vec::new())];
    let r = parse(&ts);
    let e = r.unwrap_err();
    assert_eq!(e.message, "expected `keys(...)`");
    assert_eq!(e.span, span_of(&ts[2]));
    let ts = vec![s.ident("by_status"), s.punct(','), s.ident("keys")];
    assert_eq!(message(parse(&ts)), "unexpected end of input, expected parentheses");
}

#[test]
fn unknown_key_kinds_and_options_are_named() {
    let mut s = Spans(0);
    let inner = vec![s.ident("status"), s.punct('='), s.ident("fuzzy")];
    let ts = vec![s.ident("i"), s.punct(','), s.ident("keys"), s.paren(inner)];
    assert_eq!(
        message(parse(&ts)),
        "unknown key type `fuzzy`. expected one of `1`, `-1`, `text`, `hashed`, `2dsphere`, `2d`, `wildcard`"
    );
    let inner = vec![s.ident("status"), s.punct('='), s.punct('-'), s.integer("2", "")];
    let ts = vec![s.ident("i"), s.punct(','), s.ident("keys"), s.paren(inner)];
    assert_eq!(message(parse(&ts)), "expected `-1`");
    let options = vec![s.punct(','), s.ident("clustered")];
    let ts = with_options(&mut s, options);
    assert_eq!(message(parse(&ts)), "unknown index option `clustered`");
    let options = vec![s.punct(','), s.raw("unique")];
    let ts = with_options(&mut s, options);
    assert_eq!(message(parse(&ts)), "unknown index option `r#unique`");
}

#[test]
fn weights_are_distinct_and_non_empty() {
    let mut s = Spans(0);
    let weights = vec![s.ident("title"), s.punct('='), s.integer("1", ""), s.punct(','), s.raw("title"), s.punct('='), s.integer("2", "")];
    let options = vec![s.punct(','), s.ident("weights"), s.paren(weights)];
    let ts = with_options(&mut s, options);
    assert_eq!(message(parse(&ts)), "duplicate weight for `title`");
    let options = vec![s.punct(','), s.ident("weights"), s.paren(Vec::new())];
    let ts = with_options(&mut s, options);
    assert_eq!(message(parse(&ts)), "weights(...) takes at least one `<field> = <n>`");
    let weights = vec![s.ident("title"), s.punct('='), s.integer("3000000000", "")];
    let options = vec![s.punct(','), s.ident("weights"), s.paren(weights)];
    let ts = with_options(&mut s, options);
    assert_eq!(message(parse(&ts)), "number too large to fit in target type");
}

#[test]
fn collation_rules() {
    let mut s = Spans(0);
    let collation = vec![s.ident("strength"), s.punct('='), s.integer("2", "")];
    let options = vec![s.punct(','), s.ident("collation"), s.paren(collation)];
    let ts = with_options(&mut s, options);
    assert_eq!(message(parse(&ts)), "collation(...) requires `locale = \"...\"`");
    let collation = vec![s.ident("locale"), s.punct('='), s.string("simple"), s.punct(','), s.ident("strength"), s.punct('='), s.integer("1", "")];
    let options = vec![s.punct(','), s.ident("collation"), s.paren(collation)];
    let ts = with_options(&mut s, options);
    assert_eq!(
        message(parse(&ts)),
        "`strength` has no effect with the `simple` locale. Remove `strength`, or pick a locale"
    );
    let collation = vec![s.ident("locale"), s.punct('='), s.string("fr"), s.punct(','), s.ident("strength"), s.punct('='), s.integer("6", "")];
    let options = vec![s.punct(','), s.ident("collation"), s.paren(collation)];
    let ts = with_options(&mut s, options);
    assert_eq!(message(parse(&ts)), "collation strength must be between 1 and 5");
    let collation = vec![s.ident("region"), s.punct('='), s.string("fr")];
    let options = vec![s.punct(','), s.ident("collation"), s.paren(collation)];
    let ts = with_options(&mut s, options);
    assert_eq!(message(parse(&ts)), "unknown collation option `region`. Expected `locale` or `strength`");
}

#[test]
fn partial_shorthand_rules() {
    let mut s = Spans(0);
    let partial = vec![s.ident("a"), s.punct('.'), s.ident("b"), s.punct('='), s.integer("1", "")];
    let options = vec![s.punct(','), s.ident("partial"), s.paren(partial)];
    let ts = with_options(&mut s, options);
    assert_eq!(
        message(parse(&ts)),
        "`partial(...)` takes a direct field. Use `partial_raw = \"...\"` for a dotted path"
    );
    let partial = vec![s.ident("a"), s.punct('='), s.punct('-'), s.string("x")];
    let options = vec![s.punct(','), s.ident("partial"), s.paren(partial)];
    let ts = with_options(&mut s, options);
    assert_eq!(message(parse(&ts)), "`-` applies to numbers only");
    let partial = vec![s.ident("a"), s.punct('='), s.integer("1", ""), s.punct(','), s.ident("b")];
    let options = vec![s.punct(','), s.ident("partial"), s.paren(partial)];
    let ts = with_options(&mut s, options);
    assert_eq!(
        message(parse(&ts)),
        "`partial(...)` takes exactly one `<field> = <literal>`. Use `partial_raw` for other filters"
    );
    let partial = vec![s.ident("a"), s.punct('='), s.punct('-'), s.integer("5", "i64")];
    let options = vec![s.punct(','), s.ident("partial"), s.paren(partial)];
    let ts = with_options(&mut s, options);
    let decl = parse(&ts).unwrap();
    assert!(matches!(decl.partial, Some(PartialDecl::Shorthand { value: PartialLit::Int(ref d), .. }) if d == "-5"));
    let partial = vec![s.ident("active"), s.punct('='), s.keyword("true")];
    let options = vec![s.punct(','), s.ident("partial"), s.paren(partial)];
    let ts = with_options(&mut s, options);
    let decl = parse(&ts).unwrap();
    assert!(matches!(decl.partial, Some(PartialDecl::Shorthand { value: PartialLit::Bool(true), .. })));
}

#[test]
fn options_are_separated_by_commas() {
    let mut s = Spans(0);
    let options = vec![s.ident("unique")];
    let ts = with_options(&mut s, options);
    assert_eq!(message(parse(&ts)), "expected `,`");
    let options = vec![s.punct(','), s.ident("ttl"), s.punct('='), s.string("1h")];
    let ts = with_options(&mut s, options);
    assert_eq!(message(parse(&ts)), "expected integer literal");
    let options = vec![s.punct(','), s.ident("ttl")];
    let ts = with_options(&mut s, options);
    let e = parse(&ts).unwrap_err();
    assert_eq!(e.message, "unexpected end of input, expected `=`");
    assert_eq!(e.span, 0);
}

#[test]
fn a_keyword_is_not_a_field_name() {
    let mut s = Spans(0);
    let inner = vec![s.keyword("type")];
    let ts = vec![s.ident("i"), s.punct(','), s.ident("keys"), s.paren(inner)];
    assert_eq!(message(parse(&ts)), "expected a field name or `wildcard`");
    let inner = vec![s.raw("type")];
    let ts = vec![s.ident("i"), s.punct(','), s.ident("keys"), s.paren(inner)];
    let decl = parse(&ts).unwrap();
    assert_eq!(decl.keys[0].field, Some(Name { text: "type".to_string(), raw: true, span: decl.keys[0].span }));
}
