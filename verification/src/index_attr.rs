//! The grammar of the `#[index(...)]` attribute: an index name, its keys,
//! then options, read from the attribute's tokens.
//!
//! A token is an identifier, a punctuation character, a literal or a
//! delimited group; each carries the number of its source span. A parse
//! failure names the span it points at and says what was wrong.
use vstd::prelude::*;

use crate::text::{owned, push_str, str_eq};

verus! {

broadcast use vstd::string::group_string_axioms;

/// How a group is delimited.
#[derive(Debug, PartialEq)]
pub enum Delimiter {
    Parenthesis,
    Brace,
    Bracket,
    Invisible,
}

/// A literal token.
#[derive(Debug, PartialEq)]
pub enum Lit {
    /// A string literal, by its value.
    Str(String),
    /// An integer literal: its decimal digits and its suffix.
    Int { digits: String, suffix: String },
    /// A floating-point literal: its digits and its suffix.
    Float { digits: String, suffix: String },
    /// Any other literal (character, byte, byte string).
    Other,
}

/// One token of an attribute.
#[derive(Debug, PartialEq)]
pub enum Token {
    /// An identifier, without any `r#`; `raw` when it was written with one;
    /// `keyword` when it is a reserved word (which does not parse as a name).
    Ident { name: String, raw: bool, keyword: bool, span: usize },
    /// One punctuation character.
    Punct { ch: char, span: usize },
    /// A literal.
    Literal { lit: Lit, span: usize },
    /// A delimited group; `span` is where input inside it ends.
    Group { delimiter: Delimiter, tokens: Vec<Token>, span: usize },
}

/// A parse failure: where, and what.
#[derive(Debug, PartialEq)]
pub struct AttrError {
    pub span: usize,
    pub message: String,
}

/// A parse failure, as plain values.
pub struct ErrV {
    pub span: usize,
    pub message: Seq<char>,
}

impl View for AttrError {
    type V = ErrV;

    open spec fn view(&self) -> ErrV {
        ErrV { span: self.span, message: self.message@ }
    }
}

/// A name as written: its text without `r#`, whether it had one, and its span.
#[derive(Debug, PartialEq)]
pub struct Name {
    pub text: String,
    pub raw: bool,
    pub span: usize,
}

pub struct NameV {
    pub text: Seq<char>,
    pub raw: bool,
    pub span: usize,
}

impl View for Name {
    type V = NameV;

    open spec fn view(&self) -> NameV {
        NameV { text: self.text@, raw: self.raw, span: self.span }
    }
}

/// The text a name displays as: with its `r#`, if it had one.
pub open spec fn shown(n: NameV) -> Seq<char> {
    if n.raw {
        "r#"@ + n.text
    } else {
        n.text
    }
}

/// The span of the token at `pos`, or the end of the input past the last one.
pub open spec fn span_at(ts: Seq<Token>, pos: int, end: usize) -> usize {
    if 0 <= pos < ts.len() {
        match ts[pos] {
            Token::Ident { span, .. } => span,
            Token::Punct { span, .. } => span,
            Token::Literal { span, .. } => span,
            Token::Group { span, .. } => span,
        }
    } else {
        end
    }
}

/// A failure that the token at `pos` is not what was expected; past the last
/// token it says the input ended.
pub open spec fn unexpected(ts: Seq<Token>, pos: int, end: usize, what: Seq<char>) -> ErrV {
    if 0 <= pos < ts.len() {
        ErrV { span: span_at(ts, pos, end), message: what }
    } else {
        ErrV { span: end, message: "unexpected end of input, "@ + what }
    }
}

/// The token at `pos` is the punctuation character `ch`.
pub open spec fn is_punct(ts: Seq<Token>, pos: int, ch: char) -> bool {
    0 <= pos < ts.len() && (ts[pos] matches Token::Punct { ch: c, .. } && c == ch)
}

/// The name at `pos`, if the token there is an identifier that is not a
/// reserved word.
pub open spec fn name_at(ts: Seq<Token>, pos: int) -> Option<NameV> {
    if 0 <= pos < ts.len() {
        match ts[pos] {
            Token::Ident { name, raw, keyword, span } => if keyword {
                None
            } else {
                Some(NameV { text: name@, raw, span })
            },
            _ => None,
        }
    } else {
        None
    }
}

/// What a failed identifier parse at `pos` says.
pub open spec fn not_a_name(ts: Seq<Token>, pos: int, end: usize) -> ErrV {
    if 0 <= pos < ts.len() && ts[pos] is Ident {
        ErrV { span: span_at(ts, pos, end), message: "expected identifier, found keyword `"@ + ts[pos]->Ident_name@ + "`"@ }
    } else {
        unexpected(ts, pos, end, "expected identifier"@)
    }
}

/// The name at `pos`, or what its absence says.
pub open spec fn parse_name(ts: Seq<Token>, pos: int, end: usize) -> Result<NameV, ErrV> {
    match name_at(ts, pos) {
        Some(n) => Ok(n),
        None => Err(not_a_name(ts, pos, end)),
    }
}

/// The integer literal at `pos` (digits, suffix, span), if there is one.
pub open spec fn int_at(ts: Seq<Token>, pos: int) -> Option<(Seq<char>, Seq<char>, usize)> {
    if 0 <= pos < ts.len() {
        match ts[pos] {
            Token::Literal { lit: Lit::Int { digits, suffix }, span } => Some((digits@, suffix@, span)),
            _ => None,
        }
    } else {
        None
    }
}

/// The string literal at `pos` (value, span), if there is one.
pub open spec fn str_at(ts: Seq<Token>, pos: int) -> Option<(Seq<char>, usize)> {
    if 0 <= pos < ts.len() {
        match ts[pos] {
            Token::Literal { lit: Lit::Str(v), span } => Some((v@, span)),
            _ => None,
        }
    } else {
        None
    }
}

/// The tokens and end of the parenthesized group at `pos`, if there is one.
pub open spec fn paren_at(ts: Seq<Token>, pos: int) -> Option<(Seq<Token>, usize)> {
    if 0 <= pos < ts.len() {
        match ts[pos] {
            Token::Group { delimiter: Delimiter::Parenthesis, tokens, span } => Some((tokens@, span)),
            _ => None,
        }
    } else {
        None
    }
}

/// The value of a string of decimal digits.
pub open spec fn decimal(digits: Seq<char>) -> int
    decreases digits.len(),
{
    if digits.len() == 0 {
        0
    } else {
        decimal(digits.drop_last()) * 10 + (digits.last() as int - '0' as int)
    }
}

/// All characters are decimal digits, and there is at least one.
pub open spec fn all_digits(digits: Seq<char>) -> bool {
    digits.len() > 0 && forall|i: int| 0 <= i < digits.len() ==> '0' <= #[trigger] digits[i] <= '9'
}

/// The failure of a number that does not fit its type.
pub open spec fn too_large(span: usize) -> ErrV {
    ErrV { span, message: "number too large to fit in target type"@ }
}

pub open spec fn invalid_digit(span: usize) -> ErrV {
    ErrV { span, message: "invalid digit found in string"@ }
}

/// A literal's digits read as a number of at most `max`.
pub open spec fn parse_bounded(digits: Seq<char>, span: usize, max: int) -> Result<int, ErrV> {
    if !all_digits(digits) {
        Err(invalid_digit(span))
    } else if decimal(digits) > max {
        Err(too_large(span))
    } else {
        Ok(decimal(digits))
    }
}

fn err(span: usize, message: &str) -> (e: AttrError)
    ensures
        e@ == (ErrV { span, message: message@ }),
{
    AttrError { span, message: owned(message) }
}

/// The span of the token at `pos`, or `end`.
fn span_of(ts: &Vec<Token>, pos: usize, end: usize) -> (s: usize)
    ensures
        s == span_at(ts@, pos as int, end),
{
    if pos < ts.len() {
        match &ts[pos] {
            Token::Ident { span, .. } => *span,
            Token::Punct { span, .. } => *span,
            Token::Literal { span, .. } => *span,
            Token::Group { span, .. } => *span,
        }
    } else {
        end
    }
}

fn unexpected_at(ts: &Vec<Token>, pos: usize, end: usize, what: &str) -> (e: AttrError)
    ensures
        e@ == unexpected(ts@, pos as int, end, what@),
{
    if pos < ts.len() {
        err(span_of(ts, pos, end), what)
    } else {
        let mut message = owned("unexpected end of input, ");
        push_str(&mut message, what);
        AttrError { span: end, message }
    }
}

fn punct_at(ts: &Vec<Token>, pos: usize, ch: char) -> (b: bool)
    ensures
        b == is_punct(ts@, pos as int, ch),
{
    if pos < ts.len() {
        match &ts[pos] {
            Token::Punct { ch: c, .. } => *c == ch,
            _ => false,
        }
    } else {
        false
    }
}

fn name_of(ts: &Vec<Token>, pos: usize, end: usize) -> (r: Result<Name, AttrError>)
    ensures
        match parse_name(ts@, pos as int, end) {
            Ok(n) => r matches Ok(x) && x@ == n,
            Err(e) => r matches Err(x) && x@ == e,
        },
{
    if pos < ts.len() {
        match &ts[pos] {
            Token::Ident { name, raw, keyword, span } => {
                if *keyword {
                    let mut message = owned("expected identifier, found keyword `");
                    push_str(&mut message, name.as_str());
                    push_str(&mut message, "`");
                    return Err(AttrError { span: *span, message });
                }
                return Ok(Name { text: name.clone(), raw: *raw, span: *span });
            },
            _ => {},
        }
    }
    Err(unexpected_at(ts, pos, end, "expected identifier"))
}

/// The name is written `word`, without `r#`.
fn name_is(n: &Name, word: &str) -> (b: bool)
    ensures
        b == (shown(n@) == word@),
{
    if n.raw {
        proof {
            reveal_strlit("r#");
            assert(shown(n@).len() >= 2 && shown(n@)[0] == 'r' && shown(n@)[1] == '#');
        }
        let cs = crate::text::chars_of(word);
        if cs.len() >= 2 && cs[0] == 'r' && cs[1] == '#' {
            let mut full = owned("r#");
            push_str(&mut full, n.text.as_str());
            return str_eq(full.as_str(), word);
        }
        proof {
            assert(shown(n@)[0] != word@[0] || shown(n@)[1] != word@[1] || word@.len() < 2);
        }
        false
    } else {
        str_eq(n.text.as_str(), word)
    }
}

/// The text a name displays as.
fn shown_text(n: &Name) -> (s: String)
    ensures
        s@ == shown(n@),
{
    if n.raw {
        let mut s = owned("r#");
        push_str(&mut s, n.text.as_str());
        s
    } else {
        n.text.clone()
    }
}

/// Reads decimal digits as a number of at most `max`.
fn read_bounded(digits: &str, span: usize, max: u64) -> (r: Result<u64, AttrError>)
    ensures
        match parse_bounded(digits@, span, max as int) {
            Ok(v) => r matches Ok(x) && x as int == v,
            Err(e) => r matches Err(x) && x@ == e,
        },
{
    let cs = crate::text::chars_of(digits);
    if cs.len() == 0 {
        return Err(err(span, "invalid digit found in string"));
    }
    let mut i: usize = 0;
    while i < cs.len()
        invariant
            cs@ == digits@,
            i <= cs@.len(),
            forall|j: int| 0 <= j < i ==> '0' <= #[trigger] cs@[j] <= '9',
        decreases cs.len() - i,
    {
        if cs[i] < '0' || cs[i] > '9' {
            assert(!all_digits(digits@));
            return Err(err(span, "invalid digit found in string"));
        }
        i = i + 1;
    }
    assert(all_digits(digits@));
    let mut value: u64 = 0;
    let mut i: usize = 0;
    while i < cs.len()
        invariant
            cs@ == digits@,
            all_digits(digits@),
            i <= cs@.len(),
            value == decimal(cs@.take(i as int)),
            value <= max,
        decreases cs.len() - i,
    {
        let d = (cs[i] as u32 - '0' as u32) as u64;
        assert(cs@.take(i + 1).drop_last() =~= cs@.take(i as int));
        assert(cs@.take(i + 1).last() == cs@[i as int]);
        assert(decimal(cs@.take(i + 1)) == decimal(cs@.take(i as int)) * 10 + d);
        if d > max || value > (max - d) / 10 {
            proof {
                lemma_decimal_grows(cs@, i as int + 1);
                if d <= max {
                    assert(decimal(cs@.take(i + 1)) > max) by (nonlinear_arith)
                        requires
                            value > (max - d) / 10,
                            decimal(cs@.take(i + 1)) == value * 10 + d,
                            d <= max,
                            0 <= d,
                    ;
                }
            }
            return Err(err(span, "number too large to fit in target type"));
        }
        assert(value * 10 + d <= max) by (nonlinear_arith)
            requires
                value <= (max - d) / 10,
                d <= max,
                0 <= value,
        ;
        value = value * 10 + d;
        i = i + 1;
    }
    assert(cs@.take(i as int) =~= cs@);
    Ok(value)
}

/// Taking more digits never makes the value smaller.
proof fn lemma_decimal_grows(digits: Seq<char>, n: int)
    requires
        all_digits(digits),
        0 <= n <= digits.len(),
    ensures
        decimal(digits.take(n)) <= decimal(digits),
    decreases digits.len() - n,
{
    if n < digits.len() {
        lemma_decimal_grows(digits, n + 1);
        assert(digits.take(n + 1).drop_last() =~= digits.take(n));
        assert('0' <= digits[n] <= '9');
        assert(decimal(digits.take(n)) >= 0) by {
            lemma_decimal_nonneg(digits.take(n));
        }
    } else {
        assert(digits.take(n) =~= digits);
    }
}

proof fn lemma_decimal_nonneg(digits: Seq<char>)
    requires
        forall|i: int| 0 <= i < digits.len() ==> '0' <= #[trigger] digits[i] <= '9',
    ensures
        decimal(digits) >= 0,
    decreases digits.len(),
{
    if digits.len() > 0 {
        lemma_decimal_nonneg(digits.drop_last());
        assert(digits.last() == digits[digits.len() - 1]);
    }
}

/// What a key of an index declaration indexes by.
#[derive(PartialEq, Eq, Structural, Clone, Copy, Debug)]
pub enum KeyKindDecl {
    Asc,
    Desc,
    Text,
    Hashed,
    TwoDSphere,
    TwoD,
    FieldWildcard,
    WholeDocWildcard,
}

/// One key of an index declaration: its field (none for a whole-document
/// wildcard), its kind, and where it was written.
#[derive(Debug, PartialEq)]
pub struct KeyDecl {
    pub field: Option<Name>,
    pub kind: KeyKindDecl,
    pub span: usize,
}

pub struct KeyV {
    pub field: Option<NameV>,
    pub kind: KeyKindDecl,
    pub span: usize,
}

impl View for KeyDecl {
    type V = KeyV;

    open spec fn view(&self) -> KeyV {
        KeyV {
            field: match self.field {
                Some(n) => Some(n@),
                None => None,
            },
            kind: self.kind,
            span: self.span,
        }
    }
}

/// The key kinds, as the failures list them.
pub open spec fn key_kinds_text() -> Seq<char> {
    "expected one of `1`, `-1`, `text`, `hashed`, `2dsphere`, `2d`, `wildcard`"@
}

/// The kind of a key written at `pos` (after its `=`), and where it ends:
/// `1`, `-1`, `2dsphere`, `2d`, `text`, `hashed` or `wildcard`.
pub open spec fn key_kind_spec(ts: Seq<Token>, pos: int, end: usize) -> Result<(KeyKindDecl, int), ErrV> {
    if is_punct(ts, pos, '-') {
        match int_at(ts, pos + 1) {
            Some((digits, suffix, span)) => if digits == "1"@ && suffix == ""@ {
                Ok((KeyKindDecl::Desc, pos + 2))
            } else {
                Err(ErrV { span, message: "expected `-1`"@ })
            },
            None => Err(unexpected(ts, pos + 1, end, "expected integer literal"@)),
        }
    } else if int_at(ts, pos) is Some {
        let (digits, suffix, span) = int_at(ts, pos)->0;
        if digits == "1"@ && suffix == ""@ {
            Ok((KeyKindDecl::Asc, pos + 1))
        } else if digits == "2"@ && suffix == "dsphere"@ {
            Ok((KeyKindDecl::TwoDSphere, pos + 1))
        } else if digits == "2"@ && suffix == "d"@ {
            Ok((KeyKindDecl::TwoD, pos + 1))
        } else {
            Err(ErrV { span, message: key_kinds_text() })
        }
    } else {
        match name_at(ts, pos) {
            None => Err(ErrV { span: span_at(ts, pos, end), message: key_kinds_text() }),
            Some(n) => if shown(n) == "text"@ {
                Ok((KeyKindDecl::Text, pos + 1))
            } else if shown(n) == "hashed"@ {
                Ok((KeyKindDecl::Hashed, pos + 1))
            } else if shown(n) == "wildcard"@ {
                Ok((KeyKindDecl::FieldWildcard, pos + 1))
            } else {
                Err(ErrV { span: n.span, message: "unknown key type `"@ + shown(n) + "`. "@ + key_kinds_text() })
            },
        }
    }
}

/// A key written at `pos`, and where it ends: `wildcard` alone is a
/// whole-document wildcard; a field, with `= kind` or ascending without.
pub open spec fn key_spec(ts: Seq<Token>, pos: int, end: usize) -> Result<(KeyV, int), ErrV> {
    match name_at(ts, pos) {
        None => Err(ErrV { span: span_at(ts, pos, end), message: "expected a field name or `wildcard`"@ }),
        Some(f) => if shown(f) == "wildcard"@ && !is_punct(ts, pos + 1, '=') {
            Ok((KeyV { field: None, kind: KeyKindDecl::WholeDocWildcard, span: f.span }, pos + 1))
        } else if is_punct(ts, pos + 1, '=') {
            match key_kind_spec(ts, pos + 2, end) {
                Ok((kind, next)) => Ok((KeyV { field: Some(f), kind, span: f.span }, next)),
                Err(e) => Err(e),
            }
        } else {
            Ok((KeyV { field: Some(f), kind: KeyKindDecl::Asc, span: f.span }, pos + 1))
        },
    }
}

/// The value of a partial filter's integer literal, from its decimal digits:
/// the number when it fits in `i64`, or why it does not.
pub fn partial_int(digits: &str) -> (r: Result<i64, String>)
    ensures
        match parse_bounded(digits@, 0, i64::MAX as int) {
            Ok(v) => r matches Ok(x) && x as int == v,
            Err(e) => r matches Err(m) && m@ == e.message,
        },
{
    match read_bounded(digits, 0, i64::MAX as u64) {
        Ok(v) => Ok(v as i64),
        Err(e) => Err(e.message),
    }
}

fn int_of(ts: &Vec<Token>, pos: usize) -> (r: Option<(&String, &String, usize)>)
    ensures
        match int_at(ts@, pos as int) {
            Some((d, s, sp)) => r matches Some(x) && x.0@ == d && x.1@ == s && x.2 == sp,
            None => r is None,
        },
{
    if pos < ts.len() {
        match &ts[pos] {
            Token::Literal { lit: Lit::Int { digits, suffix }, span } => Some((digits, suffix, *span)),
            _ => None,
        }
    } else {
        None
    }
}

/// Reads the kind of a key at `pos`; see [`key_kind_spec`].
pub fn parse_key_kind(ts: &Vec<Token>, pos: usize, end: usize) -> (r: Result<(KeyKindDecl, usize), AttrError>)
    requires
        pos < usize::MAX - 1,
    ensures
        match key_kind_spec(ts@, pos as int, end) {
            Ok((k, next)) => r matches Ok(x) && x.0 == k && x.1 == next,
            Err(e) => r matches Err(x) && x@ == e,
        },
{
    if punct_at(ts, pos, '-') {
        return match int_of(ts, pos + 1) {
            Some((digits, suffix, span)) => {
                if str_eq(digits.as_str(), "1") && str_eq(suffix.as_str(), "") {
                    Ok((KeyKindDecl::Desc, pos + 2))
                } else {
                    Err(err(span, "expected `-1`"))
                }
            },
            None => Err(unexpected_at(ts, pos + 1, end, "expected integer literal")),
        };
    }
    match int_of(ts, pos) {
        Some((digits, suffix, span)) => {
            return if str_eq(digits.as_str(), "1") && str_eq(suffix.as_str(), "") {
                Ok((KeyKindDecl::Asc, pos + 1))
            } else if str_eq(digits.as_str(), "2") && str_eq(suffix.as_str(), "dsphere") {
                Ok((KeyKindDecl::TwoDSphere, pos + 1))
            } else if str_eq(digits.as_str(), "2") && str_eq(suffix.as_str(), "d") {
                Ok((KeyKindDecl::TwoD, pos + 1))
            } else {
                Err(err(span, "expected one of `1`, `-1`, `text`, `hashed`, `2dsphere`, `2d`, `wildcard`"))
            };
        },
        None => {},
    }
    let n = match name_of(ts, pos, end) {
        Ok(n) => n,
        Err(_) => {
            return Err(err(span_of(ts, pos, end), "expected one of `1`, `-1`, `text`, `hashed`, `2dsphere`, `2d`, `wildcard`"));
        },
    };
    if name_is(&n, "text") {
        Ok((KeyKindDecl::Text, pos + 1))
    } else if name_is(&n, "hashed") {
        Ok((KeyKindDecl::Hashed, pos + 1))
    } else if name_is(&n, "wildcard") {
        Ok((KeyKindDecl::FieldWildcard, pos + 1))
    } else {
        let mut message = owned("unknown key type `");
        push_str(&mut message, shown_text(&n).as_str());
        push_str(&mut message, "`. ");
        push_str(&mut message, "expected one of `1`, `-1`, `text`, `hashed`, `2dsphere`, `2d`, `wildcard`");
        Err(AttrError { span: n.span, message })
    }
}

/// Reads a key at `pos`; see [`key_spec`].
pub fn parse_key(ts: &Vec<Token>, pos: usize, end: usize) -> (r: Result<(KeyDecl, usize), AttrError>)
    requires
        pos < usize::MAX - 3,
    ensures
        match key_spec(ts@, pos as int, end) {
            Ok((k, next)) => r matches Ok(x) && x.0@ == k && x.1 == next,
            Err(e) => r matches Err(x) && x@ == e,
        },
{
    let field = match name_of(ts, pos, end) {
        Ok(n) => n,
        Err(_) => {
            return Err(err(span_of(ts, pos, end), "expected a field name or `wildcard`"));
        },
    };
    let span = field.span;
    if name_is(&field, "wildcard") && !punct_at(ts, pos + 1, '=') {
        return Ok((KeyDecl { field: None, kind: KeyKindDecl::WholeDocWildcard, span }, pos + 1));
    }
    if punct_at(ts, pos + 1, '=') {
        match parse_key_kind(ts, pos + 2, end) {
            Ok((kind, next)) => Ok((KeyDecl { field: Some(field), kind, span }, next)),
            Err(e) => Err(e),
        }
    } else {
        Ok((KeyDecl { field: Some(field), kind: KeyKindDecl::Asc, span }, pos + 1))
    }
}

/// A key read at `pos` ends after it, within the input.
pub proof fn lemma_key_advances(ts: Seq<Token>, pos: int, end: usize)
    requires
        key_spec(ts, pos, end) is Ok,
    ensures
        pos < key_spec(ts, pos, end)->Ok_0.1 <= ts.len(),
{
    if is_punct(ts, pos + 1, '=') && key_spec(ts, pos, end)->Ok_0.0.kind != KeyKindDecl::WholeDocWildcard {
        if is_punct(ts, pos + 2, '-') {
        } else if int_at(ts, pos + 2) is Some {
        } else {
        }
    }
}

/// The literal of a `partial(field = literal)` shorthand; a negative number
/// has a `-` before its digits.
#[derive(Debug, PartialEq)]
pub enum PartialLit {
    Str(String),
    Int(String),
    Float(String),
    Bool(bool),
    Other,
}

pub enum PartialLitV {
    Str(Seq<char>),
    Int(Seq<char>),
    Float(Seq<char>),
    Bool(bool),
    Other,
}

impl View for PartialLit {
    type V = PartialLitV;

    open spec fn view(&self) -> PartialLitV {
        match self {
            PartialLit::Str(s) => PartialLitV::Str(s@),
            PartialLit::Int(d) => PartialLitV::Int(d@),
            PartialLit::Float(d) => PartialLitV::Float(d@),
            PartialLit::Bool(b) => PartialLitV::Bool(*b),
            PartialLit::Other => PartialLitV::Other,
        }
    }
}

/// The partial filter of an index: a one-field equality, or a JSON document.
#[derive(Debug, PartialEq)]
pub enum PartialDecl {
    Shorthand { field: Name, value: PartialLit, value_span: usize },
    Raw { json: String, span: usize },
}

pub enum PartialV {
    Shorthand { field: NameV, value: PartialLitV, value_span: usize },
    Raw { json: Seq<char>, span: usize },
}

impl View for PartialDecl {
    type V = PartialV;

    open spec fn view(&self) -> PartialV {
        match self {
            PartialDecl::Shorthand { field, value, value_span } => PartialV::Shorthand {
                field: field@,
                value: value@,
                value_span: *value_span,
            },
            PartialDecl::Raw { json, span } => PartialV::Raw { json: json@, span: *span },
        }
    }
}

/// A collation: its locale, and its strength level (1 to 5) if given.
#[derive(Debug, PartialEq)]
pub struct CollationDecl {
    pub locale: String,
    pub strength: Option<u8>,
}

pub struct CollationV {
    pub locale: Seq<char>,
    pub strength: Option<u8>,
}

impl View for CollationDecl {
    type V = CollationV;

    open spec fn view(&self) -> CollationV {
        CollationV { locale: self.locale@, strength: self.strength }
    }
}

/// A number as written: its sign, its digits, and whether it is a float.
#[derive(Debug, PartialEq)]
pub struct NumberLit {
    pub negative: bool,
    pub digits: String,
    pub float: bool,
}

pub struct NumberV {
    pub negative: bool,
    pub digits: Seq<char>,
    pub float: bool,
}

impl View for NumberLit {
    type V = NumberV;

    open spec fn view(&self) -> NumberV {
        NumberV { negative: self.negative, digits: self.digits@, float: self.float }
    }
}

/// An `#[index(...)]` declaration. Options that carry a value keep the span
/// of the option's name.
#[derive(Debug, PartialEq)]
pub struct IndexDecl {
    pub ident: Name,
    pub keys: Vec<KeyDecl>,
    pub unique: bool,
    pub sparse: bool,
    pub hidden: bool,
    pub ttl: Option<(u64, usize)>,
    pub partial: Option<PartialDecl>,
    pub weights: Vec<(Name, i32)>,
    pub collation: Option<CollationDecl>,
    pub wildcard_projection: Option<(String, usize)>,
    pub bits: Option<(u32, usize)>,
    pub min: Option<(NumberLit, usize)>,
    pub max: Option<(NumberLit, usize)>,
}

pub struct DeclV {
    pub ident: NameV,
    pub keys: Seq<KeyV>,
    pub unique: bool,
    pub sparse: bool,
    pub hidden: bool,
    pub ttl: Option<(u64, usize)>,
    pub partial: Option<PartialV>,
    pub weights: Seq<(NameV, i32)>,
    pub collation: Option<CollationV>,
    pub wildcard_projection: Option<(Seq<char>, usize)>,
    pub bits: Option<(u32, usize)>,
    pub min: Option<(NumberV, usize)>,
    pub max: Option<(NumberV, usize)>,
}

pub open spec fn keys_view(keys: Seq<KeyDecl>) -> Seq<KeyV> {
    keys.map_values(|k: KeyDecl| k@)
}

pub open spec fn weights_view(weights: Seq<(Name, i32)>) -> Seq<(NameV, i32)> {
    weights.map_values(|w: (Name, i32)| (w.0@, w.1))
}

impl View for IndexDecl {
    type V = DeclV;

    open spec fn view(&self) -> DeclV {
        DeclV {
            ident: self.ident@,
            keys: keys_view(self.keys@),
            unique: self.unique,
            sparse: self.sparse,
            hidden: self.hidden,
            ttl: self.ttl,
            partial: match self.partial {
                Some(p) => Some(p@),
                None => None,
            },
            weights: weights_view(self.weights@),
            collation: match self.collation {
                Some(c) => Some(c@),
                None => None,
            },
            wildcard_projection: match self.wildcard_projection {
                Some((s, sp)) => Some((s@, sp)),
                None => None,
            },
            bits: self.bits,
            min: match self.min {
                Some((n, sp)) => Some((n@, sp)),
                None => None,
            },
            max: match self.max {
                Some((n, sp)) => Some((n@, sp)),
                None => None,
            },
        }
    }
}

/// `=` at `pos`, or the failure that it is missing.
pub open spec fn expect_eq(ts: Seq<Token>, pos: int, end: usize) -> Result<(), ErrV> {
    if is_punct(ts, pos, '=') {
        Ok(())
    } else {
        Err(unexpected(ts, pos, end, "expected `=`"@))
    }
}

/// The literal at `pos` read as a partial filter's value, with its span.
pub open spec fn lit_at(ts: Seq<Token>, pos: int) -> Option<(PartialLitV, usize)> {
    if 0 <= pos < ts.len() {
        match ts[pos] {
            Token::Literal { lit, span } => Some((
                match lit {
                    Lit::Str(v) => PartialLitV::Str(v@),
                    Lit::Int { digits, .. } => PartialLitV::Int(digits@),
                    Lit::Float { digits, .. } => PartialLitV::Float(digits@),
                    Lit::Other => PartialLitV::Other,
                },
                span,
            )),
            Token::Ident { name, raw, keyword, span } => if !raw && keyword && name@ == "true"@ {
                Some((PartialLitV::Bool(true), span))
            } else if !raw && keyword && name@ == "false"@ {
                Some((PartialLitV::Bool(false), span))
            } else {
                None
            },
            _ => None,
        }
    } else {
        None
    }
}

/// The inside of `partial(...)`: one field, `=`, and a literal, which may be
/// a negative number.
pub open spec fn partial_spec(ts: Seq<Token>, end: usize) -> Result<PartialV, ErrV> {
    match parse_name(ts, 0, end) {
        Err(e) => Err(e),
        Ok(f) => if is_punct(ts, 1, '.') {
            Err(ErrV { span: f.span, message: "`partial(...)` takes a direct field. Use `partial_raw = \"...\"` for a dotted path"@ })
        } else if !is_punct(ts, 1, '=') {
            Err(unexpected(ts, 1, end, "expected `=`"@))
        } else {
            let negative = is_punct(ts, 2, '-');
            let q: int = if negative { 3 } else { 2 };
            match lit_at(ts, q) {
                None => Err(unexpected(ts, q, end, "expected literal"@)),
                Some((lit, span)) => {
                    let value = if !negative {
                        Ok(lit)
                    } else {
                        match lit {
                            PartialLitV::Int(d) => Ok(PartialLitV::Int("-"@ + d)),
                            PartialLitV::Float(d) => Ok(PartialLitV::Float("-"@ + d)),
                            _ => Err(ErrV { span, message: "`-` applies to numbers only"@ }),
                        }
                    };
                    match value {
                        Err(e) => Err(e),
                        Ok(v) => if q + 1 < ts.len() {
                            Err(ErrV {
                                span: span_at(ts, q + 1, end),
                                message: "`partial(...)` takes exactly one `<field> = <literal>`. Use `partial_raw` for other filters"@,
                            })
                        } else {
                            Ok(PartialV::Shorthand { field: f, value: v, value_span: span })
                        },
                    }
                },
            }
        },
    }
}

/// The list inside `weights(...)` from `pos`, after the weights `acc` read so
/// far: `field = n` items separated by commas, no field twice, each weight at
/// most `i32::MAX`.
pub open spec fn weights_spec(ts: Seq<Token>, pos: int, end: usize, acc: Seq<(NameV, i32)>) -> Result<Seq<(NameV, i32)>, ErrV>
    decreases ts.len() - pos,
{
    if pos >= ts.len() || pos < 0 {
        Ok(acc)
    } else {
        match parse_name(ts, pos, end) {
            Err(e) => Err(e),
            Ok(f) => if !is_punct(ts, pos + 1, '=') {
                Err(unexpected(ts, pos + 1, end, "expected `=`"@))
            } else {
                match int_at(ts, pos + 2) {
                    None => Err(unexpected(ts, pos + 2, end, "expected integer literal"@)),
                    Some((digits, _, span)) => if exists|j: int| 0 <= j < acc.len() && #[trigger] acc[j].0.text == f.text {
                        Err(ErrV { span: f.span, message: "duplicate weight for `"@ + f.text + "`"@ })
                    } else {
                        match parse_bounded(digits, span, i32::MAX as int) {
                            Err(e) => Err(e),
                            Ok(v) => {
                                let acc2 = acc.push((f, v as i32));
                                if pos + 3 >= ts.len() {
                                    Ok(acc2)
                                } else if is_punct(ts, pos + 3, ',') {
                                    weights_spec(ts, pos + 4, end, acc2)
                                } else {
                                    Err(unexpected(ts, pos + 3, end, "expected `,`"@))
                                }
                            },
                        }
                    },
                }
            },
        }
    }
}

/// The strength level of a collation strength literal.
pub open spec fn strength_level(digits: Seq<char>) -> Option<u8> {
    if digits == "1"@ {
        Some(1u8)
    } else if digits == "2"@ {
        Some(2u8)
    } else if digits == "3"@ {
        Some(3u8)
    } else if digits == "4"@ {
        Some(4u8)
    } else if digits == "5"@ {
        Some(5u8)
    } else {
        None
    }
}

/// The list inside `collation(...)` from `pos`, after the locale and
/// strength read so far: `locale = "..."` and `strength = 1..5` items
/// separated by commas; a later item overrides an earlier one.
pub open spec fn collation_items(
    ts: Seq<Token>,
    pos: int,
    end: usize,
    locale: Option<Seq<char>>,
    strength: Option<(u8, usize)>,
) -> Result<(Option<Seq<char>>, Option<(u8, usize)>), ErrV>
    decreases ts.len() - pos,
{
    if pos >= ts.len() || pos < 0 {
        Ok((locale, strength))
    } else {
        match parse_name(ts, pos, end) {
            Err(e) => Err(e),
            Ok(k) => if !is_punct(ts, pos + 1, '=') {
                Err(unexpected(ts, pos + 1, end, "expected `=`"@))
            } else {
                let item: Result<(Option<Seq<char>>, Option<(u8, usize)>), ErrV> = if shown(k) == "locale"@ {
                    match str_at(ts, pos + 2) {
                        Some((v, _)) => Ok((Some(v), strength)),
                        None => Err(unexpected(ts, pos + 2, end, "expected string literal"@)),
                    }
                } else if shown(k) == "strength"@ {
                    match int_at(ts, pos + 2) {
                        Some((digits, _, span)) => match strength_level(digits) {
                            Some(l) => Ok((locale, Some((l, span)))),
                            None => Err(ErrV { span, message: "collation strength must be between 1 and 5"@ }),
                        },
                        None => Err(unexpected(ts, pos + 2, end, "expected integer literal"@)),
                    }
                } else {
                    Err(ErrV { span: k.span, message: "unknown collation option `"@ + shown(k) + "`. Expected `locale` or `strength`"@ })
                };
                match item {
                    Err(e) => Err(e),
                    Ok((l2, s2)) => if pos + 3 >= ts.len() {
                        Ok((l2, s2))
                    } else if is_punct(ts, pos + 3, ',') {
                        collation_items(ts, pos + 4, end, l2, s2)
                    } else {
                        Err(unexpected(ts, pos + 3, end, "expected `,`"@))
                    },
                }
            },
        }
    }
}

/// The inside of `collation(...)`, for the option named at `name_span`: a
/// locale is required, and the `simple` locale takes no strength.
pub open spec fn collation_spec(ts: Seq<Token>, end: usize, name_span: usize) -> Result<CollationV, ErrV> {
    match collation_items(ts, 0, end, None, None) {
        Err(e) => Err(e),
        Ok((None, _)) => Err(ErrV { span: name_span, message: "collation(...) requires `locale = \"...\"`"@ }),
        Ok((Some(locale), strength)) => if locale == "simple"@ && strength is Some {
            let (_, span) = strength.unwrap();
            Err(ErrV {
                span,
                message: "`strength` has no effect with the `simple` locale. Remove `strength`, or pick a locale"@,
            })
        } else {
            Ok(CollationV {
                locale,
                strength: match strength {
                    Some((l, _)) => Some(l),
                    None => None,
                },
            })
        },
    }
}

/// The float literal at `pos` (digits, span), if there is one.
pub open spec fn float_at(ts: Seq<Token>, pos: int) -> Option<Seq<char>> {
    if 0 <= pos < ts.len() {
        match ts[pos] {
            Token::Literal { lit: Lit::Float { digits, .. }, .. } => Some(digits@),
            _ => None,
        }
    } else {
        None
    }
}

/// A number at `pos`, with an optional `-` before it, and where it ends.
pub open spec fn number_spec(ts: Seq<Token>, pos: int, end: usize) -> Result<(NumberV, int), ErrV> {
    let negative = is_punct(ts, pos, '-');
    let q: int = if negative { pos + 1 } else { pos };
    match float_at(ts, q) {
        Some(d) => Ok((NumberV { negative, digits: d, float: true }, q + 1)),
        None => match int_at(ts, q) {
            Some((d, _, _)) => Ok((NumberV { negative, digits: d, float: false }, q + 1)),
            None => Err(unexpected(ts, q, end, "expected integer literal"@)),
        },
    }
}

/// An option at `pos` applied to the declaration `d`, and where it ends.
pub open spec fn option_spec(ts: Seq<Token>, pos: int, end: usize, d: DeclV) -> Result<(DeclV, int), ErrV> {
    match name_at(ts, pos) {
        None => Err(ErrV { span: span_at(ts, pos, end), message: "expected an index option"@ }),
        Some(n) => {
            let name = shown(n);
            let p = pos + 1;
            if name == "unique"@ {
                Ok((DeclV { unique: true, ..d }, p))
            } else if name == "sparse"@ {
                Ok((DeclV { sparse: true, ..d }, p))
            } else if name == "hidden"@ {
                Ok((DeclV { hidden: true, ..d }, p))
            } else if name == "ttl"@ || name == "bits"@ {
                if !is_punct(ts, p, '=') {
                    Err(unexpected(ts, p, end, "expected `=`"@))
                } else {
                    match int_at(ts, p + 1) {
                        None => Err(unexpected(ts, p + 1, end, "expected integer literal"@)),
                        Some((digits, _, span)) => if name == "ttl"@ {
                            match parse_bounded(digits, span, u64::MAX as int) {
                                Err(e) => Err(e),
                                Ok(v) => Ok((DeclV { ttl: Some((v as u64, n.span)), ..d }, p + 2)),
                            }
                        } else {
                            match parse_bounded(digits, span, u32::MAX as int) {
                                Err(e) => Err(e),
                                Ok(v) => Ok((DeclV { bits: Some((v as u32, n.span)), ..d }, p + 2)),
                            }
                        },
                    }
                }
            } else if name == "partial"@ || name == "weights"@ || name == "collation"@ {
                match paren_at(ts, p) {
                    None => Err(unexpected(ts, p, end, "expected parentheses"@)),
                    Some((inner, inner_end)) => if name == "partial"@ {
                        match partial_spec(inner, inner_end) {
                            Err(e) => Err(e),
                            Ok(pv) => Ok((DeclV { partial: Some(pv), ..d }, p + 1)),
                        }
                    } else if name == "weights"@ {
                        match weights_spec(inner, 0, inner_end, Seq::empty()) {
                            Err(e) => Err(e),
                            Ok(w) => if w.len() == 0 {
                                Err(ErrV { span: n.span, message: "weights(...) takes at least one `<field> = <n>`"@ })
                            } else {
                                Ok((DeclV { weights: w, ..d }, p + 1))
                            },
                        }
                    } else {
                        match collation_spec(inner, inner_end, n.span) {
                            Err(e) => Err(e),
                            Ok(c) => Ok((DeclV { collation: Some(c), ..d }, p + 1)),
                        }
                    },
                }
            } else if name == "partial_raw"@ || name == "wildcard_projection"@ {
                if !is_punct(ts, p, '=') {
                    Err(unexpected(ts, p, end, "expected `=`"@))
                } else {
                    match str_at(ts, p + 1) {
                        None => Err(unexpected(ts, p + 1, end, "expected string literal"@)),
                        Some((v, span)) => if name == "partial_raw"@ {
                            Ok((DeclV { partial: Some(PartialV::Raw { json: v, span }), ..d }, p + 2))
                        } else {
                            Ok((DeclV { wildcard_projection: Some((v, span)), ..d }, p + 2))
                        },
                    }
                }
            } else if name == "min"@ || name == "max"@ {
                if !is_punct(ts, p, '=') {
                    Err(unexpected(ts, p, end, "expected `=`"@))
                } else {
                    match number_spec(ts, p + 1, end) {
                        Err(e) => Err(e),
                        Ok((num, next)) => if name == "min"@ {
                            Ok((DeclV { min: Some((num, n.span)), ..d }, next))
                        } else {
                            Ok((DeclV { max: Some((num, n.span)), ..d }, next))
                        },
                    }
                }
            } else {
                Err(ErrV { span: n.span, message: "unknown index option `"@ + name + "`"@ })
            }
        },
    }
}

fn str_of(ts: &Vec<Token>, pos: usize) -> (r: Option<(&String, usize)>)
    ensures
        match str_at(ts@, pos as int) {
            Some((v, sp)) => r matches Some(x) && x.0@ == v && x.1 == sp,
            None => r is None,
        },
{
    if pos < ts.len() {
        match &ts[pos] {
            Token::Literal { lit: Lit::Str(v), span } => Some((v, *span)),
            _ => None,
        }
    } else {
        None
    }
}

fn paren_of(ts: &Vec<Token>, pos: usize) -> (r: Option<(&Vec<Token>, usize)>)
    ensures
        match paren_at(ts@, pos as int) {
            Some((inner, sp)) => r matches Some(x) && x.0@ == inner && x.1 == sp,
            None => r is None,
        },
{
    if pos < ts.len() {
        match &ts[pos] {
            Token::Group { delimiter: Delimiter::Parenthesis, tokens, span } => Some((tokens, *span)),
            _ => None,
        }
    } else {
        None
    }
}

fn float_of(ts: &Vec<Token>, pos: usize) -> (r: Option<&String>)
    ensures
        match float_at(ts@, pos as int) {
            Some(d) => r matches Some(x) && x@ == d,
            None => r is None,
        },
{
    if pos < ts.len() {
        match &ts[pos] {
            Token::Literal { lit: Lit::Float { digits, .. }, .. } => Some(digits),
            _ => None,
        }
    } else {
        None
    }
}

fn lit_of(ts: &Vec<Token>, pos: usize) -> (r: Option<(PartialLit, usize)>)
    ensures
        match lit_at(ts@, pos as int) {
            Some((v, sp)) => r matches Some(x) && x.0@ == v && x.1 == sp,
            None => r is None,
        },
{
    if pos < ts.len() {
        match &ts[pos] {
            Token::Literal { lit, span } => {
                let v = match lit {
                    Lit::Str(v) => PartialLit::Str(v.clone()),
                    Lit::Int { digits, .. } => PartialLit::Int(digits.clone()),
                    Lit::Float { digits, .. } => PartialLit::Float(digits.clone()),
                    Lit::Other => PartialLit::Other,
                };
                Some((v, *span))
            },
            Token::Ident { name, raw, keyword, span } => {
                if !*raw && *keyword && str_eq(name.as_str(), "true") {
                    Some((PartialLit::Bool(true), *span))
                } else if !*raw && *keyword && str_eq(name.as_str(), "false") {
                    Some((PartialLit::Bool(false), *span))
                } else {
                    None
                }
            },
            _ => None,
        }
    } else {
        None
    }
}

/// `-` before the digits of a number.
fn negated(digits: &String) -> (r: String)
    ensures
        r@ == "-"@ + digits@,
{
    let mut r = owned("-");
    push_str(&mut r, digits.as_str());
    r
}

/// Reads the inside of `partial(...)`; see [`partial_spec`].
fn parse_partial(ts: &Vec<Token>, end: usize) -> (r: Result<PartialDecl, AttrError>)
    ensures
        match partial_spec(ts@, end) {
            Ok(v) => r matches Ok(x) && x@ == v,
            Err(e) => r matches Err(x) && x@ == e,
        },
{
    let field = match name_of(ts, 0, end) {
        Ok(f) => f,
        Err(e) => return Err(e),
    };
    if punct_at(ts, 1, '.') {
        return Err(err(field.span, "`partial(...)` takes a direct field. Use `partial_raw = \"...\"` for a dotted path"));
    }
    if !punct_at(ts, 1, '=') {
        return Err(unexpected_at(ts, 1, end, "expected `=`"));
    }
    let negative = punct_at(ts, 2, '-');
    let q: usize = if negative { 3 } else { 2 };
    let (lit, span) = match lit_of(ts, q) {
        Some(x) => x,
        None => return Err(unexpected_at(ts, q, end, "expected literal")),
    };
    let value = if !negative {
        lit
    } else {
        match lit {
            PartialLit::Int(d) => PartialLit::Int(negated(&d)),
            PartialLit::Float(d) => PartialLit::Float(negated(&d)),
            _ => return Err(err(span, "`-` applies to numbers only")),
        }
    };
    if q + 1 < ts.len() {
        return Err(err(
            span_of(ts, q + 1, end),
            "`partial(...)` takes exactly one `<field> = <literal>`. Use `partial_raw` for other filters",
        ));
    }
    Ok(PartialDecl::Shorthand { field, value, value_span: span })
}

/// Whether a weight for a field of this text was read already.
fn weight_seen(acc: &Vec<(Name, i32)>, text: &String) -> (b: bool)
    ensures
        b == exists|j: int| 0 <= j < acc@.len() && #[trigger] weights_view(acc@)[j].0.text == text@,
{
    let mut i: usize = 0;
    while i < acc.len()
        invariant
            i <= acc@.len(),
            forall|j: int| 0 <= j < i ==> #[trigger] weights_view(acc@)[j].0.text != text@,
        decreases acc.len() - i,
    {
        if str_eq(acc[i].0.text.as_str(), text.as_str()) {
            assert(weights_view(acc@)[i as int].0.text == text@);
            return true;
        }
        i = i + 1;
    }
    false
}

/// Reads the inside of `weights(...)`; see [`weights_spec`].
fn parse_weights(ts: &Vec<Token>, end: usize) -> (r: Result<Vec<(Name, i32)>, AttrError>)
    requires
        ts@.len() < usize::MAX - 4,
    ensures
        match weights_spec(ts@, 0, end, Seq::empty()) {
            Ok(w) => r matches Ok(x) && weights_view(x@) == w,
            Err(e) => r matches Err(x) && x@ == e,
        },
{
    let mut acc: Vec<(Name, i32)> = Vec::new();
    let mut pos: usize = 0;
    assert(weights_view(acc@) =~= Seq::<(NameV, i32)>::empty());
    loop
        invariant
            ts@.len() < usize::MAX - 4,
            pos <= ts@.len(),
            weights_spec(ts@, 0, end, Seq::empty()) == weights_spec(ts@, pos as int, end, weights_view(acc@)),
        decreases ts@.len() - pos,
    {
        if pos >= ts.len() {
            return Ok(acc);
        }
        let field = match name_of(ts, pos, end) {
            Ok(f) => f,
            Err(e) => return Err(e),
        };
        if !punct_at(ts, pos + 1, '=') {
            return Err(unexpected_at(ts, pos + 1, end, "expected `=`"));
        }
        let (digits, span) = match int_of(ts, pos + 2) {
            Some((d, _, sp)) => (d, sp),
            None => return Err(unexpected_at(ts, pos + 2, end, "expected integer literal")),
        };
        if weight_seen(&acc, &field.text) {
            let mut message = owned("duplicate weight for `");
            push_str(&mut message, field.text.as_str());
            push_str(&mut message, "`");
            return Err(AttrError { span: field.span, message });
        }
        let v = match read_bounded(digits.as_str(), span, 2147483647) {
            Ok(v) => v,
            Err(e) => return Err(e),
        };
        let ghost a0 = weights_view(acc@);
        assert(parse_bounded(digits@, span, i32::MAX as int) == Ok::<int, ErrV>(v as int));
        assert(!(exists|j: int| 0 <= j < a0.len() && #[trigger] a0[j].0.text == field@.text));
        let w: i32 = v as i32;
        acc.push((field, w));
        assert(weights_view(acc@) =~= a0.push((field@, w)));
        if pos + 3 >= ts.len() {
            pos = ts.len();
        } else {
            if !punct_at(ts, pos + 3, ',') {
                return Err(unexpected_at(ts, pos + 3, end, "expected `,`"));
            }
            pos = pos + 4;
        }
    }
}

/// Reads the inside of `collation(...)`; see [`collation_spec`].
fn parse_collation(ts: &Vec<Token>, end: usize, name_span: usize) -> (r: Result<CollationDecl, AttrError>)
    requires
        ts@.len() < usize::MAX - 4,
    ensures
        match collation_spec(ts@, end, name_span) {
            Ok(c) => r matches Ok(x) && x@ == c,
            Err(e) => r matches Err(x) && x@ == e,
        },
{
    let mut locale: Option<String> = None;
    let mut strength: Option<(u8, usize)> = None;
    let mut pos: usize = 0;
    let ghost start = collation_items(ts@, 0, end, None, None);
    while pos < ts.len()
        invariant
            ts@.len() < usize::MAX - 4,
            pos <= ts@.len(),
            start == collation_items(ts@, 0, end, None, None),
            start == collation_items(
                ts@,
                pos as int,
                end,
                match locale {
                    Some(l) => Some(l@),
                    None => None,
                },
                strength,
            ),
        decreases ts@.len() - pos,
    {
        let key = match name_of(ts, pos, end) {
            Ok(k) => k,
            Err(e) => return Err(e),
        };
        if !punct_at(ts, pos + 1, '=') {
            return Err(unexpected_at(ts, pos + 1, end, "expected `=`"));
        }
        if name_is(&key, "locale") {
            match str_of(ts, pos + 2) {
                Some((v, _)) => {
                    locale = Some(v.clone());
                },
                None => return Err(unexpected_at(ts, pos + 2, end, "expected string literal")),
            }
        } else if name_is(&key, "strength") {
            match int_of(ts, pos + 2) {
                Some((digits, _, span)) => {
                    let level: u8 = if str_eq(digits.as_str(), "1") {
                        1
                    } else if str_eq(digits.as_str(), "2") {
                        2
                    } else if str_eq(digits.as_str(), "3") {
                        3
                    } else if str_eq(digits.as_str(), "4") {
                        4
                    } else if str_eq(digits.as_str(), "5") {
                        5
                    } else {
                        return Err(err(span, "collation strength must be between 1 and 5"));
                    };
                    strength = Some((level, span));
                },
                None => return Err(unexpected_at(ts, pos + 2, end, "expected integer literal")),
            }
        } else {
            let mut message = owned("unknown collation option `");
            push_str(&mut message, shown_text(&key).as_str());
            push_str(&mut message, "`. Expected `locale` or `strength`");
            return Err(AttrError { span: key.span, message });
        }
        if pos + 3 >= ts.len() {
            pos = ts.len();
        } else {
            if !punct_at(ts, pos + 3, ',') {
                return Err(unexpected_at(ts, pos + 3, end, "expected `,`"));
            }
            pos = pos + 4;
        }
    }
    assert(start == Ok::<(Option<Seq<char>>, Option<(u8, usize)>), ErrV>((
        match locale {
            Some(l) => Some(l@),
            None => None,
        },
        strength,
    )));
    let locale = match locale {
        Some(l) => l,
        None => return Err(err(name_span, "collation(...) requires `locale = \"...\"`")),
    };
    if str_eq(locale.as_str(), "simple") {
        match strength {
            Some((_, span)) => {
                return Err(err(
                    span,
                    "`strength` has no effect with the `simple` locale. Remove `strength`, or pick a locale",
                ));
            },
            None => {},
        }
    }
    let level = match strength {
        Some((l, _)) => Some(l),
        None => None,
    };
    Ok(CollationDecl { locale, strength: level })
}

/// Reads a number at `pos`; see [`number_spec`].
fn parse_number(ts: &Vec<Token>, pos: usize, end: usize) -> (r: Result<(NumberLit, usize), AttrError>)
    requires
        pos < usize::MAX - 2,
    ensures
        match number_spec(ts@, pos as int, end) {
            Ok((n, next)) => r matches Ok(x) && x.0@ == n && x.1 == next,
            Err(e) => r matches Err(x) && x@ == e,
        },
{
    let negative = punct_at(ts, pos, '-');
    let q = if negative { pos + 1 } else { pos };
    match float_of(ts, q) {
        Some(d) => Ok((NumberLit { negative, digits: d.clone(), float: true }, q + 1)),
        None => match int_of(ts, q) {
            Some((d, _, _)) => Ok((NumberLit { negative, digits: d.clone(), float: false }, q + 1)),
            None => Err(unexpected_at(ts, q, end, "expected integer literal")),
        },
    }
}

/// Reads one option at `pos` into `decl`; see [`option_spec`].
#[verifier::rlimit(40)]
fn parse_option(ts: &Vec<Token>, pos: usize, end: usize, decl: IndexDecl) -> (r: Result<(IndexDecl, usize), AttrError>)
    requires
        pos < usize::MAX - 4,
        forall|i: int| 0 <= i < ts@.len() ==> (#[trigger] ts@[i] matches Token::Group { tokens, .. } ==> tokens@.len() < usize::MAX - 4),
    ensures
        match option_spec(ts@, pos as int, end, decl@) {
            Ok((d, next)) => r matches Ok(x) && x.0@ == d && x.1 == next,
            Err(e) => r matches Err(x) && x@ == e,
        },
{
    let n = match name_of(ts, pos, end) {
        Ok(n) => n,
        Err(_) => return Err(err(span_of(ts, pos, end), "expected an index option")),
    };
    let p = pos + 1;
    if name_is(&n, "unique") {
        return Ok((IndexDecl { unique: true, ..decl }, p));
    }
    if name_is(&n, "sparse") {
        return Ok((IndexDecl { sparse: true, ..decl }, p));
    }
    if name_is(&n, "hidden") {
        return Ok((IndexDecl { hidden: true, ..decl }, p));
    }
    if name_is(&n, "ttl") || name_is(&n, "bits") {
        if !punct_at(ts, p, '=') {
            return Err(unexpected_at(ts, p, end, "expected `=`"));
        }
        let (digits, span) = match int_of(ts, p + 1) {
            Some((d, _, sp)) => (d, sp),
            None => return Err(unexpected_at(ts, p + 1, end, "expected integer literal")),
        };
        if name_is(&n, "ttl") {
            return match read_bounded(digits.as_str(), span, 18446744073709551615) {
                Ok(v) => Ok((IndexDecl { ttl: Some((v, n.span)), ..decl }, p + 2)),
                Err(e) => Err(e),
            };
        } else {
            return match read_bounded(digits.as_str(), span, 4294967295) {
                Ok(v) => Ok((IndexDecl { bits: Some((v as u32, n.span)), ..decl }, p + 2)),
                Err(e) => Err(e),
            };
        }
    }
    if name_is(&n, "partial") || name_is(&n, "weights") || name_is(&n, "collation") {
        let (inner, inner_end) = match paren_of(ts, p) {
            Some(x) => x,
            None => return Err(unexpected_at(ts, p, end, "expected parentheses")),
        };
        assert(ts@[p as int] matches Token::Group { tokens, .. });
        if name_is(&n, "partial") {
            return match parse_partial(inner, inner_end) {
                Ok(pv) => Ok((IndexDecl { partial: Some(pv), ..decl }, p + 1)),
                Err(e) => Err(e),
            };
        } else if name_is(&n, "weights") {
            return match parse_weights(inner, inner_end) {
                Ok(w) => {
                    if w.len() == 0 {
                        Err(err(n.span, "weights(...) takes at least one `<field> = <n>`"))
                    } else {
                        Ok((IndexDecl { weights: w, ..decl }, p + 1))
                    }
                },
                Err(e) => Err(e),
            };
        } else {
            return match parse_collation(inner, inner_end, n.span) {
                Ok(c) => Ok((IndexDecl { collation: Some(c), ..decl }, p + 1)),
                Err(e) => Err(e),
            };
        }
    }
    if name_is(&n, "partial_raw") || name_is(&n, "wildcard_projection") {
        if !punct_at(ts, p, '=') {
            return Err(unexpected_at(ts, p, end, "expected `=`"));
        }
        let (v, span) = match str_of(ts, p + 1) {
            Some(x) => x,
            None => return Err(unexpected_at(ts, p + 1, end, "expected string literal")),
        };
        if name_is(&n, "partial_raw") {
            return Ok((IndexDecl { partial: Some(PartialDecl::Raw { json: v.clone(), span }), ..decl }, p + 2));
        } else {
            return Ok((IndexDecl { wildcard_projection: Some((v.clone(), span)), ..decl }, p + 2));
        }
    }
    if name_is(&n, "min") || name_is(&n, "max") {
        if !punct_at(ts, p, '=') {
            return Err(unexpected_at(ts, p, end, "expected `=`"));
        }
        let (num, next) = match parse_number(ts, p + 1, end) {
            Ok(x) => x,
            Err(e) => return Err(e),
        };
        if name_is(&n, "min") {
            return Ok((IndexDecl { min: Some((num, n.span)), ..decl }, next));
        } else {
            return Ok((IndexDecl { max: Some((num, n.span)), ..decl }, next));
        }
    }
    let mut message = owned("unknown index option `");
    push_str(&mut message, shown_text(&n).as_str());
    push_str(&mut message, "`");
    Err(AttrError { span: n.span, message })
}

/// The keys inside `keys(...)` from `pos`: keys separated by commas, with an
/// optional trailing comma.
pub open spec fn keys_spec(ts: Seq<Token>, pos: int, end: usize) -> Result<Seq<KeyV>, ErrV>
    decreases ts.len() - pos,
{
    if pos >= ts.len() || pos < 0 {
        Ok(Seq::empty())
    } else {
        match key_spec(ts, pos, end) {
            Err(e) => Err(e),
            Ok((k, next)) => if next >= ts.len() {
                Ok(seq![k])
            } else if !is_punct(ts, next, ',') {
                Err(unexpected(ts, next, end, "expected `,`"@))
            } else if next < pos {
                Ok(seq![k])
            } else {
                match keys_spec(ts, next + 1, end) {
                    Err(e) => Err(e),
                    Ok(rest) => Ok(seq![k] + rest),
                }
            },
        }
    }
}

/// The options from `pos`, each after a comma, applied in order to `d`; a
/// trailing comma is allowed.
pub open spec fn options_spec(ts: Seq<Token>, pos: int, end: usize, d: DeclV) -> Result<DeclV, ErrV>
    decreases ts.len() - pos,
{
    if pos >= ts.len() || pos < 0 {
        Ok(d)
    } else if !is_punct(ts, pos, ',') {
        Err(unexpected(ts, pos, end, "expected `,`"@))
    } else if pos + 1 >= ts.len() {
        Ok(d)
    } else {
        match option_spec(ts, pos + 1, end, d) {
            Err(e) => Err(e),
            Ok((d2, next)) => if next <= pos {
                Ok(d2)
            } else {
                options_spec(ts, next, end, d2)
            },
        }
    }
}

/// The failure of a declaration that does not start with its name.
pub open spec fn missing_name() -> Seq<char> {
    "missing the index name. Write `#[index(<name>, keys(...))]`"@
}

/// A declaration with this name and keys, and no option set.
pub open spec fn bare_decl(ident: NameV, keys: Seq<KeyV>) -> DeclV {
    DeclV {
        ident,
        keys,
        unique: false,
        sparse: false,
        hidden: false,
        ttl: None,
        partial: None,
        weights: Seq::empty(),
        collation: None,
        wildcard_projection: None,
        bits: None,
        min: None,
        max: None,
    }
}

/// An index declaration: `name, keys(key, ...)`, then options, each after a
/// comma.
pub open spec fn decl_spec(ts: Seq<Token>, end: usize) -> Result<DeclV, ErrV> {
    match name_at(ts, 0) {
        None => Err(ErrV { span: span_at(ts, 0, end), message: missing_name() }),
        Some(ident) => if shown(ident) == "keys"@ && paren_at(ts, 1) is Some {
            Err(ErrV { span: ident.span, message: missing_name() })
        } else if !is_punct(ts, 1, ',') {
            Err(ErrV { span: ident.span, message: "expected `, keys(...)` after the index name"@ })
        } else {
            match name_at(ts, 2) {
                None => Err(ErrV { span: span_at(ts, 2, end), message: "expected `keys(...)`"@ }),
                Some(kw) => if shown(kw) != "keys"@ {
                    Err(ErrV { span: kw.span, message: "expected `keys(...)`"@ })
                } else {
                    match paren_at(ts, 3) {
                        None => Err(unexpected(ts, 3, end, "expected parentheses"@)),
                        Some((inner, inner_end)) => match keys_spec(inner, 0, inner_end) {
                            Err(e) => Err(e),
                            Ok(keys) => options_spec(ts, 4, end, bare_decl(ident, keys)),
                        },
                    }
                },
            }
        },
    }
}

/// Token lists small enough to count in a `usize`, with their groups.
pub open spec fn fits(ts: Seq<Token>) -> bool {
    &&& ts.len() < usize::MAX - 4
    &&& forall|i: int| 0 <= i < ts.len() ==> (#[trigger] ts[i] matches Token::Group { tokens, .. } ==> tokens@.len() < usize::MAX - 4)
}

/// An option read at `pos` ends after it, within the input.
proof fn lemma_option_advances(ts: Seq<Token>, pos: int, end: usize, d: DeclV)
    requires
        0 <= pos,
        option_spec(ts, pos, end, d) is Ok,
    ensures
        pos < option_spec(ts, pos, end, d)->Ok_0.1 <= ts.len(),
{
}

fn parse_keys(ts: &Vec<Token>, end: usize) -> (r: Result<Vec<KeyDecl>, AttrError>)
    requires
        ts@.len() < usize::MAX - 4,
    ensures
        match keys_spec(ts@, 0, end) {
            Ok(k) => r matches Ok(x) && keys_view(x@) == k,
            Err(e) => r matches Err(x) && x@ == e,
        },
{
    let mut keys: Vec<KeyDecl> = Vec::new();
    let mut pos: usize = 0;
    let ghost start = keys_spec(ts@, 0, end);
    loop
        invariant
            ts@.len() < usize::MAX - 4,
            pos <= ts@.len(),
            start == keys_spec(ts@, 0, end),
            start == match keys_spec(ts@, pos as int, end) {
                Ok(rest) => Ok(keys_view(keys@) + rest),
                Err(e) => Err(e),
            },
        decreases ts@.len() - pos,
    {
        if pos >= ts.len() {
            assert(keys_view(keys@) + Seq::<KeyV>::empty() =~= keys_view(keys@));
            return Ok(keys);
        }
        let (key, next) = match parse_key(ts, pos, end) {
            Ok(x) => x,
            Err(e) => return Err(e),
        };
        proof {
            lemma_key_advances(ts@, pos as int, end);
        }
        let ghost k0 = keys_view(keys@);
        let ghost kv = key@;
        keys.push(key);
        assert(keys_view(keys@) =~= k0.push(kv));
        if next >= ts.len() {
            assert(k0 + seq![kv] =~= keys_view(keys@));
            return Ok(keys);
        }
        if !punct_at(ts, next, ',') {
            return Err(unexpected_at(ts, next, end, "expected `,`"));
        }
        proof {
            match keys_spec(ts@, next + 1, end) {
                Ok(rest) => {
                    assert(k0 + (seq![kv] + rest) =~= keys_view(keys@) + rest);
                },
                Err(e) => {},
            }
        }
        pos = next + 1;
    }
}

impl IndexDecl {
    /// Reads an index declaration from the attribute's tokens; `end` is where
    /// the input ends. See [`decl_spec`].
    pub fn parse(ts: &Vec<Token>, end: usize) -> (r: Result<IndexDecl, AttrError>)
        requires
            fits(ts@),
        ensures
            match decl_spec(ts@, end) {
                Ok(d) => r matches Ok(x) && x@ == d,
                Err(e) => r matches Err(x) && x@ == e,
            },
    {
        let ident = match name_of(ts, 0, end) {
            Ok(n) => n,
            Err(_) => return Err(err(span_of(ts, 0, end), "missing the index name. Write `#[index(<name>, keys(...))]`")),
        };
        if name_is(&ident, "keys") && paren_of(ts, 1).is_some() {
            return Err(err(ident.span, "missing the index name. Write `#[index(<name>, keys(...))]`"));
        }
        if !punct_at(ts, 1, ',') {
            return Err(err(ident.span, "expected `, keys(...)` after the index name"));
        }
        let kw = match name_of(ts, 2, end) {
            Ok(n) => n,
            Err(_) => return Err(err(span_of(ts, 2, end), "expected `keys(...)`")),
        };
        if !name_is(&kw, "keys") {
            return Err(err(kw.span, "expected `keys(...)`"));
        }
        let (inner, inner_end) = match paren_of(ts, 3) {
            Some(x) => x,
            None => return Err(unexpected_at(ts, 3, end, "expected parentheses")),
        };
        assert(ts@[3] matches Token::Group { tokens, .. });
        let keys = match parse_keys(inner, inner_end) {
            Ok(k) => k,
            Err(e) => return Err(e),
        };
        let mut decl = IndexDecl {
            ident,
            keys,
            unique: false,
            sparse: false,
            hidden: false,
            ttl: None,
            partial: None,
            weights: Vec::new(),
            collation: None,
            wildcard_projection: None,
            bits: None,
            min: None,
            max: None,
        };
        assert(weights_view(decl.weights@) =~= Seq::<(NameV, i32)>::empty());
        assert(decl@ == bare_decl(decl@.ident, decl@.keys));
        let mut pos: usize = 4;
        let ghost start = decl_spec(ts@, end);
        while pos < ts.len()
            invariant
                fits(ts@),
                4 <= pos,
                start == decl_spec(ts@, end),
                start == options_spec(ts@, pos as int, end, decl@),
            decreases ts@.len() - pos,
        {
            if !punct_at(ts, pos, ',') {
                return Err(unexpected_at(ts, pos, end, "expected `,`"));
            }
            if pos + 1 >= ts.len() {
                return Ok(decl);
            }
            let ghost d0 = decl@;
            let (d2, next) = match parse_option(ts, pos + 1, end, decl) {
                Ok(x) => x,
                Err(e) => return Err(e),
            };
            proof {
                lemma_option_advances(ts@, pos + 1, end, d0);
            }
            decl = d2;
            pos = next;
        }
        Ok(decl)
    }
}

/// No field has two weights.
pub open spec fn weights_distinct(w: Seq<(NameV, i32)>) -> bool {
    forall|i: int, j: int| 0 <= i < j < w.len() ==> (#[trigger] w[i]).0.text != (#[trigger] w[j]).0.text
}

proof fn lemma_weights_spec_distinct(ts: Seq<Token>, pos: int, end: usize, acc: Seq<(NameV, i32)>)
    requires
        weights_distinct(acc),
        weights_spec(ts, pos, end, acc) is Ok,
    ensures
        weights_distinct(weights_spec(ts, pos, end, acc)->Ok_0),
    decreases ts.len() - pos,
{
    if pos < ts.len() && pos >= 0 {
        let f = parse_name(ts, pos, end)->Ok_0;
        let (digits, _, span) = int_at(ts, pos + 2)->Some_0;
        let v = parse_bounded(digits, span, i32::MAX as int)->Ok_0;
        let acc2 = acc.push((f, v as i32));
        assert(!(exists|j: int| 0 <= j < acc.len() && #[trigger] acc[j].0.text == f.text));
        assert forall|i: int, j: int| 0 <= i < j < acc2.len() implies (#[trigger] acc2[i]).0.text != (#[trigger] acc2[j]).0.text by {
            if j == acc.len() {
                assert(acc2[i] == acc[i]);
            } else {
                assert(acc2[i] == acc[i] && acc2[j] == acc[j]);
            }
        }
        if pos + 3 < ts.len() {
            lemma_weights_spec_distinct(ts, pos + 4, end, acc2);
        }
    }
}

proof fn lemma_option_keeps_weights_distinct(ts: Seq<Token>, pos: int, end: usize, d: DeclV)
    requires
        weights_distinct(d.weights),
        option_spec(ts, pos, end, d) is Ok,
    ensures
        weights_distinct(option_spec(ts, pos, end, d)->Ok_0.0.weights),
{
    let n = name_at(ts, pos)->Some_0;
    if shown(n) == "weights"@ {
        reveal_strlit("weights");
        reveal_strlit("unique");
        reveal_strlit("sparse");
        reveal_strlit("hidden");
        reveal_strlit("ttl");
        reveal_strlit("bits");
        reveal_strlit("partial");
        assert(shown(n) != "unique"@ && shown(n) != "sparse"@ && shown(n) != "hidden"@);
        assert("weights"@[0] != "partial"@[0]);
        assert(shown(n) != "ttl"@ && shown(n) != "bits"@ && shown(n) != "partial"@);
        assert(paren_at(ts, pos + 1) is Some);
        let (inner, inner_end) = paren_at(ts, pos + 1)->Some_0;
        assert(weights_spec(inner, 0, inner_end, Seq::empty()) is Ok);
        assert(weights_distinct(Seq::<(NameV, i32)>::empty()));
        lemma_weights_spec_distinct(inner, 0, inner_end, Seq::empty());
    }
}

proof fn lemma_options_keep_weights_distinct(ts: Seq<Token>, pos: int, end: usize, d: DeclV)
    requires
        weights_distinct(d.weights),
        options_spec(ts, pos, end, d) is Ok,
    ensures
        weights_distinct(options_spec(ts, pos, end, d)->Ok_0.weights),
    decreases ts.len() - pos,
{
    if pos < ts.len() && pos >= 0 && is_punct(ts, pos, ',') && pos + 1 < ts.len() {
        lemma_option_keeps_weights_distinct(ts, pos + 1, end, d);
        let (d2, next) = option_spec(ts, pos + 1, end, d)->Ok_0;
        if next > pos {
            lemma_options_keep_weights_distinct(ts, next, end, d2);
        }
    }
}

/// A declaration that reads never gives a field two weights.
pub proof fn lemma_weights_distinct(ts: Seq<Token>, end: usize)
    requires
        decl_spec(ts, end) is Ok,
    ensures
        weights_distinct(decl_spec(ts, end)->Ok_0.weights),
{
    let ident = name_at(ts, 0)->Some_0;
    let (inner, inner_end) = paren_at(ts, 3)->Some_0;
    let keys = keys_spec(inner, 0, inner_end)->Ok_0;
    assert(weights_distinct(bare_decl(ident, keys).weights));
    lemma_options_keep_weights_distinct(ts, 4, end, bare_decl(ident, keys));
}


/// A collation strength is the number its literal writes: a strength is
/// read only from a single decimal digit, and the level read is that digit's
/// value; every digit from 1 to 5 is read.
pub proof fn lemma_strength_is_the_literal(digits: Seq<char>)
    ensures
        strength_level(digits) matches Some(l) ==> digits.len() == 1 && all_digits(digits) && l as int == decimal(digits),
        digits.len() == 1 && all_digits(digits) && 1 <= decimal(digits) <= 5 ==> strength_level(digits) == Some(
            decimal(digits) as u8,
        ),
{
    reveal_strlit("1");
    reveal_strlit("2");
    reveal_strlit("3");
    reveal_strlit("4");
    reveal_strlit("5");
    if digits.len() == 1 {
        assert(digits.drop_last() =~= Seq::<char>::empty());
        assert(decimal(digits.drop_last()) == 0);
        assert(digits.last() == digits[0]);
        assert(decimal(digits) == digits[0] as int - '0' as int);
        if digits[0] == '1' {
            assert(digits =~= "1"@);
        } else if digits[0] == '2' {
            assert(digits =~= "2"@);
        } else if digits[0] == '3' {
            assert(digits =~= "3"@);
        } else if digits[0] == '4' {
            assert(digits =~= "4"@);
        } else if digits[0] == '5' {
            assert(digits =~= "5"@);
        }
    }
}

} // verus!
