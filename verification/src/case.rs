//! Names: the snake-case form of a type's name, used for the modules the
//! entity declarations generate.
use vstd::prelude::*;

use crate::text::{chars_of, push_char};

verus! {

/// Whether `c` has the Unicode `Uppercase` property (`char::is_uppercase`).
pub uninterp spec fn uppercase(c: char) -> bool;

/// Whether `c` has the Unicode `Lowercase` property (`char::is_lowercase`).
pub uninterp spec fn lowercase(c: char) -> bool;

/// The characters of `c`'s lowercase mapping (`char::to_lowercase`).
pub uninterp spec fn lowered(c: char) -> Seq<char>;

/// `char::is_uppercase`: whether `c` has the Unicode `Uppercase` property.
#[verifier::external_body]
fn is_upper(c: char) -> (b: bool)
    ensures
        b == uppercase(c),
{
    c.is_uppercase()
}

/// `char::is_lowercase`: whether `c` has the Unicode `Lowercase` property.
#[verifier::external_body]
fn is_lower(c: char) -> (b: bool)
    ensures
        b == lowercase(c),
{
    c.is_lowercase()
}

/// `char::to_lowercase`, collected: the characters of `c`'s lowercase
/// mapping.
#[verifier::external_body]
fn lower(c: char) -> (r: Vec<char>)
    ensures
        r@ == lowered(c),
{
    c.to_lowercase().collect()
}

/// Appends the characters of `c`'s lowercase mapping.
fn push_lowered(out: &mut String, c: char)
    ensures
        final(out)@ == old(out)@ + lowered(c),
{
    let cs = lower(c);
    let ghost start = out@;
    let mut i: usize = 0;
    while i < cs.len()
        invariant
            i <= cs@.len(),
            cs@ == lowered(c),
            out@ == start + cs@.take(i as int),
        decreases cs.len() - i,
    {
        push_char(out, cs[i]);
        assert(cs@.take(i + 1) =~= cs@.take(i as int).push(cs@[i as int]));
        i = i + 1;
    }
    assert(cs@.take(i as int) =~= cs@);
}

/// An uppercase character other than the first starts a new word, so gets a
/// `_` before it, unless the character before it is `_`, or it continues a
/// run of capitals that the next character does not end (`HTTPServer`
/// splits as `http_server`).
pub open spec fn starts_word(chars: Seq<char>, i: int) -> bool {
    &&& uppercase(chars[i])
    &&& i != 0
    &&& chars[i - 1] != '_'
    &&& (!uppercase(chars[i - 1]) || (i + 1 < chars.len() && lowercase(chars[i + 1])))
}

/// The snake-case form of the first `n` characters of `chars`: each
/// character lowercased, with `_` before each word after the first.
pub open spec fn snake(chars: Seq<char>, n: int) -> Seq<char>
    decreases n,
{
    if n <= 0 {
        Seq::empty()
    } else {
        let before = snake(chars, n - 1);
        let sep = if starts_word(chars, n - 1) {
            seq!['_']
        } else {
            Seq::empty()
        };
        before + sep + lowered(chars[n - 1])
    }
}

/// The snake-case form of a type's name.
pub fn to_snake(ident: &str) -> (r: String)
    ensures
        r@ == snake(ident@, ident@.len() as int),
{
    let chars = chars_of(ident);
    let mut out = String::new();
    let mut i: usize = 0;
    while i < chars.len()
        invariant
            chars@ == ident@,
            i <= chars@.len(),
            out@ == snake(chars@, i as int),
        decreases chars.len() - i,
    {
        let ch = chars[i];
        if is_upper(ch) && i != 0 {
            let prev = chars[i - 1];
            let next_is_lower = i + 1 < chars.len() && is_lower(chars[i + 1]);
            if prev != '_' && (!is_upper(prev) || next_is_lower) {
                push_char(&mut out, '_');
            }
        }
        push_lowered(&mut out, ch);
        i = i + 1;
    }
    out
}


/// `s` with its underscores taken out.
pub open spec fn strip_underscores(s: Seq<char>) -> Seq<char> {
    s.filter(|c: char| c != '_')
}

/// The lowercase mappings of the first `n` characters, one after another.
pub open spec fn lowered_all(chars: Seq<char>, n: int) -> Seq<char>
    decreases n,
{
    if n <= 0 {
        Seq::empty()
    } else {
        lowered_all(chars, n - 1) + lowered(chars[n - 1])
    }
}

proof fn lemma_strip_concat(a: Seq<char>, b: Seq<char>)
    ensures
        strip_underscores(a + b) == strip_underscores(a) + strip_underscores(b),
{
    Seq::filter_distributes_over_add(a, b, |c: char| c != '_');
}

proof fn lemma_snake_prefix(chars: Seq<char>, n: int)
    requires
        0 <= n <= chars.len(),
    ensures
        strip_underscores(snake(chars, n)) == strip_underscores(lowered_all(chars, n)),
    decreases n,
{
    if n > 0 {
        lemma_snake_prefix(chars, n - 1);
        let before = snake(chars, n - 1);
        let sep = if starts_word(chars, n - 1) {
            seq!['_']
        } else {
            Seq::<char>::empty()
        };
        let low = lowered(chars[n - 1]);
        lemma_strip_concat(before + sep, low);
        lemma_strip_concat(before, sep);
        lemma_strip_concat(lowered_all(chars, n - 1), low);
        assert(strip_underscores(sep) =~= Seq::<char>::empty()) by {
            reveal_with_fuel(Seq::filter, 2);
            if starts_word(chars, n - 1) {
                assert(sep.drop_last() =~= Seq::<char>::empty());
            }
        }
        assert(before + sep + low == snake(chars, n));
        assert(strip_underscores(before) + Seq::<char>::empty() =~= strip_underscores(before));
    }
}

/// The snake-case form only adds underscores: without its underscores, it is
/// the lowercase mapping of the name without its underscores.
pub proof fn lemma_snake_adds_only_underscores(ident: Seq<char>)
    ensures
        strip_underscores(snake(ident, ident.len() as int)) == strip_underscores(
            lowered_all(ident, ident.len() as int),
        ),
{
    lemma_snake_prefix(ident, ident.len() as int);
}


/// Every character is lowercased in place; a character that is no capital
/// never gets an underscore before it.
pub proof fn lemma_no_break_before_non_capital(chars: Seq<char>, i: int)
    requires
        0 <= i < chars.len(),
        !uppercase(chars[i]),
    ensures
        snake(chars, i + 1) == snake(chars, i) + lowered(chars[i]),
{
    assert(snake(chars, i) + Seq::<char>::empty() =~= snake(chars, i));
}

/// Within a run of capitals no underscore is added before a capital unless
/// a lowercase letter follows it: `UTF8String` splits as `utf8_string`, not
/// before the `F`.
pub proof fn lemma_capital_runs_stay_together(chars: Seq<char>, i: int)
    requires
        0 < i < chars.len(),
        uppercase(chars[i - 1]),
        !(i + 1 < chars.len() && lowercase(chars[i + 1])),
    ensures
        snake(chars, i + 1) == snake(chars, i) + lowered(chars[i]),
{
    assert(snake(chars, i) + Seq::<char>::empty() =~= snake(chars, i));
}

/// A capital that a lowercase letter follows starts a new word, with an
/// underscore before it, unless it is the first character or follows an
/// underscore: `HTTPServer` splits before the `S`.
pub proof fn lemma_capital_before_lowercase_starts_a_word(chars: Seq<char>, i: int)
    requires
        0 < i,
        i + 1 < chars.len(),
        uppercase(chars[i]),
        chars[i - 1] != '_',
        lowercase(chars[i + 1]),
    ensures
        snake(chars, i + 1) == snake(chars, i) + seq!['_'] + lowered(chars[i]),
{
}

/// A capital after a character that is neither a capital nor an underscore
/// starts a new word: `LedgerEntry` splits before the `E`.
pub proof fn lemma_capital_after_non_capital_starts_a_word(chars: Seq<char>, i: int)
    requires
        0 < i < chars.len(),
        uppercase(chars[i]),
        chars[i - 1] != '_',
        !uppercase(chars[i - 1]),
    ensures
        snake(chars, i + 1) == snake(chars, i) + seq!['_'] + lowered(chars[i]),
{
}

/// The first character never gets an underscore before it.
pub proof fn lemma_first_character_starts_no_word(chars: Seq<char>)
    requires
        chars.len() > 0,
    ensures
        snake(chars, 1) == lowered(chars[0]),
{
    assert(snake(chars, 0) == Seq::<char>::empty());
    assert(Seq::<char>::empty() + Seq::<char>::empty() + lowered(chars[0]) =~= lowered(chars[0]));
}

/// A character after an underscore never gets another underscore before
/// it: `already_Snake` keeps its one underscore.
pub proof fn lemma_no_break_after_underscore(chars: Seq<char>, i: int)
    requires
        0 < i < chars.len(),
        chars[i - 1] == '_',
    ensures
        snake(chars, i + 1) == snake(chars, i) + lowered(chars[i]),
{
    assert(snake(chars, i) + Seq::<char>::empty() =~= snake(chars, i));
}

} // verus!
