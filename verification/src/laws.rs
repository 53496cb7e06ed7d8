//! General properties of the grammar, stated and proved once for all inputs.

use vstd::prelude::*;

use crate::grammar::COMMA;
use crate::grammar::EQUALS;
use crate::grammar::LANGLE;
use crate::grammar::QUOTE;
use crate::grammar::RANGLE;
use crate::grammar::map_of;
use crate::grammar::lemma_attribute_advances;
use crate::grammar::lemma_attrs_bounds;
use crate::grammar::lemma_attrs_more_bounds;
use crate::grammar::spec_parse_attribute;
use crate::grammar::spec_parse_attrs;
use crate::grammar::spec_parse_attrs_more;
use crate::grammar::spec_parse_key;
use crate::grammar::spec_parse_tag;
use crate::grammar::spec_parse_val;
use crate::scan::Class;
use crate::scan::in_class;
use crate::scan::lemma_run_end_is;
use crate::scan::lemma_run_end_prefix;
use crate::scan::lemma_run_end_props;
use crate::scan::run_end;

verus! {

/// Parsing a non-empty all-letter string with the key parser returns the
/// whole string and consumes all of it.
pub proof fn lemma_key_parses_alphabetic(s: Seq<u8>)
    requires
        s.len() >= 1,
        forall|i: int| 0 <= i < s.len() ==> in_class(Class::Alpha, #[trigger] s[i]),
    ensures
        spec_parse_key(s, 0) == Some((s, s.len() as int)),
{
    lemma_run_end_is(s, 0, s.len() as int, Class::Alpha);
    assert(s.subrange(0, s.len() as int) =~= s);
}

/// Parsing a non-empty all-alphanumeric string wrapped in double quotes
/// with the value parser returns the string, quotes excluded, and consumes
/// everything.
pub proof fn lemma_val_parses_quoted(s: Seq<u8>)
    requires
        s.len() >= 1,
        forall|i: int| 0 <= i < s.len() ==> in_class(Class::Alnum, #[trigger] s[i]),
    ensures
        spec_parse_val(seq![QUOTE] + s + seq![QUOTE], 0) == Some((s, s.len() as int + 2)),
{
    let t = seq![QUOTE] + s + seq![QUOTE];
    let n = s.len() as int;
    assert(t.len() == n + 2);
    assert(t[0] == QUOTE);
    assert forall|i: int| 1 <= i < n + 1 implies in_class(Class::Alnum, #[trigger] t[i]) by {
        assert(t[i] == s[i - 1]);
    }
    assert(t[n + 1] == QUOTE);
    assert(!in_class(Class::Alnum, QUOTE));
    lemma_run_end_is(t, 1, n + 1, Class::Alnum);
    assert(t.subrange(1, n + 1) =~= s);
}

/// The amount of whitespace on either side of the `=` makes no difference:
/// for any all-whitespace paddings `w1` and `w2`, the attribute parser on
/// `key w1 = w2 "val"` returns exactly `(key, val)` and consumes the whole
/// text.
pub proof fn lemma_attribute_whitespace(key: Seq<u8>, w1: Seq<u8>, w2: Seq<u8>, val: Seq<u8>)
    requires
        key.len() >= 1,
        forall|i: int| 0 <= i < key.len() ==> in_class(Class::Alpha, #[trigger] key[i]),
        val.len() >= 1,
        forall|i: int| 0 <= i < val.len() ==> in_class(Class::Alnum, #[trigger] val[i]),
        forall|i: int| 0 <= i < w1.len() ==> in_class(Class::Ws, #[trigger] w1[i]),
        forall|i: int| 0 <= i < w2.len() ==> in_class(Class::Ws, #[trigger] w2[i]),
    ensures
        ({
            let s = key + w1 + seq![EQUALS] + w2 + seq![QUOTE] + val + seq![QUOTE];
            spec_parse_attribute(s, 0) == Some(((key, val), s.len() as int))
        }),
{
    let s = key + w1 + seq![EQUALS] + w2 + seq![QUOTE] + val + seq![QUOTE];
    let a = key.len() as int;
    let b = a + w1.len();
    let c = b + 1 + w2.len();
    let d = c + 1 + val.len();
    assert(s.len() == d + 1);
    assert forall|i: int| 0 <= i < a implies in_class(Class::Alpha, #[trigger] s[i]) by {
        assert(s[i] == key[i]);
    }
    assert forall|i: int| a <= i < b implies in_class(Class::Ws, #[trigger] s[i]) by {
        assert(s[i] == w1[i - a]);
    }
    assert(s[b] == EQUALS);
    assert forall|i: int| b + 1 <= i < c implies in_class(Class::Ws, #[trigger] s[i]) by {
        assert(s[i] == w2[i - (b + 1)]);
    }
    assert(s[c] == QUOTE);
    assert forall|i: int| c + 1 <= i < d implies in_class(Class::Alnum, #[trigger] s[i]) by {
        assert(s[i] == val[i - (c + 1)]);
    }
    assert(s[d] == QUOTE);
    // the key run stops: whitespace and `=` are not letters
    assert(!in_class(Class::Alpha, s[a]));
    lemma_run_end_is(s, 0, a, Class::Alpha);
    assert(s.subrange(0, a) =~= key);
    // the whitespace run before `=` stops at the `=`
    assert(!in_class(Class::Ws, s[b]));
    lemma_run_end_is(s, a, b, Class::Ws);
    // the whitespace run after `=` stops at the opening quote
    assert(!in_class(Class::Ws, s[c]));
    lemma_run_end_is(s, b + 1, c, Class::Ws);
    // the value run stops at the closing quote
    assert(!in_class(Class::Alnum, s[d]));
    lemma_run_end_is(s, c + 1, d, Class::Alnum);
    assert(s.subrange(c + 1, d) =~= val);
}

/// An attribute section that closes at once — `>` standing where the first
/// attribute would — denotes the empty mapping and consumes nothing.
pub proof fn lemma_empty_attribute_list(s: Seq<u8>, pos: int)
    requires
        0 <= pos < s.len(),
        s[pos] == RANGLE,
    ensures
        spec_parse_attrs(s, pos) == (Seq::<(Seq<u8>, Seq<u8>)>::empty(), pos),
        map_of(spec_parse_attrs(s, pos).0) == Map::<Seq<u8>, Seq<u8>>::empty(),
{
    assert(!in_class(Class::Alpha, s[pos]));
    assert(run_end(s, pos, Class::Alpha) == pos);
}

/// A key parse that ends at or before `m` is unchanged when `s` is cut off
/// at `m`; so is a key parse that failed on a byte before `m`.
proof fn lemma_key_prefix(s: Seq<u8>, m: int, pos: int)
    requires
        0 <= pos <= m <= s.len(),
        run_end(s, pos, Class::Alpha) <= m,
    ensures
        spec_parse_key(s.subrange(0, m), pos) == spec_parse_key(s, pos),
{
    let t = s.subrange(0, m);
    let end = run_end(s, pos, Class::Alpha);
    lemma_run_end_props(s, pos, Class::Alpha);
    lemma_run_end_prefix(s, m, pos, Class::Alpha);
    if end > pos {
        assert(t.subrange(pos, end) =~= s.subrange(pos, end));
    }
}

/// A successful value parse that ends at or before `m` is unchanged when
/// `s` is cut off at `m`.
proof fn lemma_val_prefix(s: Seq<u8>, m: int, pos: int)
    requires
        0 <= pos <= m <= s.len(),
        spec_parse_val(s, pos) is Some,
        match spec_parse_val(s, pos) {
            Some((v, end)) => end <= m,
            None => true,
        },
    ensures
        spec_parse_val(s.subrange(0, m), pos) == spec_parse_val(s, pos),
{
    let t = s.subrange(0, m);
    let q = run_end(s, pos + 1, Class::Alnum);
    lemma_run_end_props(s, pos + 1, Class::Alnum);
    lemma_run_end_prefix(s, m, pos + 1, Class::Alnum);
    assert(t[pos] == s[pos]);
    assert(t[q] == s[q]);
    assert(t.subrange(pos + 1, q) =~= s.subrange(pos + 1, q));
}

/// A successful attribute parse that ends at or before `m` is unchanged
/// when `s` is cut off at `m`.
proof fn lemma_attribute_prefix(s: Seq<u8>, m: int, pos: int)
    requires
        0 <= pos <= m <= s.len(),
        spec_parse_attribute(s, pos) is Some,
        match spec_parse_attribute(s, pos) {
            Some((kv, end)) => end <= m,
            None => true,
        },
    ensures
        spec_parse_attribute(s.subrange(0, m), pos) == spec_parse_attribute(s, pos),
{
    let t = s.subrange(0, m);
    let p1 = run_end(s, pos, Class::Alpha);
    lemma_run_end_props(s, pos, Class::Alpha);
    let p2 = run_end(s, p1, Class::Ws);
    lemma_run_end_props(s, p1, Class::Ws);
    let p3 = run_end(s, p2 + 1, Class::Ws);
    lemma_run_end_props(s, p2 + 1, Class::Ws);
    let q = run_end(s, p3 + 1, Class::Alnum);
    lemma_run_end_props(s, p3 + 1, Class::Alnum);
    lemma_key_prefix(s, m, pos);
    lemma_run_end_prefix(s, m, p1, Class::Ws);
    assert(t[p2] == s[p2]);
    lemma_run_end_prefix(s, m, p2 + 1, Class::Ws);
    lemma_val_prefix(s, m, p3);
}

/// An attribute-list continuation whose stop position lies strictly before
/// `m` on a byte other than `,` is unchanged when `s` is cut off at `m`.
proof fn lemma_attrs_more_prefix(s: Seq<u8>, m: int, pos: int)
    requires
        0 <= pos <= m <= s.len(),
        spec_parse_attrs_more(s, pos).1 < m,
        s[spec_parse_attrs_more(s, pos).1] != COMMA,
    ensures
        spec_parse_attrs_more(s.subrange(0, m), pos) == spec_parse_attrs_more(s, pos),
    decreases s.len() - pos,
{
    let t = s.subrange(0, m);
    let e = spec_parse_attrs_more(s, pos).1;
    lemma_attrs_more_bounds(s, pos);
    if pos < s.len() && s[pos] == COMMA {
        let p2 = run_end(s, pos + 1, Class::Ws);
        lemma_run_end_props(s, pos + 1, Class::Ws);
        lemma_attribute_advances(s, p2);
        match spec_parse_attribute(s, p2) {
            None => {
                // then the list would stop at the `,` itself
                assert(e == pos);
                assert(false);
            },
            Some((kv, p3)) => {
                lemma_attrs_more_bounds(s, p3);
                assert(p3 <= e);
                assert(t[pos] == s[pos]);
                lemma_run_end_prefix(s, m, pos + 1, Class::Ws);
                lemma_attribute_prefix(s, m, p2);
                lemma_attrs_more_prefix(s, m, p3);
            },
        }
    } else {
        assert(e == pos);
        assert(t[pos] == s[pos]);
    }
}

/// An attribute list whose stop position lies strictly before `m` on a byte
/// that is neither `,` nor a letter is unchanged when `s` is cut off at `m`.
proof fn lemma_attrs_prefix(s: Seq<u8>, m: int, pos: int)
    requires
        0 <= pos <= m <= s.len(),
        spec_parse_attrs(s, pos).1 < m,
        s[spec_parse_attrs(s, pos).1] != COMMA,
        spec_parse_attribute(s, pos) is None ==> !in_class(Class::Alpha, s[pos]),
    ensures
        spec_parse_attrs(s.subrange(0, m), pos) == spec_parse_attrs(s, pos),
{
    let t = s.subrange(0, m);
    lemma_attribute_advances(s, pos);
    match spec_parse_attribute(s, pos) {
        None => {
            assert(t[pos] == s[pos]);
            assert(run_end(t, pos, Class::Alpha) == pos);
            assert(run_end(s, pos, Class::Alpha) == pos);
        },
        Some((kv, p1)) => {
            lemma_attrs_more_bounds(s, p1);
            lemma_attribute_prefix(s, m, pos);
            lemma_attrs_more_prefix(s, m, p1);
        },
    }
}

/// Re-parsing the consumed prefix of a successful tag parse succeeds
/// identically: it yields the very same tag and consumes the whole prefix.
pub proof fn lemma_tag_reparse(s: Seq<u8>, name: Seq<u8>, kvs: Seq<(Seq<u8>, Seq<u8>)>, end: int)
    requires
        spec_parse_tag(s, 0) == Some(((name, kvs), end)),
    ensures
        spec_parse_tag(s.subrange(0, end), 0) == Some(((name, kvs), end)),
{
    let t = s.subrange(0, end);
    assert(s[0] == LANGLE);
    let p1 = match spec_parse_key(s, 1) {
        Some((n, p1)) => p1,
        None => 0,
    };
    lemma_run_end_props(s, 1, Class::Alpha);
    lemma_attrs_bounds(s, p1 + 1);
    let p2 = spec_parse_attrs(s, p1 + 1).1;
    assert(s[p2] == RANGLE);
    assert(end == p2 + 1);
    lemma_key_prefix(s, end, 1);
    assert(t[0] == s[0]);
    assert(t[p1] == s[p1]);
    assert(t[p2] == s[p2]);
    if spec_parse_attribute(s, p1 + 1) is None {
        assert(spec_parse_attrs(s, p1 + 1).1 == p1 + 1);
        assert(s[p1 + 1] == RANGLE);
        assert(!in_class(Class::Alpha, s[p1 + 1]));
    }
    lemma_attrs_prefix(s, end, p1 + 1);
}

} // verus!
