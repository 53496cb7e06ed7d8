//! The grammar as mathematical parsers on `Seq<u8>`.
//!
//! Each function consumes a prefix of `s` starting at `pos` and returns the
//! recognized value together with the position just past it; `None` means the
//! text does not match.  The executable parsers in [`crate::parser`] are
//! specified and verified against these functions.

use vstd::prelude::*;

use crate::scan::Class;
use crate::scan::in_class;
use crate::scan::lemma_run_end_props;
use crate::scan::run_end;

verus! {

pub const QUOTE: u8 = 34;
pub const COMMA: u8 = 44;
pub const EQUALS: u8 = 61;
pub const LANGLE: u8 = 60;
pub const RANGLE: u8 = 62;
pub const SPACE: u8 = 32;

/// One or more ASCII letters: an attribute key, also a tag name.
pub open spec fn spec_parse_key(s: Seq<u8>, pos: int) -> Option<(Seq<u8>, int)> {
    let end = run_end(s, pos, Class::Alpha);
    if end > pos {
        Some((s.subrange(pos, end), end))
    } else {
        None
    }
}

/// A double quote, one or more ASCII letters or digits, a double quote.
/// The result excludes the quotes.
pub open spec fn spec_parse_val(s: Seq<u8>, pos: int) -> Option<(Seq<u8>, int)> {
    if pos < s.len() && s[pos] == QUOTE {
        let end = run_end(s, pos + 1, Class::Alnum);
        if end > pos + 1 && end < s.len() && s[end] == QUOTE {
            Some((s.subrange(pos + 1, end), end + 1))
        } else {
            None
        }
    } else {
        None
    }
}

/// A key, optional whitespace, `=`, optional whitespace, a quoted value.
pub open spec fn spec_parse_attribute(s: Seq<u8>, pos: int) -> Option<((Seq<u8>, Seq<u8>), int)> {
    match spec_parse_key(s, pos) {
        None => None,
        Some((key, p1)) => {
            let p2 = run_end(s, p1, Class::Ws);
            if p2 < s.len() && s[p2] == EQUALS {
                let p3 = run_end(s, p2 + 1, Class::Ws);
                match spec_parse_val(s, p3) {
                    None => None,
                    Some((val, p4)) => Some(((key, val), p4)),
                }
            } else {
                None
            }
        },
    }
}

/// A successful attribute parse moves the cursor forward and keeps it inside
/// the text.
pub proof fn lemma_attribute_advances(s: Seq<u8>, pos: int)
    requires
        0 <= pos <= s.len(),
    ensures
        match spec_parse_attribute(s, pos) {
            Some((kv, end)) => pos < end <= s.len(),
            None => true,
        },
{
    lemma_run_end_props(s, pos, Class::Alpha);
    let p1 = run_end(s, pos, Class::Alpha);
    if p1 > pos {
        lemma_run_end_props(s, p1, Class::Ws);
        let p2 = run_end(s, p1, Class::Ws);
        if p2 < s.len() && s[p2] == EQUALS {
            lemma_run_end_props(s, p2 + 1, Class::Ws);
            let p3 = run_end(s, p2 + 1, Class::Ws);
            if p3 < s.len() && s[p3] == QUOTE {
                lemma_run_end_props(s, p3 + 1, Class::Alnum);
            }
        }
    }
}

/// Zero or more attributes separated by `,` plus optional whitespace.
/// Repetition never fails: it stops before the first place where no further
/// separator-and-attribute matches and yields what was parsed so far.
pub open spec fn spec_parse_attrs(s: Seq<u8>, pos: int) -> (Seq<(Seq<u8>, Seq<u8>)>, int) {
    match spec_parse_attribute(s, pos) {
        None => (Seq::empty(), pos),
        Some((kv, p1)) => {
            let (rest, end) = spec_parse_attrs_more(s, p1);
            (seq![kv] + rest, end)
        },
    }
}

/// The continuation of an attribute list: as long as a `,` (plus optional
/// whitespace) is followed by another attribute, both are consumed; a `,`
/// whose following attribute does not parse is left unconsumed and the list
/// stops before it.
pub open spec fn spec_parse_attrs_more(s: Seq<u8>, pos: int) -> (Seq<(Seq<u8>, Seq<u8>)>, int)
    decreases s.len() - pos,
        when 0 <= pos <= s.len()
        via spec_parse_attrs_more_decreases
{
    if pos < s.len() && s[pos] == COMMA {
        let p2 = run_end(s, pos + 1, Class::Ws);
        match spec_parse_attribute(s, p2) {
            None => (Seq::empty(), pos),
            Some((kv, p3)) => {
                let (rest, end) = spec_parse_attrs_more(s, p3);
                (seq![kv] + rest, end)
            },
        }
    } else {
        (Seq::empty(), pos)
    }
}

#[via_fn]
proof fn spec_parse_attrs_more_decreases(s: Seq<u8>, pos: int) {
    if pos < s.len() && s[pos] == COMMA {
        lemma_run_end_props(s, pos + 1, Class::Ws);
        lemma_attribute_advances(s, run_end(s, pos + 1, Class::Ws));
    }
}

/// An attribute list ends at or past where it began and inside the text.
pub proof fn lemma_attrs_more_bounds(s: Seq<u8>, pos: int)
    requires
        0 <= pos <= s.len(),
    ensures
        pos <= spec_parse_attrs_more(s, pos).1 <= s.len(),
    decreases s.len() - pos,
{
    if pos < s.len() && s[pos] == COMMA {
        lemma_run_end_props(s, pos + 1, Class::Ws);
        let p2 = run_end(s, pos + 1, Class::Ws);
        lemma_attribute_advances(s, p2);
        match spec_parse_attribute(s, p2) {
            None => {},
            Some((kv, p3)) => {
                lemma_attrs_more_bounds(s, p3);
            },
        }
    }
}

pub proof fn lemma_attrs_bounds(s: Seq<u8>, pos: int)
    requires
        0 <= pos <= s.len(),
    ensures
        pos <= spec_parse_attrs(s, pos).1 <= s.len(),
{
    lemma_attribute_advances(s, pos);
    match spec_parse_attribute(s, pos) {
        None => {},
        Some((kv, p1)) => {
            lemma_attrs_more_bounds(s, p1);
        },
    }
}

/// `<`, a tag name, exactly one space, an attribute list, `>`.
pub open spec fn spec_parse_tag(s: Seq<u8>, pos: int) -> Option<((Seq<u8>, Seq<(Seq<u8>, Seq<u8>)>), int)> {
    if pos < s.len() && s[pos] == LANGLE {
        match spec_parse_key(s, pos + 1) {
            None => None,
            Some((name, p1)) => {
                if p1 < s.len() && s[p1] == SPACE {
                    let (kvs, p2) = spec_parse_attrs(s, p1 + 1);
                    if p2 < s.len() && s[p2] == RANGLE {
                        Some(((name, kvs), p2 + 1))
                    } else {
                        None
                    }
                } else {
                    None
                }
            },
        }
    } else {
        None
    }
}

/// The mapping denoted by a run of key/value pairs; a later pair with the
/// same key overrides an earlier one (last write wins).
pub open spec fn map_of(kvs: Seq<(Seq<u8>, Seq<u8>)>) -> Map<Seq<u8>, Seq<u8>>
    decreases kvs.len(),
{
    if kvs.len() == 0 {
        Map::empty()
    } else {
        map_of(kvs.drop_last()).insert(kvs.last().0, kvs.last().1)
    }
}

} // verus!
