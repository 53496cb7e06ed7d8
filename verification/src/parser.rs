//! The executable parsers, verified against the grammar in [`crate::grammar`].
//!
//! Each parser takes the input and a cursor position, and on success returns
//! the recognized value (as an owned copy of the consumed span) together with
//! the position just past it.  On failure the input is untouched — the caller
//! keeps its own cursor — and the error names the position and the token
//! class that was expected there.

use vstd::prelude::*;

use crate::attrs::Attributes;
use crate::grammar::COMMA;
use crate::grammar::EQUALS;
use crate::grammar::LANGLE;
use crate::grammar::QUOTE;
use crate::grammar::RANGLE;
use crate::grammar::SPACE;
use crate::grammar::map_of;
use crate::grammar::spec_parse_attribute;
use crate::grammar::spec_parse_attrs;
use crate::grammar::spec_parse_attrs_more;
use crate::grammar::spec_parse_key;
use crate::grammar::spec_parse_tag;
use crate::grammar::spec_parse_val;
use crate::scan::Class;
use crate::scan::copy_range;
use crate::scan::run_end;
use crate::scan::scan;

verus! {

/// The token class a parser needed at the point where it stopped.
#[derive(Clone, Copy, Debug, PartialEq, Eq)]
pub enum Expected {
    Letter,
    Alphanumeric,
    Quote,
    Equals,
    Space,
    OpenAngle,
    CloseAngle,
    End,
}

/// Parsing stopped because the text at `position` did not begin the
/// `expected` token.
#[derive(Clone, Copy, Debug, PartialEq, Eq)]
pub struct ParseError {
    pub position: usize,
    pub expected: Expected,
}

/// Where and why a value parse fails, when it fails.
pub open spec fn val_err(s: Seq<u8>, pos: int) -> (int, Expected) {
    if !(pos < s.len() && s[pos] == QUOTE) {
        (pos, Expected::Quote)
    } else if run_end(s, pos + 1, Class::Alnum) == pos + 1 {
        (pos + 1, Expected::Alphanumeric)
    } else {
        (run_end(s, pos + 1, Class::Alnum), Expected::Quote)
    }
}

/// Where and why an attribute parse fails, when it fails.
pub open spec fn attr_err(s: Seq<u8>, pos: int) -> (int, Expected) {
    match spec_parse_key(s, pos) {
        None => (pos, Expected::Letter),
        Some((key, p1)) => {
            let p2 = run_end(s, p1, Class::Ws);
            if !(p2 < s.len() && s[p2] == EQUALS) {
                (p2, Expected::Equals)
            } else {
                val_err(s, run_end(s, p2 + 1, Class::Ws))
            }
        },
    }
}

/// Where and why a tag parse fails, when it fails.
pub open spec fn tag_err(s: Seq<u8>, pos: int) -> (int, Expected) {
    if !(pos < s.len() && s[pos] == LANGLE) {
        (pos, Expected::OpenAngle)
    } else {
        match spec_parse_key(s, pos + 1) {
            None => (pos + 1, Expected::Letter),
            Some((name, p1)) => {
                if !(p1 < s.len() && s[p1] == SPACE) {
                    (p1, Expected::Space)
                } else {
                    (spec_parse_attrs(s, p1 + 1).1, Expected::CloseAngle)
                }
            },
        }
    }
}

/// Parses an attribute key — one or more ASCII letters — at `pos`.
pub fn parse_key(input: &[u8], pos: usize) -> (r: Result<(Vec<u8>, usize), ParseError>)
    requires
        pos <= input@.len(),
    ensures
        match r {
            Ok((key, end)) => {
                &&& spec_parse_key(input@, pos as int) == Some((key@, end as int))
                &&& pos < end <= input@.len()
            },
            Err(e) => {
                &&& spec_parse_key(input@, pos as int) is None
                &&& e.position == pos
                &&& e.expected == Expected::Letter
            },
        },
{
    let end = scan(input, pos, Class::Alpha);
    if end > pos {
        Ok((copy_range(input, pos, end), end))
    } else {
        Err(ParseError { position: pos, expected: Expected::Letter })
    }
}

/// Parses a quoted attribute value — `"` then one or more ASCII letters or
/// digits then `"` — at `pos`.  The returned bytes exclude the quotes.
pub fn parse_val(input: &[u8], pos: usize) -> (r: Result<(Vec<u8>, usize), ParseError>)
    requires
        pos <= input@.len(),
    ensures
        match r {
            Ok((val, end)) => {
                &&& spec_parse_val(input@, pos as int) == Some((val@, end as int))
                &&& pos < end <= input@.len()
            },
            Err(e) => {
                &&& spec_parse_val(input@, pos as int) is None
                &&& (e.position as int, e.expected) == val_err(input@, pos as int)
            },
        },
{
    if pos < input.len() && input[pos] == QUOTE {
        let end = scan(input, pos + 1, Class::Alnum);
        if end == pos + 1 {
            Err(ParseError { position: end, expected: Expected::Alphanumeric })
        } else if end < input.len() && input[end] == QUOTE {
            Ok((copy_range(input, pos + 1, end), end + 1))
        } else {
            Err(ParseError { position: end, expected: Expected::Quote })
        }
    } else {
        Err(ParseError { position: pos, expected: Expected::Quote })
    }
}

/// Parses one `key="value"` attribute at `pos`, with optional whitespace on
/// either side of the `=`.
pub fn parse_attribute(input: &[u8], pos: usize) -> (r: Result<
    ((Vec<u8>, Vec<u8>), usize),
    ParseError,
>)
    requires
        pos <= input@.len(),
    ensures
        match r {
            Ok(((key, val), end)) => {
                &&& spec_parse_attribute(input@, pos as int) == Some(((key@, val@), end as int))
                &&& pos < end <= input@.len()
            },
            Err(e) => {
                &&& spec_parse_attribute(input@, pos as int) is None
                &&& (e.position as int, e.expected) == attr_err(input@, pos as int)
            },
        },
{
    let (key, p1) = match parse_key(input, pos) {
        Ok(kp) => kp,
        Err(e) => {
            return Err(e);
        },
    };
    let p2 = scan(input, p1, Class::Ws);
    if !(p2 < input.len() && input[p2] == EQUALS) {
        return Err(ParseError { position: p2, expected: Expected::Equals });
    }
    let p3 = scan(input, p2 + 1, Class::Ws);
    match parse_val(input, p3) {
        Ok((val, p4)) => Ok(((key, val), p4)),
        Err(e) => Err(e),
    }
}

impl Attributes {
    /// Parses zero or more comma-separated attributes at `pos`.
    ///
    /// Repetition never fails: the parse stops before the first place where
    /// no further attribute (or separator-and-attribute) matches, and
    /// returns what was recognized so far.  A duplicated key keeps the value
    /// of its last occurrence.
    pub fn parse(input: &[u8], pos: usize) -> (r: Result<(Attributes, usize), ParseError>)
        requires
            pos <= input@.len(),
        ensures
            match r {
                Ok((attrs, end)) => {
                    &&& attrs.wf()
                    &&& attrs@ == map_of(spec_parse_attrs(input@, pos as int).0)
                    &&& end as int == spec_parse_attrs(input@, pos as int).1
                    &&& pos <= end <= input@.len()
                },
                Err(e) => false,
            },
    {
        let ghost s = input@;
        let ghost p0 = pos as int;
        let mut attrs = Attributes::new();
        let ghost mut done: Seq<(Seq<u8>, Seq<u8>)> = Seq::empty();
        let mut cur: usize;
        match parse_attribute(input, pos) {
            Err(_) => {
                return Ok((attrs, pos));
            },
            Ok(((key, val), p1)) => {
                let ghost kv0 = (key@, val@);
                proof {
                    done = seq![kv0];
                    assert(done.drop_last() =~= Seq::<(Seq<u8>, Seq<u8>)>::empty());
                    assert(done.last() == kv0);
                }
                attrs.insert(key, val);
                proof {
                    assert(map_of(Seq::<(Seq<u8>, Seq<u8>)>::empty()) == Map::<
                        Seq<u8>,
                        Seq<u8>,
                    >::empty());
                    assert(attrs@ == map_of(done));
                }
                cur = p1;
            },
        }
        while cur < input.len() && input[cur] == COMMA
            invariant
                s == input@,
                p0 == pos as int,
                0 <= p0 <= cur <= s.len(),
                attrs.wf(),
                attrs@ == map_of(done),
                spec_parse_attrs(s, p0).0 == done + spec_parse_attrs_more(s, cur as int).0,
                spec_parse_attrs(s, p0).1 == spec_parse_attrs_more(s, cur as int).1,
            decreases s.len() - cur,
        {
            let p2 = scan(input, cur + 1, Class::Ws);
            match parse_attribute(input, p2) {
                Err(_) => {
                    proof {
                        assert(spec_parse_attrs_more(s, cur as int).0 =~= Seq::<
                            (Seq<u8>, Seq<u8>),
                        >::empty());
                        assert(done + spec_parse_attrs_more(s, cur as int).0 =~= done);
                    }
                    return Ok((attrs, cur));
                },
                Ok(((key, val), p3)) => {
                    let ghost kv = (key@, val@);
                    proof {
                        assert(spec_parse_attrs_more(s, cur as int).0 == seq![kv]
                            + spec_parse_attrs_more(s, p3 as int).0);
                        assert(done + (seq![kv] + spec_parse_attrs_more(s, p3 as int).0) =~= (
                        done.push(kv)) + spec_parse_attrs_more(s, p3 as int).0);
                        assert(done.push(kv).drop_last() =~= done);
                    }
                    attrs.insert(key, val);
                    proof {
                        done = done.push(kv);
                    }
                    cur = p3;
                },
            }
        }
        proof {
            assert(spec_parse_attrs_more(s, cur as int).0 =~= Seq::<(Seq<u8>, Seq<u8>)>::empty());
            assert(done + spec_parse_attrs_more(s, cur as int).0 =~= done);
        }
        Ok((attrs, cur))
    }
}

/// A parsed tag expression: the tag name and its attributes.
#[derive(Debug, PartialEq, Eq)]
pub struct Tag {
    /// The tag name, such as `div`.
    pub tag_type: Vec<u8>,
    pub attributes: Attributes,
}

impl Tag {
    /// Well-formed: the attribute mapping holds no key twice.
    pub open spec fn wf(&self) -> bool {
        self.attributes.wf()
    }

    /// Parses a whole tag expression — `<name attr="val", ...>` — at `pos`.
    ///
    /// The tag name is followed by exactly one space; the attribute list may
    /// be empty; the closing `>` must immediately follow it.
    pub fn parse(input: &[u8], pos: usize) -> (r: Result<(Tag, usize), ParseError>)
        requires
            pos <= input@.len(),
        ensures
            match r {
                Ok((tag, end)) => match spec_parse_tag(input@, pos as int) {
                    Some(((name, kvs), e)) => {
                        &&& tag.tag_type@ == name
                        &&& tag.attributes@ == map_of(kvs)
                        &&& tag.wf()
                        &&& end as int == e
                        &&& pos < end <= input@.len()
                    },
                    None => false,
                },
                Err(e) => {
                    &&& spec_parse_tag(input@, pos as int) is None
                    &&& (e.position as int, e.expected) == tag_err(input@, pos as int)
                },
            },
    {
        if !(pos < input.len() && input[pos] == LANGLE) {
            return Err(ParseError { position: pos, expected: Expected::OpenAngle });
        }
        let (name, p1) = match parse_key(input, pos + 1) {
            Ok(np) => np,
            Err(e) => {
                return Err(e);
            },
        };
        if !(p1 < input.len() && input[p1] == SPACE) {
            return Err(ParseError { position: p1, expected: Expected::Space });
        }
        let (attrs, p2) = match Attributes::parse(input, p1 + 1) {
            Ok(ap) => ap,
            Err(e) => {
                return Err(e);
            },
        };
        if p2 < input.len() && input[p2] == RANGLE {
            Ok((Tag { tag_type: name, attributes: attrs }, p2 + 1))
        } else {
            Err(ParseError { position: p2, expected: Expected::CloseAngle })
        }
    }
}

/// Parses the input as one complete tag expression: the tag must start at
/// the first byte and reach exactly to the last, with nothing after it.
pub fn parse(input: &[u8]) -> (r: Result<Tag, ParseError>)
    ensures
        match r {
            Ok(tag) => match spec_parse_tag(input@, 0) {
                Some(((name, kvs), end)) => {
                    &&& tag.tag_type@ == name
                    &&& tag.attributes@ == map_of(kvs)
                    &&& tag.wf()
                    &&& end == input@.len()
                },
                None => false,
            },
            Err(e) => match spec_parse_tag(input@, 0) {
                Some(((name, kvs), end)) => {
                    &&& end < input@.len()
                    &&& e.position == end
                    &&& e.expected == Expected::End
                },
                None => (e.position as int, e.expected) == tag_err(input@, 0),
            },
        },
{
    match Tag::parse(input, 0) {
        Ok((tag, end)) => {
            if end == input.len() {
                Ok(tag)
            } else {
                Err(ParseError { position: end, expected: Expected::End })
            }
        },
        Err(e) => Err(e),
    }
}

} // verus!
