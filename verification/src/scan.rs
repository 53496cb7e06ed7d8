//! Character classes of the grammar and scanning over runs of one class.

use vstd::prelude::*;

verus! {

/// The byte classes the grammar is built from: ASCII letters, ASCII letters
/// and digits, and the whitespace accepted around `=` and after `,`
/// (space, tab, line feed, carriage return).
#[derive(Clone, Copy, Debug, PartialEq, Eq)]
pub enum Class {
    Alpha,
    Alnum,
    Ws,
}

pub open spec fn in_class(c: Class, b: u8) -> bool {
    match c {
        Class::Alpha => (65 <= b && b <= 90) || (97 <= b && b <= 122),
        Class::Alnum => (65 <= b && b <= 90) || (97 <= b && b <= 122) || (48 <= b && b <= 57),
        Class::Ws => b == 32 || b == 9 || b == 10 || b == 13,
    }
}

/// The end of the run of `c`-class bytes that starts at `pos`: the first
/// position at or past `pos` whose byte is out of the class, or the end of
/// `s` when the run reaches it.
pub open spec fn run_end(s: Seq<u8>, pos: int, c: Class) -> int
    decreases s.len() - pos,
{
    if pos < s.len() && in_class(c, s[pos]) {
        run_end(s, pos + 1, c)
    } else {
        pos
    }
}

pub proof fn lemma_run_end_props(s: Seq<u8>, pos: int, c: Class)
    requires
        0 <= pos <= s.len(),
    ensures
        pos <= run_end(s, pos, c) <= s.len(),
        forall|i: int| pos <= i < run_end(s, pos, c) ==> in_class(c, s[i]),
        run_end(s, pos, c) < s.len() ==> !in_class(c, s[run_end(s, pos, c)]),
    decreases s.len() - pos,
{
    if pos < s.len() && in_class(c, s[pos]) {
        lemma_run_end_props(s, pos + 1, c);
    }
}

pub proof fn lemma_run_end_is(s: Seq<u8>, pos: int, q: int, c: Class)
    requires
        0 <= pos <= q <= s.len(),
        forall|i: int| pos <= i < q ==> in_class(c, s[i]),
        q == s.len() || !in_class(c, s[q]),
    ensures
        run_end(s, pos, c) == q,
    decreases q - pos,
{
    if pos < q {
        assert(in_class(c, s[pos]));
        lemma_run_end_is(s, pos + 1, q, c);
    }
}

/// A run that ends at or before `m` is unchanged when `s` is cut off at `m`.
pub proof fn lemma_run_end_prefix(s: Seq<u8>, m: int, pos: int, c: Class)
    requires
        0 <= pos <= m <= s.len(),
        run_end(s, pos, c) <= m,
    ensures
        run_end(s.subrange(0, m), pos, c) == run_end(s, pos, c),
{
    let q = run_end(s, pos, c);
    let t = s.subrange(0, m);
    lemma_run_end_props(s, pos, c);
    assert forall|i: int| pos <= i < q implies in_class(c, t[i]) by {
        assert(t[i] == s[i]);
    }
    if q < m {
        assert(t[q] == s[q]);
    }
    lemma_run_end_is(t, pos, q, c);
}

pub fn byte_in_class(c: Class, b: u8) -> (r: bool)
    ensures
        r == in_class(c, b),
{
    match c {
        Class::Alpha => (65 <= b && b <= 90) || (97 <= b && b <= 122),
        Class::Alnum => (65 <= b && b <= 90) || (97 <= b && b <= 122) || (48 <= b && b <= 57),
        Class::Ws => b == 32 || b == 9 || b == 10 || b == 13,
    }
}

/// Advances the cursor past the run of `c`-class bytes that starts at `pos`.
pub fn scan(s: &[u8], pos: usize, c: Class) -> (r: usize)
    requires
        pos <= s@.len(),
    ensures
        r == run_end(s@, pos as int, c),
        pos <= r <= s@.len(),
{
    let mut i: usize = pos;
    while i < s.len() && byte_in_class(c, s[i])
        invariant
            pos <= i <= s@.len(),
            run_end(s@, pos as int, c) == run_end(s@, i as int, c),
        decreases s@.len() - i,
    {
        i = i + 1;
    }
    proof {
        lemma_run_end_props(s@, pos as int, c);
    }
    i
}

/// Byte-for-byte equality of two byte strings.
pub fn bytes_eq(a: &[u8], b: &[u8]) -> (r: bool)
    ensures
        r == (a@ == b@),
{
    if a.len() != b.len() {
        return false;
    }
    let mut i: usize = 0;
    while i < a.len()
        invariant
            i <= a@.len(),
            a@.len() == b@.len(),
            forall|j: int| 0 <= j < i ==> a@[j] == b@[j],
        decreases a@.len() - i,
    {
        if a[i] != b[i] {
            return false;
        }
        i = i + 1;
    }
    proof {
        assert(a@ =~= b@);
    }
    true
}

/// Copies `s[from..to]` into a fresh vector.
pub fn copy_range(s: &[u8], from: usize, to: usize) -> (r: Vec<u8>)
    requires
        from <= to <= s@.len(),
    ensures
        r@ == s@.subrange(from as int, to as int),
{
    let mut out: Vec<u8> = Vec::new();
    let mut i: usize = from;
    proof {
        assert(out@ =~= s@.subrange(from as int, from as int));
    }
    while i < to
        invariant
            from <= i <= to <= s@.len(),
            out@ == s@.subrange(from as int, i as int),
        decreases to - i,
    {
        out.push(s[i]);
        proof {
            assert(out@ =~= s@.subrange(from as int, i + 1));
        }
        i = i + 1;
    }
    out
}

} // verus!
