//! The attribute mapping built from parsed key/value pairs.

use vstd::prelude::*;

use crate::grammar::map_of;
use crate::scan::bytes_eq;

verus! {

/// The attributes of one tag: a mapping from keys to quoted values.
///
/// The pairs are held in the order they were inserted; a key never occurs
/// twice, because inserting an existing key replaces its value (last write
/// wins).  Viewed abstractly, a value of this type is the `Map` that folds
/// the pairs left to right.
#[derive(Debug, PartialEq, Eq)]
pub struct Attributes {
    kvs: Vec<(Vec<u8>, Vec<u8>)>,
}

impl View for Attributes {
    type V = Map<Seq<u8>, Seq<u8>>;

    open spec fn view(&self) -> Map<Seq<u8>, Seq<u8>> {
        map_of(self.pairs())
    }
}

impl Attributes {
    /// The held pairs, as mathematical sequences.
    pub closed spec fn pairs(&self) -> Seq<(Seq<u8>, Seq<u8>)> {
        self.kvs@.map_values(|kv: (Vec<u8>, Vec<u8>)| (kv.0@, kv.1@))
    }

    /// Well-formed: no key occurs twice.
    pub closed spec fn wf(&self) -> bool {
        forall|i: int, j: int|
            0 <= i < j < self.pairs().len() ==> (#[trigger] self.pairs()[i]).0 != (
            #[trigger] self.pairs()[j]).0
    }

    /// Creates an empty mapping.
    pub fn new() -> (r: Attributes)
        ensures
            r@ == Map::<Seq<u8>, Seq<u8>>::empty(),
            r.wf(),
    {
        let r = Attributes { kvs: Vec::new() };
        proof {
            assert(r.pairs() =~= Seq::<(Seq<u8>, Seq<u8>)>::empty());
        }
        r
    }

    /// Inserts a pair; an existing pair with the same key is replaced.
    pub fn insert(&mut self, key: Vec<u8>, val: Vec<u8>)
        requires
            old(self).wf(),
        ensures
            final(self).wf(),
            final(self)@ == old(self)@.insert(key@, val@),
    {
        let ghost gkey = key@;
        let ghost gval = val@;
        let mut i: usize = 0;
        while i < self.kvs.len()
            invariant
                i <= self.kvs@.len(),
                *self == *old(self),
                old(self).wf(),
                gkey == key@,
                gval == val@,
                forall|j: int| 0 <= j < i ==> (#[trigger] self.pairs()[j]).0 != gkey,
            decreases self.kvs@.len() - i,
        {
            assert(self.pairs()[i as int] == (self.kvs@[i as int].0@, self.kvs@[i as int].1@));
            if bytes_eq(self.kvs[i].0.as_slice(), key.as_slice()) {
                assert(self.pairs()[i as int].0 == gkey);
                self.kvs[i] = (key, val);
                proof {
                    assert(self.pairs() =~= old(self).pairs().update(i as int, (gkey, gval)));
                    lemma_map_of_update(old(self).pairs(), i as int, gkey, gval);
                    assert forall|a: int, b: int|
                        0 <= a < b < self.pairs().len() implies (#[trigger] self.pairs()[a]).0 != (
                    #[trigger] self.pairs()[b]).0 by {
                        assert(old(self).pairs()[a].0 == self.pairs()[a].0);
                        assert(old(self).pairs()[b].0 == self.pairs()[b].0);
                    }
                }
                return ;
            }
            i = i + 1;
        }
        self.kvs.push((key, val));
        proof {
            assert(self.pairs() =~= old(self).pairs().push((gkey, gval)));
            lemma_map_of_push(old(self).pairs(), gkey, gval);
        }
    }

    /// Looks up the value stored under `key`.
    pub fn get(&self, key: &[u8]) -> (r: Option<&Vec<u8>>)
        requires
            self.wf(),
        ensures
            match r {
                Some(val) => self@.contains_key(key@) && self@[key@] == val@,
                None => !self@.contains_key(key@),
            },
    {
        let mut i: usize = 0;
        while i < self.kvs.len()
            invariant
                i <= self.kvs@.len(),
                self.wf(),
                forall|j: int| 0 <= j < i ==> (#[trigger] self.pairs()[j]).0 != key@,
            decreases self.kvs@.len() - i,
        {
            assert(self.pairs()[i as int] == (self.kvs@[i as int].0@, self.kvs@[i as int].1@));
            if bytes_eq(self.kvs[i].0.as_slice(), key) {
                proof {
                    lemma_map_of_lookup(self.pairs(), i as int);
                }
                return Some(&self.kvs[i].1);
            }
            i = i + 1;
        }
        proof {
            lemma_map_of_absent(self.pairs(), key@);
        }
        None
    }
}

pub proof fn lemma_map_of_push(kvs: Seq<(Seq<u8>, Seq<u8>)>, key: Seq<u8>, val: Seq<u8>)
    ensures
        map_of(kvs.push((key, val))) == map_of(kvs).insert(key, val),
{
    assert(kvs.push((key, val)).drop_last() =~= kvs);
    assert(kvs.push((key, val)).last() == (key, val));
}

/// In a run of pairs with pairwise distinct keys, each pair is found in the
/// denoted mapping.
pub proof fn lemma_map_of_lookup(kvs: Seq<(Seq<u8>, Seq<u8>)>, i: int)
    requires
        0 <= i < kvs.len(),
        forall|a: int, b: int|
            0 <= a < b < kvs.len() ==> (#[trigger] kvs[a]).0 != (#[trigger] kvs[b]).0,
    ensures
        map_of(kvs).contains_key(kvs[i].0),
        map_of(kvs)[kvs[i].0] == kvs[i].1,
    decreases kvs.len(),
{
    if i < kvs.len() - 1 {
        assert(forall|a: int, b: int|
            0 <= a < b < kvs.drop_last().len() ==> (#[trigger] kvs.drop_last()[a]).0 != (
            #[trigger] kvs.drop_last()[b]).0);
        lemma_map_of_lookup(kvs.drop_last(), i);
        assert(kvs[i].0 != kvs.last().0);
    }
}

/// A key held by no pair is absent from the denoted mapping.
pub proof fn lemma_map_of_absent(kvs: Seq<(Seq<u8>, Seq<u8>)>, key: Seq<u8>)
    requires
        forall|i: int| 0 <= i < kvs.len() ==> (#[trigger] kvs[i]).0 != key,
    ensures
        !map_of(kvs).contains_key(key),
    decreases kvs.len(),
{
    if kvs.len() > 0 {
        assert(forall|i: int|
            0 <= i < kvs.drop_last().len() ==> (#[trigger] kvs.drop_last()[i]).0 != key);
        lemma_map_of_absent(kvs.drop_last(), key);
    }
}

/// Replacing the pair that holds `key` denotes the same mapping as
/// inserting `key` anew.
pub proof fn lemma_map_of_update(kvs: Seq<(Seq<u8>, Seq<u8>)>, i: int, key: Seq<u8>, val: Seq<u8>)
    requires
        0 <= i < kvs.len(),
        kvs[i].0 == key,
        forall|a: int, b: int|
            0 <= a < b < kvs.len() ==> (#[trigger] kvs[a]).0 != (#[trigger] kvs[b]).0,
    ensures
        map_of(kvs.update(i, (key, val))) == map_of(kvs).insert(key, val),
    decreases kvs.len(),
{
    let upd = kvs.update(i, (key, val));
    if i == kvs.len() - 1 {
        assert(upd.drop_last() =~= kvs.drop_last());
        assert(upd.last() == (key, val));
        assert(map_of(kvs.drop_last()).insert(key, kvs.last().1).insert(key, val) =~= map_of(
            kvs.drop_last(),
        ).insert(key, val));
    } else {
        assert(forall|a: int, b: int|
            0 <= a < b < kvs.drop_last().len() ==> (#[trigger] kvs.drop_last()[a]).0 != (
            #[trigger] kvs.drop_last()[b]).0);
        lemma_map_of_update(kvs.drop_last(), i, key, val);
        assert(upd.drop_last() =~= kvs.drop_last().update(i, (key, val)));
        assert(upd.last() == kvs.last());
        assert(kvs.last().0 != key);
        assert(map_of(kvs.drop_last()).insert(key, val).insert(kvs.last().0, kvs.last().1) =~= map_of(
            kvs.drop_last(),
        ).insert(kvs.last().0, kvs.last().1).insert(key, val));
    }
}

} // verus!
