use vstd::prelude::*;

use crate::hash::Digest;

verus! {

/// The value that the last entry with key `k` carries, if any: a later entry
/// overrides an earlier one.
pub open spec fn lookup<V: View>(s: Seq<(Digest, V)>, k: Seq<u8>) -> Option<V::V>
    decreases s.len(),
{
    if s.len() == 0 {
        None
    } else if s.last().0@ == k {
        Some(s.last().1@)
    } else {
        lookup(s.drop_last(), k)
    }
}

/// A map keyed by digests, kept as a log of insertions.
#[derive(Debug)]
pub struct DigestMap<V> {
    entries: Vec<(Digest, V)>,
}

impl<V: View> View for DigestMap<V> {
    type V = Map<Seq<u8>, V::V>;

    closed spec fn view(&self) -> Map<Seq<u8>, V::V> {
        Map::new(
            |k: Seq<u8>| lookup(self.entries@, k) is Some,
            |k: Seq<u8>| lookup(self.entries@, k)->0,
        )
    }
}

impl<V: View> DigestMap<V> {
    pub fn new() -> (r: DigestMap<V>)
        ensures
            r@ == Map::<Seq<u8>, V::V>::empty(),
    {
        let r = DigestMap { entries: Vec::new() };
        assert(r@ =~= Map::<Seq<u8>, V::V>::empty());
        r
    }

    /// Binds `k` to `v`, replacing any earlier binding of `k`.
    pub fn insert(&mut self, k: Digest, v: V)
        ensures
            final(self)@ == old(self)@.insert(k@, v@),
    {
        let ghost before = self.entries@;
        self.entries.push((k, v));
        assert(self.entries@.drop_last() =~= before);
        assert(self@ =~= old(self)@.insert(k@, v@));
    }

    /// The value bound to `k`.
    pub fn get(&self, k: &Digest) -> (r: Option<&V>)
        ensures
            r is Some <==> self@.contains_key(k@),
            r matches Some(v) ==> self@[k@] == v@,
    {
        let mut i: usize = self.entries.len();
        assert(self.entries@.take(i as int) =~= self.entries@);
        while i > 0
            invariant
                i <= self.entries@.len(),
                lookup(self.entries@.take(i as int), k@) == lookup(self.entries@, k@),
            decreases i,
        {
            let ghost s = self.entries@.take(i as int);
            assert(s.drop_last() =~= self.entries@.take(i - 1));
            if self.entries[i - 1].0.same_as(k) {
                return Some(&self.entries[i - 1].1);
            }
            i = i - 1;
        }
        None
    }
}

} // verus!
