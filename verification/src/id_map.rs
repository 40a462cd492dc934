//! A map from integer ids to values, held in a `std::collections::HashMap`:
//! the registries of popups and lock surfaces.

use std::collections::HashMap;

use vstd::prelude::*;
use vstd::std_specs::iter::IteratorSpec;

verus! {

broadcast use vstd::std_specs::hash::group_hash_axioms;

/// Whether `k` is one of `keys`.
fn contains_key_in(keys: &Vec<u64>, k: u64) -> (b: bool)
    ensures
        b == keys@.contains(k),
{
    let mut i: usize = 0;
    while i < keys.len()
        invariant
            i <= keys@.len(),
            forall|j: int| 0 <= j < i ==> keys@[j] != k,
        decreases keys@.len() - i,
    {
        if keys[i] == k {
            return true;
        }
        i = i + 1;
    }
    false
}

/// A map from `u64` ids to small copyable values.
pub struct IdMap<V> {
    map: HashMap<u64, V>,
}

impl<V: Copy> IdMap<V> {
    pub closed spec fn view(&self) -> Map<u64, V> {
        self.map@
    }

    /// The map is always well formed; kept so that callers can say so.
    pub closed spec fn wf(&self) -> bool {
        true
    }

    /// The empty map.
    pub fn new() -> (m: Self)
        ensures
            m.wf(),
            m.view() == Map::<u64, V>::empty(),
    {
        IdMap { map: HashMap::new() }
    }

    /// The value kept for `k`.
    pub fn get(&self, k: u64) -> (r: Option<V>)
        requires
            self.wf(),
        ensures
            r == (if self.view().dom().contains(k) {
                Some(self.view()[k])
            } else {
                None
            }),
    {
        match self.map.get(&k) {
            Some(v) => Some(*v),
            None => None,
        }
    }

    /// Whether `k` is kept.
    pub fn contains_key(&self, k: u64) -> (b: bool)
        requires
            self.wf(),
        ensures
            b == self.view().dom().contains(k),
    {
        self.map.contains_key(&k)
    }

    /// Keep `v` for `k`, replacing what was kept for it.
    pub fn insert(&mut self, k: u64, v: V)
        requires
            old(self).wf(),
        ensures
            final(self).wf(),
            final(self).view() == old(self).view().insert(k, v),
    {
        self.map.insert(k, v);
    }

    /// Forget `k`, handing back what was kept for it.
    pub fn remove(&mut self, k: u64) -> (r: Option<V>)
        requires
            old(self).wf(),
        ensures
            final(self).wf(),
            final(self).view() == old(self).view().remove(k),
            r == (if old(self).view().dom().contains(k) {
                Some(old(self).view()[k])
            } else {
                None
            }),
    {
        self.map.remove(&k)
    }

    /// Forget everything.
    pub fn clear(&mut self)
        ensures
            final(self).wf(),
            final(self).view() == Map::<u64, V>::empty(),
    {
        self.map.clear();
    }

    /// How many ids are kept.
    pub fn len(&self) -> (n: usize)
        requires
            self.wf(),
        ensures
            n == self.view().dom().len(),
    {
        self.map.len()
    }

    /// Every id kept, each once.
    fn keys(&self) -> (r: Vec<u64>)
        ensures
            r@.to_set() == self.view().dom(),
            r@.no_duplicates(),
            r@.len() == self.view().dom().len(),
    {
        let ghost ks = IteratorSpec::remaining(&vstd::std_specs::hash::spec_keys_iter(&self.map));
        let mut out: Vec<u64> = Vec::new();
        for k in it: self.map.keys()
            invariant
                it.seq() == ks,
                out@.len() == it.index(),
                forall|j: int| 0 <= j < it.index() ==> out@[j] == *ks[j],
        {
            out.push(*k);
        }
        proof {
            assert(out@.len() == ks.len());
            assert(out@ =~= ks.unref());
        }
        out
    }

    /// Take every value, emptying the map.
    pub fn drain_values(&mut self) -> (r: Vec<V>)
        requires
            old(self).wf(),
        ensures
            final(self).wf(),
            final(self).view() == Map::<u64, V>::empty(),
            r@.len() == old(self).view().dom().len(),
            forall|v: V|
                r@.contains(v) <==> exists|k: u64|
                    old(self).view().dom().contains(k) && old(self).view()[k] == v,
    {
        let ghost m = self.view();
        let keys = self.keys();
        let mut out: Vec<V> = Vec::new();
        let mut i: usize = 0;
        while i < keys.len()
            invariant
                self.view() == m,
                keys@.to_set() == m.dom(),
                i <= keys@.len(),
                out@.len() == i,
                forall|j: int| 0 <= j < i ==> out@[j] == m[keys@[j]],
            decreases keys@.len() - i,
        {
            proof {
                assert(keys@.to_set().contains(keys@[i as int]));
            }
            let v = self.get(keys[i]).unwrap();
            out.push(v);
            i = i + 1;
        }
        proof {
            assert forall|v: V| out@.contains(v) implies exists|k: u64|
                m.dom().contains(k) && m[k] == v by {
                let j = choose|j: int| 0 <= j < out@.len() && out@[j] == v;
                assert(keys@.to_set().contains(keys@[j]));
            }
            assert forall|v: V| (exists|k: u64| m.dom().contains(k) && m[k] == v) implies out@.contains(
                v,
            ) by {
                let k = choose|k: u64| m.dom().contains(k) && m[k] == v;
                assert(keys@.to_set().contains(k));
                let j = choose|j: int| 0 <= j < keys@.len() && keys@[j] == k;
                assert(out@[j] == v);
            }
        }
        self.map.clear();
        out
    }

    /// Keep only the ids in `keep`, handing back the values of the others.
    pub fn retain_keys(&mut self, keep: &Vec<u64>) -> (removed: Vec<V>)
        requires
            old(self).wf(),
        ensures
            final(self).wf(),
            final(self).view() == old(self).view().restrict(keep@.to_set()),
            removed@.len() + final(self).view().dom().len() == old(self).view().dom().len(),
            forall|v: V|
                removed@.contains(v) <==> exists|k: u64|
                    old(self).view().dom().contains(k) && !keep@.contains(k) && old(self).view()[k]
                        == v,
    {
        let ghost m = self.view();
        let keys = self.keys();
        let mut removed: Vec<V> = Vec::new();
        let mut i: usize = 0;
        while i < keys.len()
            invariant
                keys@.to_set() == m.dom(),
                keys@.no_duplicates(),
                i <= keys@.len(),
                removed@.len() + self.view().dom().len() == m.dom().len(),
                forall|k: u64|
                    #[trigger] self.view().dom().contains(k) <==> (m.dom().contains(k) && (keep@.contains(k)
                        || !keys@.subrange(0, i as int).contains(k))),
                forall|k: u64| #[trigger] self.view().dom().contains(k) ==> self.view()[k] == m[k],
                forall|v: V|
                    removed@.contains(v) <==> exists|k: u64|
                        keys@.subrange(0, i as int).contains(k) && !keep@.contains(k) && m[k] == v,
            decreases keys@.len() - i,
        {
            let k = keys[i];
            let ghost before = self.view();
            let ghost removed_before = removed@;
            proof {
                assert(keys@.to_set().contains(k));
                assert(keys@.subrange(0, i + 1) =~= keys@.subrange(0, i as int).push(k));
                assert(!keys@.subrange(0, i as int).contains(k)) by {
                    if keys@.subrange(0, i as int).contains(k) {
                        let j = choose|j: int| 0 <= j < i && keys@.subrange(0, i as int)[j] == k;
                        assert(keys@[j] == keys@[i as int]);
                    }
                }
            }
            let keep_it = contains_key_in(keep, k);
            if !keep_it {
                let v = self.remove(k).unwrap();
                removed.push(v);
                proof {
                    assert forall|w: V| removed@.contains(w) <==> exists|kk: u64|
                        keys@.subrange(0, i + 1).contains(kk) && !keep@.contains(kk) && m[kk] == w by {
                        if removed@.contains(w) {
                            let t = choose|t: int| 0 <= t < removed@.len() && removed@[t] == w;
                            if t < removed_before.len() {
                                assert(removed_before[t] == w);
                                assert(removed_before.contains(w));
                                let kk = choose|kk: u64|
                                    keys@.subrange(0, i as int).contains(kk) && !keep@.contains(kk) && m[kk]
                                        == w;
                                assert(keys@.subrange(0, i + 1).contains(kk));
                            } else {
                                assert(keys@.subrange(0, i + 1)[i as int] == k);
                            }
                        }
                        if exists|kk: u64|
                            keys@.subrange(0, i + 1).contains(kk) && !keep@.contains(kk) && m[kk] == w {
                            let kk = choose|kk: u64|
                                keys@.subrange(0, i + 1).contains(kk) && !keep@.contains(kk) && m[kk] == w;
                            if kk == k {
                                assert(removed@[removed@.len() - 1] == w);
                            } else {
                                assert(keys@.subrange(0, i as int).contains(kk));
                                assert(removed_before.contains(w));
                                let t = choose|t: int| 0 <= t < removed_before.len() && removed_before[t] == w;
                                assert(removed@[t] == w);
                            }
                        }
                    }
                }
            } else {
                proof {
                    assert forall|w: V| removed@.contains(w) <==> exists|kk: u64|
                        keys@.subrange(0, i + 1).contains(kk) && !keep@.contains(kk) && m[kk] == w by {
                        if removed@.contains(w) {
                            let kk = choose|kk: u64|
                                keys@.subrange(0, i as int).contains(kk) && !keep@.contains(kk) && m[kk] == w;
                            assert(keys@.subrange(0, i + 1).contains(kk));
                        }
                        if exists|kk: u64|
                            keys@.subrange(0, i + 1).contains(kk) && !keep@.contains(kk) && m[kk] == w {
                            let kk = choose|kk: u64|
                                keys@.subrange(0, i + 1).contains(kk) && !keep@.contains(kk) && m[kk] == w;
                            assert(kk != k);
                            assert(keys@.subrange(0, i as int).contains(kk));
                        }
                    }
                }
            }
            proof {
                assert forall|kk: u64| #[trigger] self.view().dom().contains(kk) <==> (m.dom().contains(kk) && (
                keep@.contains(kk) || !keys@.subrange(0, i + 1).contains(kk))) by {
                    if keys@.subrange(0, i + 1).contains(kk) && kk != k {
                        let j = choose|j: int| 0 <= j < i + 1 && #[trigger] keys@.subrange(0, i + 1)[j] == kk;
                        assert(keys@.subrange(0, i as int)[j] == kk);
                    }
                    if keys@.subrange(0, i as int).contains(kk) {
                        let j = choose|j: int| 0 <= j < i && #[trigger] keys@.subrange(0, i as int)[j] == kk;
                        assert(keys@.subrange(0, i + 1)[j] == kk);
                    }
                    assert(keys@.subrange(0, i + 1)[i as int] == k);
                }
            }
            i = i + 1;
        }
        proof {
            assert(keys@.subrange(0, keys@.len() as int) =~= keys@);
            assert forall|k: u64| keys@.contains(k) <==> m.dom().contains(k) by {
                assert(keys@.to_set().contains(k) <==> keys@.contains(k));
            }
            assert(self.view() =~= m.restrict(keep@.to_set()));
        }
        removed
    }
}

} // verus!
