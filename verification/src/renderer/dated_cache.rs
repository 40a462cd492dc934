//! A cache of rasterized textures by key, each dated with the frame that
//! last used it, for the text renderers: found by key, marked on a hit, and
//! swept of entries not used recently.

use vstd::prelude::*;

verus! {

/// A key a rasterized texture is found by: what it stands for, and how two
/// keys are compared.
pub trait TextureKey {
    /// The value a key stands for: two keys find the same texture exactly
    /// when they stand for the same value.
    type V;

    spec fn key_view(&self) -> Self::V;

    /// Whether `self` and `other` stand for the same value.
    fn same(&self, other: &Self) -> (b: bool)
        ensures
            b == (self.key_view() == other.key_view()),
    ;
}

/// One cached texture as a value: its key, the texture, and the frame that
/// last used it.
pub open spec fn entry_view<K: TextureKey, T>(e: (K, T, u64)) -> (K::V, T, u64) {
    (e.0.key_view(), e.1, e.2)
}

/// Whether some entry is found by `k`.
pub open spec fn holds<V, T>(s: Seq<(V, T, u64)>, k: V) -> bool {
    exists|i: int| 0 <= i < s.len() && s[i].0 == k
}

/// No key is held twice.
pub open spec fn distinct<V, T>(s: Seq<(V, T, u64)>) -> bool {
    forall|i: int, j: int| 0 <= i < j < s.len() ==> s[i].0 != s[j].0
}

/// Textures by key, and the frame counter that dates their use.
pub struct DatedCache<K, T> {
    entries: Vec<(K, T, u64)>,
    frame_gen: u64,
}

impl<K: TextureKey, T> DatedCache<K, T> {
    /// The entries as values, in the order they are kept.
    pub closed spec fn slots(&self) -> Seq<(K::V, T, u64)> {
        self.entries@.map_values(|e: (K, T, u64)| entry_view(e))
    }

    /// The current frame.
    pub closed spec fn frame(&self) -> u64 {
        self.frame_gen
    }

    /// No key twice, and no entry dated after the current frame.
    pub closed spec fn wf(&self) -> bool {
        &&& distinct(self.slots())
        &&& forall|i: int| 0 <= i < self.slots().len() ==> #[trigger] self.slots()[i].2 <= self.frame_gen
    }

    /// No entry is dated after the current frame.
    pub proof fn lemma_dated_no_later(&self)
        requires
            self.wf(),
        ensures
            forall|i: int| 0 <= i < self.slots().len() ==> #[trigger] self.slots()[i].2 <= self.frame(),
    {
    }

    /// Nothing cached, at frame 0.
    pub fn new() -> (c: Self)
        ensures
            c.wf(),
            c.slots() == Seq::<(K::V, T, u64)>::empty(),
            c.frame() == 0,
    {
        let c = DatedCache { entries: Vec::new(), frame_gen: 0 };
        proof {
            assert(c.slots() =~= Seq::<(K::V, T, u64)>::empty());
        }
        c
    }

    /// The current frame.
    pub fn frame_value(&self) -> (f: u64)
        ensures
            f == self.frame(),
    {
        self.frame_gen
    }

    /// How many textures are cached.
    pub fn len(&self) -> (n: usize)
        ensures
            n == self.slots().len(),
    {
        self.entries.len()
    }

    /// The next frame.
    pub fn advance(&mut self)
        requires
            old(self).wf(),
            old(self).frame() < u64::MAX,
        ensures
            final(self).wf(),
            final(self).frame() == old(self).frame() + 1,
            final(self).slots() == old(self).slots(),
    {
        self.frame_gen = self.frame_gen + 1;
    }

    /// Where `key` is kept, if anywhere.
    fn position(&self, key: &K) -> (r: Option<usize>)
        ensures
            match r {
                Some(i) => i < self.slots().len() && self.slots()[i as int].0 == key.key_view(),
                None => !holds(self.slots(), key.key_view()),
            },
    {
        let mut i: usize = 0;
        while i < self.entries.len()
            invariant
                i <= self.entries@.len(),
                forall|j: int| 0 <= j < i ==> #[trigger] self.slots()[j].0 != key.key_view(),
            decreases self.entries@.len() - i,
        {
            if self.entries[i].0.same(key) {
                return Some(i);
            }
            i = i + 1;
        }
        None
    }

    /// Whether `key` is cached; a hit is dated to the current frame, and
    /// nothing else changes.
    pub fn lookup(&mut self, key: &K) -> (hit: bool)
        requires
            old(self).wf(),
        ensures
            final(self).wf(),
            hit == holds(old(self).slots(), key.key_view()),
            final(self).frame() == old(self).frame(),
            final(self).slots().len() == old(self).slots().len(),
            forall|i: int|
                0 <= i < old(self).slots().len() ==> #[trigger] final(self).slots()[i] == (if old(self).slots()[i].0
                    == key.key_view() {
                    (old(self).slots()[i].0, old(self).slots()[i].1, old(self).frame())
                } else {
                    old(self).slots()[i]
                }),
    {
        match self.position(key) {
            Some(i) => {
                let frame = self.frame_gen;
                self.entries[i].2 = frame;
                proof {
                    assert forall|j: int| 0 <= j < old(self).slots().len() && j != i implies old(self).slots()[j].0
                        != key.key_view() by {
                        if j < i {
                            assert(old(self).slots()[j].0 != old(self).slots()[i as int].0);
                        } else {
                            assert(old(self).slots()[i as int].0 != old(self).slots()[j].0);
                        }
                    }
                    assert forall|j: int| 0 <= j < self.slots().len() implies #[trigger] self.slots()[j]
                        == (if old(self).slots()[j].0 == key.key_view() {
                        (old(self).slots()[j].0, old(self).slots()[j].1, old(self).frame())
                    } else {
                        old(self).slots()[j]
                    }) by {
                        if j != i {
                            assert(self.entries@[j] == old(self).entries@[j]);
                        }
                    }
                    assert(distinct(self.slots())) by {
                        assert forall|a: int, b: int| 0 <= a < b < self.slots().len() implies self.slots()[a].0
                            != self.slots()[b].0 by {
                            assert(old(self).slots()[a].0 != old(self).slots()[b].0);
                        }
                    }
                }
                true
            },
            None => {
                proof {
                    assert(self.slots() =~= old(self).slots());
                }
                false
            },
        }
    }

    /// The texture cached for `key`.
    pub fn get(&self, key: &K) -> (r: Option<&T>)
        requires
            self.wf(),
        ensures
            match r {
                Some(t) => exists|i: int|
                    0 <= i < self.slots().len() && self.slots()[i].0 == key.key_view() && self.slots()[i].1
                        == *t,
                None => !holds(self.slots(), key.key_view()),
            },
    {
        match self.position(key) {
            Some(i) => {
                proof {
                    assert(self.slots()[i as int].1 == self.entries@[i as int].1);
                }
                Some(&self.entries[i].1)
            },
            None => None,
        }
    }

    /// Cache `texture` under `key`, dated to the current frame, in place of
    /// any texture the key found.
    pub fn insert(&mut self, key: K, texture: T)
        requires
            old(self).wf(),
        ensures
            final(self).wf(),
            final(self).frame() == old(self).frame(),
            holds(old(self).slots(), key.key_view()) ==> exists|i: int|
                0 <= i < old(self).slots().len() && old(self).slots()[i].0 == key.key_view()
                    && final(self).slots() == old(self).slots().update(i, (key.key_view(), texture, old(self).frame())),
            !holds(old(self).slots(), key.key_view()) ==> final(self).slots() == old(self).slots().push(
                (key.key_view(), texture, old(self).frame()),
            ),
    {
        let frame = self.frame_gen;
        let ghost kv = key.key_view();
        match self.position(&key) {
            Some(i) => {
                self.entries.set(i, (key, texture, frame));
                proof {
                    assert(self.slots() =~= old(self).slots().update(i as int, (kv, texture, frame)));
                    assert forall|a: int, b: int| 0 <= a < b < self.slots().len() implies self.slots()[a].0
                        != self.slots()[b].0 by {
                        assert(old(self).slots()[a].0 != old(self).slots()[b].0);
                    }
                    assert forall|j: int| 0 <= j < self.slots().len() implies #[trigger] self.slots()[j].2
                        <= self.frame_gen by {
                        if j != i {
                            assert(self.slots()[j] == old(self).slots()[j]);
                        }
                    }
                }
            },
            None => {
                self.entries.push((key, texture, frame));
                proof {
                    assert(self.slots() =~= old(self).slots().push((kv, texture, frame)));
                    assert forall|a: int, b: int| 0 <= a < b < self.slots().len() implies self.slots()[a].0
                        != self.slots()[b].0 by {
                        if b == self.slots().len() - 1 {
                            assert(self.slots()[a] == old(self).slots()[a]);
                        } else {
                            assert(old(self).slots()[a].0 != old(self).slots()[b].0);
                        }
                    }
                    assert forall|j: int| 0 <= j < self.slots().len() implies #[trigger] self.slots()[j].2
                        <= self.frame_gen by {
                        if j < old(self).slots().len() {
                            assert(self.slots()[j] == old(self).slots()[j]);
                        }
                    }
                }
            },
        }
    }

    /// Keep only the entries last used at frame `since` or later, in their
    /// order.
    pub fn retain_used_since(&mut self, since: u64)
        requires
            old(self).wf(),
        ensures
            final(self).wf(),
            final(self).frame() == old(self).frame(),
            final(self).slots() == old(self).slots().filter(|e: (K::V, T, u64)| e.2 >= since),
    {
        let ghost before = self.slots();
        let mut kept: Vec<(K, T, u64)> = Vec::new();
        let mut rest: Vec<(K, T, u64)> = Vec::new();
        std::mem::swap(&mut rest, &mut self.entries);
        let ghost all = rest@;
        let ghost mut n: int = 0;
        proof {
            assert(before =~= all.map_values(|e: (K, T, u64)| entry_view(e)));
            reveal(Seq::filter);
            assert(before.subrange(0, 0) =~= Seq::<(K::V, T, u64)>::empty());
            assert(kept@.map_values(|e: (K, T, u64)| entry_view(e)) =~= before.subrange(0, 0).filter(
                |e: (K::V, T, u64)| e.2 >= since,
            ));
        }
        while rest.len() > 0
            invariant
                0 <= n <= all.len(),
                rest@ == all.subrange(n, all.len() as int),
                before == all.map_values(|e: (K, T, u64)| entry_view(e)),
                kept@.map_values(|e: (K, T, u64)| entry_view(e)) == before.subrange(0, n).filter(
                    |e: (K::V, T, u64)| e.2 >= since,
                ),
            decreases rest@.len(),
        {
            let ghost prev = kept@;
            let e = rest.remove(0);
            proof {
                assert(e == all[n]);
                assert(rest@ =~= all.subrange(n + 1, all.len() as int));
                reveal(Seq::filter);
                let sub = before.subrange(0, n + 1);
                assert(sub.drop_last() =~= before.subrange(0, n));
                assert(sub.last() == entry_view(e));
            }
            if e.2 >= since {
                kept.push(e);
                proof {
                    assert(kept@.map_values(|e: (K, T, u64)| entry_view(e)) =~= prev.map_values(
                        |e: (K, T, u64)| entry_view(e),
                    ).push(entry_view(e)));
                }
            }
            proof {
                n = n + 1;
            }
        }
        self.entries = kept;
        proof {
            assert(before.subrange(0, all.len() as int) =~= before);
            let f = before.filter(|e: (K::V, T, u64)| e.2 >= since);
            assert(distinct(self.slots())) by {
                lemma_filter_keeps_distinct(before, |e: (K::V, T, u64)| e.2 >= since);
            }
            assert forall|j: int| 0 <= j < self.slots().len() implies #[trigger] self.slots()[j].2
                <= self.frame_gen by {
                assert(f.contains(f[j]));
                before.lemma_filter_contains_rev(|e: (K::V, T, u64)| e.2 >= since, f[j]);
                let k = choose|k: int| 0 <= k < before.len() && before[k] == f[j];
                assert(old(self).slots()[k].2 <= old(self).frame());
            }
        }
    }
}

/// Filtering a list keeps its keys distinct.
proof fn lemma_filter_keeps_distinct<V, T>(s: Seq<(V, T, u64)>, p: spec_fn((V, T, u64)) -> bool)
    requires
        distinct(s),
    ensures
        distinct(s.filter(p)),
    decreases s.len(),
{
    reveal(Seq::filter);
    if s.len() > 0 {
        let t = s.drop_last();
        assert(distinct(t)) by {
            assert forall|a: int, b: int| 0 <= a < b < t.len() implies t[a].0 != t[b].0 by {
                assert(t[a] == s[a] && t[b] == s[b]);
            }
        }
        lemma_filter_keeps_distinct(t, p);
        let f = t.filter(p);
        if p(s.last()) {
            let g = f.push(s.last());
            assert forall|a: int, b: int| 0 <= a < b < g.len() implies g[a].0 != g[b].0 by {
                if b == g.len() - 1 {
                    assert(g[a] == f[a]);
                    assert(f.contains(f[a]));
                    t.lemma_filter_contains_rev(p, f[a]);
                    let k = choose|k: int| 0 <= k < t.len() && t[k] == f[a];
                    assert(s[k] == t[k]);
                    assert(s[k].0 != s[s.len() - 1].0);
                } else {
                    assert(g[a] == f[a] && g[b] == f[b]);
                }
            }
        }
    }
}

} // verus!
