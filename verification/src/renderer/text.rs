//! Shaped text buffers recycled from one frame to the next.
//!
//! Shaping a text is the expensive part of drawing it, and most texts are
//! the same as last frame. Every buffer a frame shapes (or recycles) is kept
//! with the hash of what it was shaped from, and at the start of the next
//! frame they are pooled by that hash. The pool is multi-valued: the same
//! label appearing several times in a frame finds as many buffers the next
//! frame, rather than the first occurrence taking the only one and every
//! duplicate being shaped again, every frame.

use vstd::prelude::*;

verus! {

/// The buffers pooled under `key`, latest last.
pub open spec fn pool_of<B>(pool: Seq<(u64, Vec<B>)>, key: u64) -> Seq<B>
    decreases pool.len(),
{
    if pool.len() == 0 {
        Seq::empty()
    } else if pool.last().0 == key {
        pool.last().1@
    } else {
        pool_of(pool.drop_last(), key)
    }
}

/// No key is pooled twice.
pub open spec fn pool_keys_distinct<B>(pool: Seq<(u64, Vec<B>)>) -> bool {
    forall|i: int, j: int| 0 <= i < j < pool.len() ==> pool[i].0 != pool[j].0
}

/// The buffers of a frame kept under `key`, in the order they were kept.
pub open spec fn kept_under<B>(kept: Seq<(u64, B)>, key: u64) -> Seq<B>
    decreases kept.len(),
{
    if kept.len() == 0 {
        Seq::empty()
    } else if kept.last().0 == key {
        kept_under(kept.drop_last(), key).push(kept.last().1)
    } else {
        kept_under(kept.drop_last(), key)
    }
}

proof fn lemma_pool_of_entry<B>(pool: Seq<(u64, Vec<B>)>, i: int)
    requires
        pool_keys_distinct(pool),
        0 <= i < pool.len(),
    ensures
        pool_of(pool, pool[i].0) == pool[i].1@,
    decreases pool.len(),
{
    if i < pool.len() - 1 {
        assert(pool.last().0 != pool[i].0);
        let t = pool.drop_last();
        assert(t[i] == pool[i]);
        assert(pool_keys_distinct(t)) by {
            assert forall|a: int, b: int| 0 <= a < b < t.len() implies t[a].0 != t[b].0 by {
                assert(t[a] == pool[a] && t[b] == pool[b]);
            }
        }
        lemma_pool_of_entry(t, i);
    }
}

proof fn lemma_pool_of_absent<B>(pool: Seq<(u64, Vec<B>)>, key: u64)
    requires
        forall|i: int| 0 <= i < pool.len() ==> pool[i].0 != key,
    ensures
        pool_of(pool, key) == Seq::<B>::empty(),
    decreases pool.len(),
{
    if pool.len() > 0 {
        let t = pool.drop_last();
        assert forall|i: int| 0 <= i < t.len() implies t[i].0 != key by {
            assert(t[i] == pool[i]);
        }
        lemma_pool_of_absent(t, key);
    }
}

proof fn lemma_pool_of_update<B>(pool: Seq<(u64, Vec<B>)>, i: int, v: Vec<B>, key: u64)
    requires
        pool_keys_distinct(pool),
        0 <= i < pool.len(),
    ensures
        pool_of(pool.update(i, (pool[i].0, v)), key) == (if key == pool[i].0 {
            v@
        } else {
            pool_of(pool, key)
        }),
    decreases pool.len(),
{
    let u = pool.update(i, (pool[i].0, v));
    if i == pool.len() - 1 {
        assert(u.drop_last() =~= pool.drop_last());
    } else {
        let t = pool.drop_last();
        assert(u.drop_last() =~= t.update(i, (t[i].0, v)));
        assert(t[i] == pool[i]);
        assert(pool_keys_distinct(t)) by {
            assert forall|a: int, b: int| 0 <= a < b < t.len() implies t[a].0 != t[b].0 by {
                assert(t[a] == pool[a] && t[b] == pool[b]);
            }
        }
        lemma_pool_of_update(t, i, v, key);
        assert(pool.last().0 != pool[i].0);
    }
}

proof fn lemma_pool_of_push<B>(pool: Seq<(u64, Vec<B>)>, e: (u64, Vec<B>), key: u64)
    ensures
        pool_of(pool.push(e), key) == (if key == e.0 {
            e.1@
        } else {
            pool_of(pool, key)
        }),
{
    assert(pool.push(e).drop_last() =~= pool);
}

/// Shaped buffers: those pooled from last frame, by the hash of what they
/// were shaped from, and those this frame has kept so far.
pub struct ShapedBufferCache<B> {
    pool: Vec<(u64, Vec<B>)>,
    frame_keys: Vec<u64>,
    buffers: Vec<B>,
}

impl<B> ShapedBufferCache<B> {
    /// The buffers pooled under `key`, the one taken next last.
    pub closed spec fn available(&self, key: u64) -> Seq<B> {
        pool_of(self.pool@, key)
    }

    /// The buffers this frame kept, each with its key, in order.
    pub closed spec fn kept(&self) -> Seq<(u64, B)> {
        Seq::new(self.buffers@.len(), |i: int| (self.frame_keys@[i], self.buffers@[i]))
    }

    pub closed spec fn wf(&self) -> bool {
        &&& pool_keys_distinct(self.pool@)
        &&& self.frame_keys@.len() == self.buffers@.len()
    }

    /// Nothing pooled, nothing kept.
    pub fn new() -> (c: Self)
        ensures
            c.wf(),
            forall|k: u64| c.available(k) == Seq::<B>::empty(),
            c.kept() == Seq::<(u64, B)>::empty(),
    {
        let c = ShapedBufferCache { pool: Vec::new(), frame_keys: Vec::new(), buffers: Vec::new() };
        proof {
            assert(c.kept() =~= Seq::<(u64, B)>::empty());
        }
        c
    }

    /// Where `key` is pooled, if anywhere.
    fn position(&self, key: u64) -> (r: Option<usize>)
        requires
            self.wf(),
        ensures
            match r {
                Some(i) => i < self.pool@.len() && self.pool@[i as int].0 == key,
                None => forall|i: int| 0 <= i < self.pool@.len() ==> self.pool@[i].0 != key,
            },
    {
        let mut i: usize = 0;
        while i < self.pool.len()
            invariant
                i <= self.pool@.len(),
                forall|j: int| 0 <= j < i ==> self.pool@[j].0 != key,
            decreases self.pool@.len() - i,
        {
            if self.pool[i].0 == key {
                return Some(i);
            }
            i = i + 1;
        }
        None
    }

    /// A buffer pooled under `key`, if one is left: the one pooled last.
    pub fn take(&mut self, key: u64) -> (r: Option<B>)
        requires
            old(self).wf(),
        ensures
            final(self).wf(),
            final(self).kept() == old(self).kept(),
            old(self).available(key).len() == 0 ==> r.is_none() && forall|k: u64|
                final(self).available(k) == old(self).available(k),
            old(self).available(key).len() > 0 ==> {
                &&& r == Some(old(self).available(key).last())
                &&& final(self).available(key) == old(self).available(key).drop_last()
                &&& forall|k: u64| k != key ==> final(self).available(k) == old(self).available(k)
            },
    {
        let ghost before = self.pool@;
        let ghost kept = self.kept();
        match self.position(key) {
            Some(i) => {
                proof {
                    lemma_pool_of_entry(before, i as int);
                }
                let r = self.pool[i].1.pop();
                proof {
                    let now = self.pool@;
                    assert(now =~= before.update(i as int, (before[i as int].0, now[i as int].1)));
                    assert(pool_keys_distinct(now)) by {
                        assert forall|a: int, b: int| 0 <= a < b < now.len() implies now[a].0 != now[b].0 by {
                            assert(before[a].0 != before[b].0);
                        }
                    }
                    assert forall|k: u64| #[trigger] pool_of(now, k) == (if k == key {
                        now[i as int].1@
                    } else {
                        pool_of(before, k)
                    }) by {
                        lemma_pool_of_update(before, i as int, now[i as int].1, k);
                    }
                    assert(self.kept() =~= kept);
                }
                r
            },
            None => {
                proof {
                    lemma_pool_of_absent(before, key);
                }
                None
            },
        }
    }

    /// Keep `buffer`, shaped (or taken) for a text whose hash is `key`, for
    /// this frame's drawing and for the pool of the next.
    pub fn keep(&mut self, key: u64, buffer: B)
        requires
            old(self).wf(),
        ensures
            final(self).wf(),
            final(self).kept() == old(self).kept().push((key, buffer)),
            forall|k: u64| final(self).available(k) == old(self).available(k),
    {
        let ghost kept = self.kept();
        self.frame_keys.push(key);
        self.buffers.push(buffer);
        proof {
            assert(self.kept() =~= kept.push((key, buffer)));
        }
    }

    /// The buffers this frame kept, in the order they were kept.
    pub fn buffers(&self) -> (s: &[B])
        ensures
            s@ == self.kept().map_values(|p: (u64, B)| p.1),
    {
        proof {
            assert(self.buffers@ =~= self.kept().map_values(|p: (u64, B)| p.1));
        }
        self.buffers.as_slice()
    }

    /// Start a frame: every buffer the last frame kept joins the pool under
    /// its key, after what was pooled there already.
    pub fn begin_frame(&mut self)
        requires
            old(self).wf(),
        ensures
            final(self).wf(),
            final(self).kept() == Seq::<(u64, B)>::empty(),
            forall|k: u64| #[trigger] final(self).available(k) == old(self).available(k) + kept_under(
                old(self).kept(),
                k,
            ),
    {
        let ghost pool0 = self.pool@;
        let ghost kept = self.kept();
        let ghost mut n: int = 0;
        proof {
            assert forall|k: u64| #[trigger] pool_of(self.pool@, k) == pool_of(pool0, k) + kept_under(
                kept.subrange(0, 0),
                k,
            ) by {
                assert(kept.subrange(0, 0) =~= Seq::<(u64, B)>::empty());
                assert(pool_of(pool0, k) + Seq::<B>::empty() =~= pool_of(pool0, k));
            }
        }
        while self.buffers.len() > 0
            invariant
                pool_keys_distinct(self.pool@),
                self.frame_keys@.len() == self.buffers@.len(),
                0 <= n <= kept.len(),
                self.buffers@.len() == kept.len() - n,
                forall|j: int|
                    0 <= j < self.buffers@.len() ==> (#[trigger] self.frame_keys@[j], self.buffers@[j]) == kept[n
                        + j],
                forall|k: u64| #[trigger] pool_of(self.pool@, k) == pool_of(pool0, k) + kept_under(
                    kept.subrange(0, n),
                    k,
                ),
            decreases self.buffers@.len(),
        {
            let ghost pool1 = self.pool@;
            let ghost keys1 = self.frame_keys@;
            let ghost bufs1 = self.buffers@;
            let key = self.frame_keys.remove(0);
            let buffer = self.buffers.remove(0);
            proof {
                assert((keys1[0], bufs1[0]) == kept[n]);
                assert forall|j: int| 0 <= j < self.buffers@.len() implies (
                #[trigger] self.frame_keys@[j], self.buffers@[j]) == kept[n + 1 + j] by {
                    assert(self.frame_keys@[j] == keys1[j + 1]);
                    assert(self.buffers@[j] == bufs1[j + 1]);
                    assert((keys1[j + 1], bufs1[j + 1]) == kept[n + (j + 1)]);
                }
                let sub = kept.subrange(0, n + 1);
                assert(sub.drop_last() =~= kept.subrange(0, n));
                assert(sub.last() == (key, buffer));
            }
            match self.position(key) {
                Some(i) => {
                    proof {
                        lemma_pool_of_entry(pool1, i as int);
                    }
                    self.pool[i].1.push(buffer);
                    proof {
                        let now = self.pool@;
                        assert(now =~= pool1.update(i as int, (pool1[i as int].0, now[i as int].1)));
                        assert(pool_keys_distinct(now)) by {
                            assert forall|a: int, b: int| 0 <= a < b < now.len() implies now[a].0 != now[b].0 by {
                                assert(pool1[a].0 != pool1[b].0);
                            }
                        }
                        assert forall|k: u64| #[trigger] pool_of(now, k) == pool_of(pool0, k) + kept_under(
                            kept.subrange(0, n + 1),
                            k,
                        ) by {
                            lemma_pool_of_update(pool1, i as int, now[i as int].1, k);
                            assert(pool_of(pool1, k) == pool_of(pool0, k) + kept_under(kept.subrange(0, n), k));
                            if k == key {
                                assert(pool_of(pool0, k) + kept_under(kept.subrange(0, n), k).push(buffer) =~= (
                                pool_of(pool0, k) + kept_under(kept.subrange(0, n), k)).push(buffer));
                            }
                        }
                    }
                },
                None => {
                    let mut fresh: Vec<B> = Vec::new();
                    fresh.push(buffer);
                    let ghost e = (key, fresh);
                    self.pool.push((key, fresh));
                    proof {
                        let now = self.pool@;
                        assert(now == pool1.push(e));
                        assert(pool_keys_distinct(now)) by {
                            assert forall|a: int, b: int| 0 <= a < b < now.len() implies now[a].0 != now[b].0 by {
                                if b == now.len() - 1 {
                                    assert(now[a] == pool1[a]);
                                } else {
                                    assert(pool1[a].0 != pool1[b].0);
                                }
                            }
                        }
                        lemma_pool_of_absent(pool1, key);
                        assert forall|k: u64| #[trigger] pool_of(now, k) == pool_of(pool0, k) + kept_under(
                            kept.subrange(0, n + 1),
                            k,
                        ) by {
                            lemma_pool_of_push(pool1, e, k);
                            assert(pool_of(pool1, k) == pool_of(pool0, k) + kept_under(kept.subrange(0, n), k));
                            if k == key {
                                assert(pool_of(pool0, k) + kept_under(kept.subrange(0, n), k) =~= Seq::<B>::empty());
                                assert(e.1@ =~= seq![buffer]);
                                assert(pool_of(pool0, k) + kept_under(kept.subrange(0, n), k).push(buffer) =~= seq![
                                    buffer,
                                ]);
                            }
                        }
                    }
                },
            }
            proof {
                n = n + 1;
            }
        }
        proof {
            assert(kept.subrange(0, n) =~= kept);
            assert(self.kept() =~= Seq::<(u64, B)>::empty());
        }
    }

    /// End a frame once every group has been prepared: whatever is still
    /// pooled went unused, and goes.
    pub fn end_frame(&mut self)
        requires
            old(self).wf(),
        ensures
            final(self).wf(),
            final(self).kept() == old(self).kept(),
            forall|k: u64| final(self).available(k) == Seq::<B>::empty(),
    {
        self.pool.clear();
    }
}

/// What a frame keeps is there for the next: the buffers pooled under a key
/// when a frame begins are, after what was left over, every buffer the
/// frame before kept under that key (as many as it kept, duplicates
/// included) in the order it kept them.
pub proof fn law_next_frame_finds_what_this_one_kept<B>(kept: Seq<(u64, B)>, key: u64)
    ensures
        kept_under(kept, key) == kept.filter(|p: (u64, B)| p.0 == key).map_values(|p: (u64, B)| p.1),
    decreases kept.len(),
{
    reveal(Seq::filter);
    if kept.len() > 0 {
        let t = kept.drop_last();
        law_next_frame_finds_what_this_one_kept(t, key);
        let f = t.filter(|p: (u64, B)| p.0 == key);
        if kept.last().0 == key {
            assert(f.push(kept.last()).map_values(|p: (u64, B)| p.1) =~= f.map_values(|p: (u64, B)| p.1).push(
                kept.last().1,
            ));
        }
    }
}

} // verus!
