//! The image texture cache: textures found by source and scale, dated by the
//! frame that last drew them, and evicted least recently used first once
//! there are too many.
//!
//! Loading, decoding and uploading a texture is the caller's work; what is
//! kept, what is found and what goes is decided here.

use vstd::prelude::*;

verus! {

/// What a cached texture is found by.
#[derive(Debug, Clone, Copy, PartialEq, Eq, Structural)]
pub struct CacheKey {
    /// Hash of the image source.
    pub source_hash: u64,
    /// The scale an SVG was rasterized at, in quarter steps; 0 for a raster
    /// image, which is always uploaded at its own size.
    pub render_scale: u32,
}

/// A cached texture and the frame that last drew it.
pub struct CachedImage<T> {
    pub texture: T,
    pub last_used_frame: u64,
}

/// The most textures kept across a frame boundary.
pub const MAX_CACHED_TEXTURES: usize = 64;

/// Whether some entry holds key `k`.
pub open spec fn holds_key<T>(s: Seq<(CacheKey, CachedImage<T>)>, k: CacheKey) -> bool {
    exists|i: int| 0 <= i < s.len() && s[i].0 == k
}

/// No key is held twice.
pub open spec fn distinct_keys<T>(s: Seq<(CacheKey, CachedImage<T>)>) -> bool {
    forall|i: int, j: int| 0 <= i < j < s.len() ==> s[i].0 != s[j].0
}

/// `after` is `before` with its least recently used entries evicted down to
/// `target`: only whole entries of `before` remain, as many as `target`
/// allows, and none that went was drawn more recently than any that stayed.
pub open spec fn evicted_lru<T>(
    before: Seq<(CacheKey, CachedImage<T>)>,
    after: Seq<(CacheKey, CachedImage<T>)>,
    target: nat,
) -> bool {
    &&& after.len() == (if before.len() > target { target } else { before.len() })
    &&& forall|j: int| 0 <= j < after.len() ==> before.contains(#[trigger] after[j])
    &&& forall|i: int, j: int|
        0 <= i < before.len() && 0 <= j < after.len() && !holds_key(after, before[i].0)
            ==> #[trigger] before[i].1.last_used_frame <= #[trigger] after[j].1.last_used_frame
}

/// Textures by key, with the frame counter that dates their use.
pub struct ImageTextureCache<T> {
    entries: Vec<(CacheKey, CachedImage<T>)>,
    current_frame: u64,
    max_cache_size: usize,
}

impl<T> ImageTextureCache<T> {
    /// The entries, in the order they are kept.
    pub closed spec fn slots(&self) -> Seq<(CacheKey, CachedImage<T>)> {
        self.entries@
    }

    /// The frame being drawn.
    pub closed spec fn frame(&self) -> u64 {
        self.current_frame
    }

    /// How many textures may be kept across a frame boundary.
    pub closed spec fn limit(&self) -> nat {
        self.max_cache_size as nat
    }

    pub closed spec fn wf(&self) -> bool {
        distinct_keys(self.entries@)
    }

    /// An empty cache at frame 0, keeping at most
    /// [`MAX_CACHED_TEXTURES`].
    pub fn new() -> (c: Self)
        ensures
            c.wf(),
            c.slots() == Seq::<(CacheKey, CachedImage<T>)>::empty(),
            c.frame() == 0,
            c.limit() == MAX_CACHED_TEXTURES,
    {
        ImageTextureCache { entries: Vec::new(), current_frame: 0, max_cache_size: MAX_CACHED_TEXTURES }
    }

    /// How many textures are cached.
    pub fn len(&self) -> (n: usize)
        ensures
            n == self.slots().len(),
    {
        self.entries.len()
    }

    /// Where `key` is kept, if anywhere.
    fn position(&self, key: CacheKey) -> (r: Option<usize>)
        ensures
            match r {
                Some(i) => i < self.slots().len() && self.slots()[i as int].0 == key,
                None => !holds_key(self.slots(), key),
            },
    {
        let mut i: usize = 0;
        while i < self.entries.len()
            invariant
                i <= self.entries@.len(),
                forall|j: int| 0 <= j < i ==> self.entries@[j].0 != key,
            decreases self.entries@.len() - i,
        {
            if self.entries[i].0 == key {
                return Some(i);
            }
            i = i + 1;
        }
        None
    }

    /// Advance the frame counter, once per frame; past the limit, evict the
    /// least recently used textures until half the limit remain.
    pub fn begin_frame(&mut self)
        requires
            old(self).wf(),
            old(self).frame() < u64::MAX,
        ensures
            final(self).wf(),
            final(self).frame() == old(self).frame() + 1,
            final(self).limit() == old(self).limit(),
            old(self).slots().len() > old(self).limit() ==> evicted_lru(
                old(self).slots(),
                final(self).slots(),
                old(self).limit() / 2,
            ),
            old(self).slots().len() <= old(self).limit() ==> final(self).slots() == old(self).slots(),
            final(self).slots().len() <= final(self).limit(),
    {
        self.current_frame = self.current_frame + 1;
        if self.entries.len() > self.max_cache_size {
            self.evict_oldest();
        }
    }

    /// The entry drawn least recently.
    fn oldest(&self) -> (i: usize)
        requires
            self.slots().len() > 0,
        ensures
            i < self.slots().len(),
            forall|j: int|
                0 <= j < self.slots().len() ==> self.slots()[i as int].1.last_used_frame
                    <= #[trigger] self.slots()[j].1.last_used_frame,
    {
        let mut best: usize = 0;
        let mut k: usize = 1;
        while k < self.entries.len()
            invariant
                0 < k <= self.entries@.len(),
                best < k,
                forall|j: int|
                    0 <= j < k ==> self.entries@[best as int].1.last_used_frame
                        <= #[trigger] self.entries@[j].1.last_used_frame,
            decreases self.entries@.len() - k,
        {
            if self.entries[k].1.last_used_frame < self.entries[best].1.last_used_frame {
                best = k;
            }
            k = k + 1;
        }
        best
    }

    /// Evict least recently used entries until half the limit remain.
    fn evict_oldest(&mut self)
        requires
            old(self).wf(),
        ensures
            final(self).wf(),
            final(self).frame() == old(self).frame(),
            final(self).limit() == old(self).limit(),
            evicted_lru(old(self).slots(), final(self).slots(), old(self).limit() / 2),
    {
        let ghost before = self.entries@;
        let target = self.max_cache_size / 2;
        // Every entry evicted so far was drawn no later than `floor`, and
        // every entry still here no earlier.
        let ghost mut floor: u64 = 0;
        while self.entries.len() > target
            invariant
                self.max_cache_size / 2 == target,
                distinct_keys(self.entries@),
                before.len() > target ==> self.entries@.len() >= target,
                before.len() <= target ==> self.entries@ == before,
                forall|j: int| 0 <= j < self.entries@.len() ==> before.contains(#[trigger] self.entries@[j]),
                forall|j: int|
                    0 <= j < self.entries@.len() ==> floor <= #[trigger] self.entries@[j].1.last_used_frame,
                forall|i: int|
                    0 <= i < before.len() && !holds_key(self.entries@, before[i].0)
                        ==> #[trigger] before[i].1.last_used_frame <= floor,
                distinct_keys(before),
                self.current_frame == old(self).current_frame,
                self.max_cache_size == old(self).max_cache_size,
            decreases self.entries@.len(),
        {
            let ghost prev = self.entries@;
            let i = self.oldest();
            let ghost gone = prev[i as int];
            proof {
                floor = gone.1.last_used_frame;
            }
            self.entries.remove(i);
            proof {
                let now = self.entries@;
                assert(now =~= prev.remove(i as int));
                assert forall|j: int| 0 <= j < now.len() implies before.contains(#[trigger] now[j]) by {
                    if j < i {
                        assert(now[j] == prev[j]);
                    } else {
                        assert(now[j] == prev[j + 1]);
                    }
                }
                assert forall|j: int| 0 <= j < now.len() implies floor <= #[trigger] now[j].1.last_used_frame by {
                    if j < i {
                        assert(now[j] == prev[j]);
                    } else {
                        assert(now[j] == prev[j + 1]);
                    }
                }
                assert(distinct_keys(now)) by {
                    assert forall|a: int, b: int| 0 <= a < b < now.len() implies now[a].0 != now[b].0 by {
                        let pa = if a < i { a } else { a + 1 };
                        let pb = if b < i { b } else { b + 1 };
                        assert(now[a] == prev[pa]);
                        assert(now[b] == prev[pb]);
                    }
                }
                assert forall|k: int|
                    0 <= k < before.len() && !holds_key(now, before[k].0) implies #[trigger] before[k].1.last_used_frame
                        <= floor by {
                    if holds_key(prev, before[k].0) {
                        let p = choose|p: int| 0 <= p < prev.len() && prev[p].0 == before[k].0;
                        if p != i {
                            let q = if p < i { p } else { p - 1 };
                            assert(now[q] == prev[p]);
                            assert(holds_key(now, before[k].0));
                        }
                        // The entry evicted now is the one `before[k]` names.
                        assert(before.contains(prev[i as int]));
                        let w = choose|w: int| 0 <= w < before.len() && before[w] == prev[i as int];
                        assert(before[w].0 == before[k].0);
                        assert(w == k);
                    }
                }
            }
        }
        proof {
            assert forall|i: int, j: int|
                0 <= i < before.len() && 0 <= j < self.entries@.len() && !holds_key(self.entries@, before[i].0)
                    implies #[trigger] before[i].1.last_used_frame <= #[trigger] self.entries@[j].1.last_used_frame by {
                assert(floor <= self.entries@[j].1.last_used_frame);
            }
        }
    }

    /// Whether `key` is cached; a hit is dated to the current frame.
    pub fn lookup(&mut self, key: CacheKey) -> (hit: bool)
        requires
            old(self).wf(),
        ensures
            final(self).wf(),
            hit == holds_key(old(self).slots(), key),
            final(self).frame() == old(self).frame(),
            final(self).limit() == old(self).limit(),
            final(self).slots().len() == old(self).slots().len(),
            forall|i: int|
                0 <= i < old(self).slots().len() ==> {
                    &&& (#[trigger] final(self).slots()[i]).0 == old(self).slots()[i].0
                    &&& final(self).slots()[i].1.texture == old(self).slots()[i].1.texture
                    &&& final(self).slots()[i].1.last_used_frame == (if old(self).slots()[i].0 == key {
                        old(self).frame()
                    } else {
                        old(self).slots()[i].1.last_used_frame
                    })
                },
    {
        match self.position(key) {
            Some(i) => {
                let frame = self.current_frame;
                self.entries[i].1.last_used_frame = frame;
                proof {
                    assert forall|j: int| 0 <= j < old(self).slots().len() && j != i implies old(self).slots()[j].0
                        != key by {
                        if j < i {
                            assert(old(self).slots()[j].0 != old(self).slots()[i as int].0);
                        } else {
                            assert(old(self).slots()[i as int].0 != old(self).slots()[j].0);
                        }
                    }
                }
                true
            },
            None => false,
        }
    }

    /// The texture cached for `key`.
    pub fn get(&self, key: CacheKey) -> (r: Option<&T>)
        requires
            self.wf(),
        ensures
            match r {
                Some(t) => exists|i: int|
                    0 <= i < self.slots().len() && self.slots()[i].0 == key && self.slots()[i].1.texture == *t,
                None => !holds_key(self.slots(), key),
            },
    {
        match self.position(key) {
            Some(i) => Some(&self.entries[i].1.texture),
            None => None,
        }
    }

    /// Cache `texture` under `key`, dated to the current frame, in place of
    /// any texture the key held.
    pub fn insert(&mut self, key: CacheKey, texture: T)
        requires
            old(self).wf(),
        ensures
            final(self).wf(),
            final(self).frame() == old(self).frame(),
            final(self).limit() == old(self).limit(),
            holds_key(old(self).slots(), key) ==> exists|i: int|
                0 <= i < old(self).slots().len() && old(self).slots()[i].0 == key && final(self).slots()
                    == old(self).slots().update(
                    i,
                    (key, CachedImage { texture, last_used_frame: old(self).frame() }),
                ),
            !holds_key(old(self).slots(), key) ==> final(self).slots() == old(self).slots().push(
                (key, CachedImage { texture, last_used_frame: old(self).frame() }),
            ),
    {
        let frame = self.current_frame;
        match self.position(key) {
            Some(i) => {
                self.entries.set(i, (key, CachedImage { texture, last_used_frame: frame }));
                proof {
                    let now = self.entries@;
                    assert forall|a: int, b: int| 0 <= a < b < now.len() implies now[a].0 != now[b].0 by {
                        assert(old(self).slots()[a].0 != old(self).slots()[b].0);
                    }
                }
            },
            None => {
                self.entries.push((key, CachedImage { texture, last_used_frame: frame }));
                proof {
                    let now = self.entries@;
                    assert forall|a: int, b: int| 0 <= a < b < now.len() implies now[a].0 != now[b].0 by {
                        if b == now.len() - 1 {
                            assert(now[a] == old(self).slots()[a]);
                        } else {
                            assert(old(self).slots()[a].0 != old(self).slots()[b].0);
                        }
                    }
                }
            },
        }
    }
}

} // verus!
