//! The image quad texture cache: textures kept against a byte budget, stamped
//! with when a frame last drew them, and trimmed oldest first among those no
//! frame has drawn for a while.
//!
//! Time comes in as plain stamps (nanoseconds on a monotonic clock); reading
//! the clock, uploading textures and asking them their size is the caller's
//! work.

use vstd::prelude::*;

verus! {

/// What a cached quad texture is found by.
#[derive(Debug, Clone, Copy, PartialEq, Eq, Structural)]
pub struct CacheKey {
    /// Hash of the image source.
    pub source_hash: u64,
    /// The rasterization variant of an SVG (its scale and target size); 0
    /// for a raster image, which is uploaded at its own size.
    pub svg_variant: u64,
}

/// A cached texture: what it costs on the GPU, and when a frame last drew it.
pub struct CachedTexture<T> {
    pub texture: T,
    pub bytes: usize,
    pub last_used: u64,
}

/// How long, in nanoseconds, a texture no frame has drawn is kept once the
/// cache is past its budget. One drawn more recently is never evicted: the
/// cache grows past its budget instead, since an image still in view whose
/// texture went would have to be decoded again.
pub const KEEP_UNUSED_NANOS: u64 = 1_000_000_000;

/// The bytes one mip level of a `width` by `height` texture holds.
pub open spec fn level_bytes(width: u32, height: u32, texel: u32, level: u32) -> int {
    let w = if (width >> level) >= 1 { width >> level } else { 1 };
    let h = if (height >> level) >= 1 { height >> level } else { 1 };
    w * h * texel
}

/// The bytes of the first `levels` mip levels.
pub open spec fn mip_bytes(width: u32, height: u32, texel: u32, levels: u32) -> int
    decreases levels,
{
    if levels == 0 {
        0
    } else {
        mip_bytes(width, height, texel, (levels - 1) as u32) + level_bytes(
            width,
            height,
            texel,
            (levels - 1) as u32,
        )
    }
}

proof fn lemma_mip_bytes_nonneg(width: u32, height: u32, texel: u32, a: u32)
    ensures
        0 <= mip_bytes(width, height, texel, a),
    decreases a,
{
    if a > 0 {
        lemma_mip_bytes_nonneg(width, height, texel, (a - 1) as u32);
        lemma_level_bytes_nonneg(width, height, texel, (a - 1) as u32);
    }
}

proof fn lemma_level_bytes_nonneg(width: u32, height: u32, texel: u32, level: u32)
    ensures
        0 <= level_bytes(width, height, texel, level),
{
    let w = if (width >> level) >= 1 { width >> level } else { 1 };
    let h = if (height >> level) >= 1 { height >> level } else { 1 };
    assert(w * h * texel >= 0) by (nonlinear_arith)
        requires
            w >= 0,
            h >= 0,
            texel >= 0,
    ;
}

proof fn lemma_mip_bytes_grow(width: u32, height: u32, texel: u32, a: u32, b: u32)
    requires
        a <= b,
    ensures
        0 <= mip_bytes(width, height, texel, a) <= mip_bytes(width, height, texel, b),
    decreases b,
{
    lemma_mip_bytes_nonneg(width, height, texel, a);
    if b > a {
        lemma_mip_bytes_grow(width, height, texel, a, (b - 1) as u32);
        lemma_level_bytes_nonneg(width, height, texel, (b - 1) as u32);
    }
}

/// The bytes a texture holds on the GPU, every mip level of it: each level
/// halves the sides, down to one texel, and a texel is `texel` bytes.
pub fn texture_bytes(width: u32, height: u32, mip_level_count: u32, texel: u32) -> (n: usize)
    requires
        mip_level_count <= 32,
        mip_bytes(width, height, texel, mip_level_count) <= usize::MAX,
    ensures
        n == mip_bytes(width, height, texel, mip_level_count),
{
    let mut total: usize = 0;
    let mut level: u32 = 0;
    while level < mip_level_count
        invariant
            level <= mip_level_count <= 32,
            total == mip_bytes(width, height, texel, level),
            mip_bytes(width, height, texel, mip_level_count) <= usize::MAX,
        decreases mip_level_count - level,
    {
        proof {
            lemma_mip_bytes_grow(width, height, texel, (level + 1) as u32, mip_level_count);
        }
        let w: u32 = if (width >> level) >= 1 { width >> level } else { 1 };
        let h: u32 = if (height >> level) >= 1 { height >> level } else { 1 };
        proof {
            assert(level_bytes(width, height, texel, level) == w * h * texel);
            lemma_level_bytes_nonneg(width, height, texel, level);
        }
        let term: usize = if texel == 0 {
            proof {
                assert(w * h * texel == 0) by (nonlinear_arith)
                    requires
                        texel == 0,
                ;
            }
            0
        } else {
            proof {
                assert(w * h <= w * h * texel) by (nonlinear_arith)
                    requires
                        texel >= 1,
                        w >= 0,
                        h >= 0,
                ;
            }
            let area: usize = (w as usize) * (h as usize);
            area * (texel as usize)
        };
        total = total + term;
        level = level + 1;
    }
    total
}

/// Whether some entry holds key `k`.
pub open spec fn holds_key<T>(s: Seq<(CacheKey, CachedTexture<T>)>, k: CacheKey) -> bool {
    exists|i: int| 0 <= i < s.len() && s[i].0 == k
}

/// No key is held twice.
pub open spec fn distinct_keys<T>(s: Seq<(CacheKey, CachedTexture<T>)>) -> bool {
    forall|i: int, j: int| 0 <= i < j < s.len() ==> s[i].0 != s[j].0
}

/// What the entries cost together.
pub open spec fn total_bytes<T>(s: Seq<(CacheKey, CachedTexture<T>)>) -> nat
    decreases s.len(),
{
    if s.len() == 0 {
        0
    } else {
        total_bytes(s.drop_last()) + s.last().1.bytes as nat
    }
}

/// Whether a texture last drawn at `last_used` has gone undrawn for longer
/// than [`KEEP_UNUSED_NANOS`] by the frame that started at `now`.
pub open spec fn idle(last_used: u64, now: u64) -> bool {
    now - last_used > KEEP_UNUSED_NANOS
}

proof fn lemma_total_push<T>(s: Seq<(CacheKey, CachedTexture<T>)>, e: (CacheKey, CachedTexture<T>))
    ensures
        total_bytes(s.push(e)) == total_bytes(s) + e.1.bytes,
{
    assert(s.push(e).drop_last() =~= s);
}

proof fn lemma_total_remove<T>(s: Seq<(CacheKey, CachedTexture<T>)>, i: int)
    requires
        0 <= i < s.len(),
    ensures
        total_bytes(s.remove(i)) + s[i].1.bytes == total_bytes(s),
    decreases s.len(),
{
    if i == s.len() - 1 {
        assert(s.remove(i) =~= s.drop_last());
    } else {
        lemma_total_remove(s.drop_last(), i);
        assert(s.remove(i).drop_last() =~= s.drop_last().remove(i));
        assert(s.remove(i).last() == s.last());
    }
}

proof fn lemma_total_update<T>(s: Seq<(CacheKey, CachedTexture<T>)>, i: int, e: (CacheKey, CachedTexture<T>))
    requires
        0 <= i < s.len(),
    ensures
        total_bytes(s.update(i, e)) + s[i].1.bytes == total_bytes(s) + e.1.bytes,
    decreases s.len(),
{
    if i == s.len() - 1 {
        assert(s.update(i, e).drop_last() =~= s.drop_last());
    } else {
        lemma_total_update(s.drop_last(), i, e);
        assert(s.update(i, e).drop_last() =~= s.drop_last().update(i, e));
    }
}

/// `after` is `before` trimmed toward `budget` at the frame that started at
/// `now`: only whole entries of `before` remain, every one drawn within
/// [`KEEP_UNUSED_NANOS`] among them; the cache is within budget or nothing
/// idle is left; no idle entry that went was drawn more recently than one
/// that stayed; and the trim stopped as soon as it was within budget.
pub open spec fn trimmed<T>(
    before: Seq<(CacheKey, CachedTexture<T>)>,
    after: Seq<(CacheKey, CachedTexture<T>)>,
    budget: nat,
    now: u64,
) -> bool {
    &&& forall|j: int| 0 <= j < after.len() ==> before.contains(#[trigger] after[j])
    &&& forall|i: int|
        0 <= i < before.len() && !idle(before[i].1.last_used, now) ==> holds_key(after, #[trigger] before[i].0)
    &&& total_bytes(after) <= budget || forall|j: int|
        0 <= j < after.len() ==> !idle(#[trigger] after[j].1.last_used, now)
    &&& forall|i: int, j: int|
        0 <= i < before.len() && 0 <= j < after.len() && !holds_key(after, before[i].0) && idle(
            after[j].1.last_used,
            now,
        ) ==> #[trigger] before[i].1.last_used <= #[trigger] after[j].1.last_used
    &&& (exists|i: int| 0 <= i < before.len() && !holds_key(after, #[trigger] before[i].0)) ==> exists|
        r: int,
    |
        0 <= r < before.len() && !holds_key(after, before[r].0) && total_bytes(after) + before[r].1.bytes > budget
            && forall|i: int|
            0 <= i < before.len() && !holds_key(after, before[i].0) ==> #[trigger] before[i].1.last_used
                <= before[r].1.last_used
}

/// Quad textures by key, what they cost together, and when the frame being
/// prepared started.
pub struct ImageQuadCache<T> {
    textures: Vec<(CacheKey, CachedTexture<T>)>,
    frame_started: u64,
    cached_bytes: usize,
}

impl<T> ImageQuadCache<T> {
    /// The entries, in the order they are kept.
    pub closed spec fn slots(&self) -> Seq<(CacheKey, CachedTexture<T>)> {
        self.textures@
    }

    /// When the frame being prepared started.
    pub closed spec fn started(&self) -> u64 {
        self.frame_started
    }

    /// What the cached textures cost together.
    pub closed spec fn bytes(&self) -> nat {
        self.cached_bytes as nat
    }

    pub closed spec fn wf(&self) -> bool {
        &&& distinct_keys(self.textures@)
        &&& self.cached_bytes == total_bytes(self.textures@)
    }

    /// An empty cache, its first frame starting at `now`.
    pub fn new(now: u64) -> (c: Self)
        ensures
            c.wf(),
            c.slots() == Seq::<(CacheKey, CachedTexture<T>)>::empty(),
            c.started() == now,
            c.bytes() == 0,
    {
        ImageQuadCache { textures: Vec::new(), frame_started: now, cached_bytes: 0 }
    }

    /// Begin a frame that started at `now`: what a texture drawn in it is
    /// stamped with.
    pub fn begin_frame(&mut self, now: u64)
        requires
            old(self).wf(),
        ensures
            final(self).wf(),
            final(self).started() == now,
            final(self).slots() == old(self).slots(),
            final(self).bytes() == old(self).bytes(),
    {
        self.frame_started = now;
    }

    /// What the cached textures cost together.
    pub fn cached_bytes(&self) -> (n: usize)
        requires
            self.wf(),
        ensures
            n == self.bytes(),
            n == total_bytes(self.slots()),
    {
        self.cached_bytes
    }

    /// Where `key` is kept, if anywhere.
    fn position(&self, key: CacheKey) -> (r: Option<usize>)
        ensures
            match r {
                Some(i) => i < self.slots().len() && self.slots()[i as int].0 == key,
                None => !holds_key(self.slots(), key),
            },
    {
        let mut i: usize = 0;
        while i < self.textures.len()
            invariant
                i <= self.textures@.len(),
                forall|j: int| 0 <= j < i ==> self.textures@[j].0 != key,
            decreases self.textures@.len() - i,
        {
            if self.textures[i].0 == key {
                return Some(i);
            }
            i = i + 1;
        }
        None
    }

    /// Whether `key` is cached; a hit is stamped with the current frame's
    /// start.
    pub fn lookup(&mut self, key: CacheKey) -> (hit: bool)
        requires
            old(self).wf(),
        ensures
            final(self).wf(),
            hit == holds_key(old(self).slots(), key),
            final(self).started() == old(self).started(),
            final(self).bytes() == old(self).bytes(),
            final(self).slots().len() == old(self).slots().len(),
            forall|i: int|
                0 <= i < old(self).slots().len() ==> {
                    &&& (#[trigger] final(self).slots()[i]).0 == old(self).slots()[i].0
                    &&& final(self).slots()[i].1.texture == old(self).slots()[i].1.texture
                    &&& final(self).slots()[i].1.bytes == old(self).slots()[i].1.bytes
                    &&& final(self).slots()[i].1.last_used == (if old(self).slots()[i].0 == key {
                        old(self).started()
                    } else {
                        old(self).slots()[i].1.last_used
                    })
                },
    {
        match self.position(key) {
            Some(i) => {
                let ghost before = self.textures@;
                let now = self.frame_started;
                self.textures[i].1.last_used = now;
                proof {
                    lemma_total_update(before, i as int, self.textures@[i as int]);
                    assert(self.textures@ =~= before.update(i as int, self.textures@[i as int]));
                    assert forall|j: int| 0 <= j < before.len() && j != i implies before[j].0 != key by {
                        if j < i {
                            assert(before[j].0 != before[i as int].0);
                        } else {
                            assert(before[i as int].0 != before[j].0);
                        }
                    }
                }
                true
            },
            None => false,
        }
    }

    /// The texture cached for `key`.
    pub fn get(&self, key: CacheKey) -> (r: Option<&T>)
        requires
            self.wf(),
        ensures
            match r {
                Some(t) => exists|i: int|
                    0 <= i < self.slots().len() && self.slots()[i].0 == key && self.slots()[i].1.texture == *t,
                None => !holds_key(self.slots(), key),
            },
    {
        match self.position(key) {
            Some(i) => Some(&self.textures[i].1.texture),
            None => None,
        }
    }

    /// Cache `texture`, which costs `bytes`, under `key`, stamped with the
    /// current frame's start, in place of any texture the key held.
    pub fn insert(&mut self, key: CacheKey, texture: T, bytes: usize)
        requires
            old(self).wf(),
            old(self).bytes() + bytes <= usize::MAX,
        ensures
            final(self).wf(),
            final(self).started() == old(self).started(),
            holds_key(old(self).slots(), key) ==> exists|i: int|
                0 <= i < old(self).slots().len() && old(self).slots()[i].0 == key && final(self).slots()
                    == old(self).slots().update(
                    i,
                    (key, CachedTexture { texture, bytes, last_used: old(self).started() }),
                ),
            !holds_key(old(self).slots(), key) ==> final(self).slots() == old(self).slots().push(
                (key, CachedTexture { texture, bytes, last_used: old(self).started() }),
            ),
    {
        let now = self.frame_started;
        let ghost before = self.textures@;
        match self.position(key) {
            Some(i) => {
                let old_bytes = self.textures[i].1.bytes;
                proof {
                    lemma_total_remove(before, i as int);
                }
                let entry = (key, CachedTexture { texture, bytes, last_used: now });
                let ghost e = entry;
                self.textures.set(i, entry);
                proof {
                    lemma_total_update(before, i as int, e);
                    let now_s = self.textures@;
                    assert forall|a: int, b: int| 0 <= a < b < now_s.len() implies now_s[a].0 != now_s[b].0 by {
                        assert(before[a].0 != before[b].0);
                    }
                }
                self.cached_bytes = self.cached_bytes - old_bytes + bytes;
            },
            None => {
                let entry = (key, CachedTexture { texture, bytes, last_used: now });
                let ghost e = entry;
                self.textures.push(entry);
                proof {
                    lemma_total_push(before, e);
                    let now_s = self.textures@;
                    assert forall|a: int, b: int| 0 <= a < b < now_s.len() implies now_s[a].0 != now_s[b].0 by {
                        if b == now_s.len() - 1 {
                            assert(now_s[a] == before[a]);
                        } else {
                            assert(before[a].0 != before[b].0);
                        }
                    }
                }
                self.cached_bytes = self.cached_bytes + bytes;
            },
        }
    }

    /// The idle entry drawn least recently, if any is idle.
    fn oldest_idle(&self) -> (r: Option<usize>)
        ensures
            match r {
                Some(i) => {
                    &&& i < self.slots().len()
                    &&& idle(self.slots()[i as int].1.last_used, self.started())
                    &&& forall|j: int|
                        0 <= j < self.slots().len() && idle(self.slots()[j].1.last_used, self.started())
                            ==> self.slots()[i as int].1.last_used <= #[trigger] self.slots()[j].1.last_used
                },
                None => forall|j: int|
                    0 <= j < self.slots().len() ==> !idle(#[trigger] self.slots()[j].1.last_used, self.started()),
            },
    {
        let now = self.frame_started;
        let mut best: Option<usize> = None;
        let mut k: usize = 0;
        while k < self.textures.len()
            invariant
                k <= self.textures@.len(),
                now == self.frame_started,
                match best {
                    Some(i) => {
                        &&& i < k
                        &&& idle(self.textures@[i as int].1.last_used, now)
                        &&& forall|j: int|
                            0 <= j < k && idle(self.textures@[j].1.last_used, now)
                                ==> self.textures@[i as int].1.last_used
                                <= #[trigger] self.textures@[j].1.last_used
                    },
                    None => forall|j: int| 0 <= j < k ==> !idle(#[trigger] self.textures@[j].1.last_used, now),
                },
            decreases self.textures@.len() - k,
        {
            let used = self.textures[k].1.last_used;
            let is_idle = now > used && now - used > KEEP_UNUSED_NANOS;
            if is_idle {
                match best {
                    Some(b) => {
                        if used < self.textures[b].1.last_used {
                            best = Some(k);
                        }
                    },
                    None => {
                        best = Some(k);
                    },
                }
            }
            k = k + 1;
        }
        best
    }

    /// Bring the cache back under `budget` bytes, once the frame has drawn
    /// what it draws: evict idle textures, least recently drawn first, until
    /// it fits or none is idle.
    pub fn trim(&mut self, budget: usize)
        requires
            old(self).wf(),
        ensures
            final(self).wf(),
            final(self).started() == old(self).started(),
            old(self).bytes() <= budget ==> final(self).slots() == old(self).slots(),
            trimmed(old(self).slots(), final(self).slots(), budget as nat, old(self).started()),
    {
        let ghost before = self.textures@;
        let ghost now = self.frame_started;
        let ghost mut floor: u64 = 0;
        let ghost mut last: int = -1;
        while self.cached_bytes > budget
            invariant
                self.frame_started == now,
                self.cached_bytes == total_bytes(self.textures@),
                distinct_keys(self.textures@),
                distinct_keys(before),
                total_bytes(before) <= budget ==> self.textures@ == before,
                forall|j: int| 0 <= j < self.textures@.len() ==> before.contains(#[trigger] self.textures@[j]),
                forall|i: int|
                    0 <= i < before.len() && !idle(before[i].1.last_used, now) ==> holds_key(
                        self.textures@,
                        #[trigger] before[i].0,
                    ),
                forall|j: int|
                    0 <= j < self.textures@.len() && idle(self.textures@[j].1.last_used, now) ==> floor
                        <= #[trigger] self.textures@[j].1.last_used,
                forall|i: int|
                    0 <= i < before.len() && !holds_key(self.textures@, before[i].0)
                        ==> #[trigger] before[i].1.last_used <= floor,
                last == -1 <==> forall|i: int|
                    0 <= i < before.len() ==> holds_key(self.textures@, #[trigger] before[i].0),
                last != -1 ==> {
                    &&& 0 <= last < before.len()
                    &&& !holds_key(self.textures@, before[last].0)
                    &&& before[last].1.last_used == floor
                    &&& total_bytes(self.textures@) + before[last].1.bytes > budget
                },
            ensures
                self.cached_bytes <= budget || forall|j: int|
                    0 <= j < self.textures@.len() ==> !idle(#[trigger] self.textures@[j].1.last_used, now),
            decreases self.textures@.len(),
        {
            match self.oldest_idle() {
                None => {
                    proof {
                        assert forall|j: int| 0 <= j < self.textures@.len() implies !idle(
                            #[trigger] self.textures@[j].1.last_used,
                            now,
                        ) by {
                            assert(self.slots()[j] == self.textures@[j]);
                        }
                    }
                    break;
                },
                Some(i) => {
                    let ghost prev = self.textures@;
                    let ghost gone = prev[i as int];
                    let gone_bytes = self.textures[i].1.bytes;
                    self.textures.remove(i);
                    proof {
                        lemma_total_remove(prev, i as int);
                        let cur = self.textures@;
                        assert(cur =~= prev.remove(i as int));
                        assert(before.contains(gone));
                        let w = choose|w: int| 0 <= w < before.len() && before[w] == gone;
                        floor = gone.1.last_used;
                        last = w;
                        assert forall|j: int| 0 <= j < cur.len() implies before.contains(#[trigger] cur[j]) by {
                            if j < i {
                                assert(cur[j] == prev[j]);
                            } else {
                                assert(cur[j] == prev[j + 1]);
                            }
                        }
                        assert(distinct_keys(cur)) by {
                            assert forall|a: int, b: int| 0 <= a < b < cur.len() implies cur[a].0 != cur[b].0 by {
                                let pa = if a < i { a } else { a + 1 };
                                let pb = if b < i { b } else { b + 1 };
                                assert(cur[a] == prev[pa]);
                                assert(cur[b] == prev[pb]);
                            }
                        }
                        // What was held before and is not the evicted key is held still.
                        assert forall|k: CacheKey| holds_key(prev, k) && k != gone.0 implies holds_key(cur, k) by {
                            let p = choose|p: int| 0 <= p < prev.len() && prev[p].0 == k;
                            let q = if p < i { p } else { p - 1 };
                            assert(cur[q] == prev[p]);
                        }
                        assert(!holds_key(cur, gone.0)) by {
                            if holds_key(cur, gone.0) {
                                let q = choose|q: int| 0 <= q < cur.len() && cur[q].0 == gone.0;
                                let p = if q < i { q } else { q + 1 };
                                assert(cur[q] == prev[p]);
                                assert(p != i);
                            }
                        }
                        assert forall|k: int|
                            0 <= k < before.len() && !idle(before[k].1.last_used, now) implies holds_key(
                            cur,
                            #[trigger] before[k].0,
                        ) by {
                            if before[k].0 == gone.0 {
                                assert(before[k] == before[w]) by {
                                    if k != w {
                                        assert(before[k].0 != before[w].0);
                                    }
                                }
                            }
                        }
                        assert forall|j: int|
                            0 <= j < cur.len() && idle(cur[j].1.last_used, now) implies floor
                                <= #[trigger] cur[j].1.last_used by {
                            if j < i {
                                assert(cur[j] == prev[j]);
                            } else {
                                assert(cur[j] == prev[j + 1]);
                            }
                        }
                        assert forall|k: int|
                            0 <= k < before.len() && !holds_key(cur, before[k].0) implies #[trigger] before[k].1.last_used
                                <= floor by {
                            if holds_key(prev, before[k].0) {
                                if before[k].0 != gone.0 {
                                    assert(holds_key(cur, before[k].0));
                                } else if k != w {
                                    assert(before[k].0 != before[w].0);
                                }
                            }
                        }
                        assert(!(forall|k: int| 0 <= k < before.len() ==> holds_key(cur, #[trigger] before[k].0))) by {
                            assert(!holds_key(cur, before[w].0));
                        }
                    }
                    self.cached_bytes = self.cached_bytes - gone_bytes;
                },
            }
        }
        proof {
            let after = self.textures@;
            assert forall|i: int, j: int|
                0 <= i < before.len() && 0 <= j < after.len() && !holds_key(after, before[i].0) && idle(
                    after[j].1.last_used,
                    now,
                ) implies #[trigger] before[i].1.last_used <= #[trigger] after[j].1.last_used by {
                assert(floor <= after[j].1.last_used);
            }
            if exists|i: int| 0 <= i < before.len() && !holds_key(after, #[trigger] before[i].0) {
                assert(last != -1);
                assert(forall|i: int|
                    0 <= i < before.len() && !holds_key(after, before[i].0) ==> #[trigger] before[i].1.last_used
                        <= before[last].1.last_used);
            }
        }
    }
}

} // verus!
