//! Coverage masks for frosted text: which masks are refused outright, and
//! which rasterized masks are remembered from frame to frame.
//!
//! Shaping the text and rasterizing the mask is the caller's (glyphon and GPU)
//! work; what is looked up, kept and dropped is decided here.

use vstd::prelude::*;

use super::dated_cache::{DatedCache, TextureKey};

verus! {

/// Masks kept before the unused ones are dropped.
pub const MAX_CACHED: usize = 32;

/// The largest mask side, in texels.
pub const MAX_SIDE: u32 = 2048;

/// Whether a mask is not made at all: no text, a side of zero, or a side
/// over [`MAX_SIDE`] (a frost is an effect on a label, and one over a
/// full-screen text would allocate a second framebuffer).
pub fn mask_refused(text_len: usize, width: u32, height: u32) -> (r: bool)
    ensures
        r == (text_len == 0 || width == 0 || height == 0 || width > MAX_SIDE || height > MAX_SIDE),
{
    text_len == 0 || width == 0 || height == 0 || width > MAX_SIDE || height > MAX_SIDE
}

/// What a mask's pixels depend on besides its text.
#[derive(Debug, Clone, Copy, PartialEq, Eq, Structural)]
pub struct MaskStyle {
    /// The font size in texels, as its `f32` bits.
    pub font_size_bits: u32,
    pub weight: u16,
    /// The font family, numbered by the caller.
    pub family: u32,
    /// The line alignment, numbered by the caller.
    pub align: u32,
    /// Mask size in texels.
    pub width: u32,
    pub height: u32,
    /// The shaping buffer, rounded to whole texels.
    pub buffer_width: u32,
    pub buffer_height: u32,
    /// The glyph origin inside the mask, in quarter texels.
    pub offset_x: i32,
    pub offset_y: i32,
}

/// Everything a mask is rasterized from.
pub struct MaskKey {
    pub text: String,
    pub style: MaskStyle,
}

impl TextureKey for MaskKey {
    type V = (Seq<char>, MaskStyle);

    open spec fn key_view(&self) -> (Seq<char>, MaskStyle) {
        (self.text@, self.style)
    }

    fn same(&self, other: &Self) -> (b: bool) {
        self.text == other.text && self.style == other.style
    }
}

/// Rasterized masks by key, and the frame generation that dates their use.
pub struct MaskCache<M> {
    cache: DatedCache<MaskKey, M>,
}

impl<M> MaskCache<M> {
    /// The masks as values: key, mask, and the frame that last used it.
    pub closed spec fn slots(&self) -> Seq<((Seq<char>, MaskStyle), M, u64)> {
        self.cache.slots()
    }

    /// The current frame generation.
    pub closed spec fn frame(&self) -> u64 {
        self.cache.frame()
    }

    pub closed spec fn wf(&self) -> bool {
        self.cache.wf()
    }

    /// Nothing cached, at generation 0.
    pub fn new() -> (c: Self)
        ensures
            c.wf(),
            c.slots() == Seq::<((Seq<char>, MaskStyle), M, u64)>::empty(),
            c.frame() == 0,
    {
        MaskCache { cache: DatedCache::new() }
    }

    /// How many masks are cached.
    pub fn len(&self) -> (n: usize)
        ensures
            n == self.slots().len(),
    {
        self.cache.len()
    }

    /// Note a new frame, and once more than [`MAX_CACHED`] masks are held,
    /// keep only those used in the new frame or the one before (that is,
    /// dated one less than the new generation, or later).
    pub fn begin_frame(&mut self)
        requires
            old(self).wf(),
            old(self).frame() < u64::MAX,
        ensures
            final(self).wf(),
            final(self).frame() == old(self).frame() + 1,
            old(self).slots().len() > MAX_CACHED ==> final(self).slots() == old(self).slots().filter(
                |e: ((Seq<char>, MaskStyle), M, u64)| e.2 >= old(self).frame(),
            ),
            old(self).slots().len() <= MAX_CACHED ==> final(self).slots() == old(self).slots(),
    {
        self.cache.advance();
        if self.cache.len() > MAX_CACHED {
            let current = self.cache_frame();
            self.cache.retain_used_since(current - 1);
        }
    }

    fn cache_frame(&self) -> (f: u64)
        ensures
            f == self.frame(),
    {
        self.cache.frame_value()
    }

    /// Whether a mask for `key` is cached; a hit is dated to the current
    /// frame, and nothing else changes.
    pub fn lookup(&mut self, key: &MaskKey) -> (hit: bool)
        requires
            old(self).wf(),
        ensures
            final(self).wf(),
            hit == super::dated_cache::holds(old(self).slots(), key.key_view()),
            final(self).frame() == old(self).frame(),
            final(self).slots().len() == old(self).slots().len(),
            forall|i: int|
                0 <= i < old(self).slots().len() ==> #[trigger] final(self).slots()[i] == (if old(self).slots()[i].0
                    == key.key_view() {
                    (old(self).slots()[i].0, old(self).slots()[i].1, old(self).frame())
                } else {
                    old(self).slots()[i]
                }),
    {
        self.cache.lookup(key)
    }

    /// The mask cached for `key`.
    pub fn get(&self, key: &MaskKey) -> (r: Option<&M>)
        requires
            self.wf(),
        ensures
            match r {
                Some(m) => exists|i: int|
                    0 <= i < self.slots().len() && self.slots()[i].0 == key.key_view() && self.slots()[i].1
                        == *m,
                None => !super::dated_cache::holds(self.slots(), key.key_view()),
            },
    {
        let r = self.cache.get(key);
        proof {
            if let Some(m) = r {
                let i = choose|i: int|
                    0 <= i < self.cache.slots().len() && self.cache.slots()[i].0 == key.key_view()
                        && self.cache.slots()[i].1 == *m;
                assert(self.slots()[i] == self.cache.slots()[i]);
            }
        }
        r
    }

    /// Cache `mask` under `key`, dated to the current frame, in place of any
    /// mask the key found.
    pub fn insert(&mut self, key: MaskKey, mask: M)
        requires
            old(self).wf(),
        ensures
            final(self).wf(),
            final(self).frame() == old(self).frame(),
            super::dated_cache::holds(old(self).slots(), key.key_view()) ==> exists|i: int|
                0 <= i < old(self).slots().len() && old(self).slots()[i].0 == key.key_view()
                    && final(self).slots() == old(self).slots().update(i, (key.key_view(), mask, old(self).frame())),
            !super::dated_cache::holds(old(self).slots(), key.key_view()) ==> final(self).slots()
                == old(self).slots().push((key.key_view(), mask, old(self).frame())),
    {
        self.cache.insert(key, mask);
    }
}

/// Two mask keys find the same mask exactly when their texts and every style
/// field (size, weight, family, alignment, mask size, shaping buffer and
/// glyph offset) are equal.
pub proof fn law_mask_keys_compare_every_field(a: MaskKey, b: MaskKey)
    ensures
        a.key_view() == b.key_view() <==> (a.text@ == b.text@ && a.style.font_size_bits == b.style.font_size_bits
            && a.style.weight == b.style.weight && a.style.family == b.style.family && a.style.align
            == b.style.align && a.style.width == b.style.width && a.style.height == b.style.height
            && a.style.buffer_width == b.style.buffer_width && a.style.buffer_height == b.style.buffer_height
            && a.style.offset_x == b.style.offset_x && a.style.offset_y == b.style.offset_y),
{
}

} // verus!
