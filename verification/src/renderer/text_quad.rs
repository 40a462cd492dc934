//! Rasterized textures of transformed text, kept from frame to frame.
//!
//! Shaping and rasterizing a text is the expensive step, so each texture is
//! found again by everything that affects its pixels. Shaping, rendering and
//! uploading are the caller's (glyphon and GPU) work; what is looked up, kept
//! and dropped is decided here.

use vstd::prelude::*;

use super::dated_cache::{DatedCache, TextureKey};

verus! {

/// Textures kept before a prepare keeps only those it used.
pub const MAX_CACHED_TEXTS: usize = 512;

/// What a text texture's pixels depend on besides its text.
#[derive(Debug, Clone, Copy, PartialEq, Eq, Structural)]
pub struct TextStyle {
    /// The font size in texels, as its `f32` bits.
    pub font_size_bits: u32,
    pub weight: u16,
    /// The font family, numbered by the caller.
    pub family: u32,
    /// The line alignment, numbered by the caller.
    pub align: u32,
    /// The colour, in 8-bit red, green, blue and alpha.
    pub red: u8,
    pub green: u8,
    pub blue: u8,
    pub alpha: u8,
    /// Texture size in texels.
    pub tex_width: u32,
    pub tex_height: u32,
}

/// Everything that affects the rasterized pixels of a text texture.
pub struct TextCacheKey {
    pub text: String,
    pub style: TextStyle,
}

impl TextureKey for TextCacheKey {
    type V = (Seq<char>, TextStyle);

    open spec fn key_view(&self) -> (Seq<char>, TextStyle) {
        (self.text@, self.style)
    }

    fn same(&self, other: &Self) -> (b: bool) {
        self.text == other.text && self.style == other.style
    }
}

/// Two filters that agree on every element give the same result.
proof fn lemma_filter_agree<A>(s: Seq<A>, p: spec_fn(A) -> bool, q: spec_fn(A) -> bool)
    requires
        forall|i: int| 0 <= i < s.len() ==> p(s[i]) == q(s[i]),
    ensures
        s.filter(p) == s.filter(q),
    decreases s.len(),
{
    reveal(Seq::filter);
    if s.len() > 0 {
        let t = s.drop_last();
        assert forall|i: int| 0 <= i < t.len() implies p(t[i]) == q(t[i]) by {
            assert(t[i] == s[i]);
        }
        lemma_filter_agree(t, p, q);
        assert(p(s[s.len() - 1]) == q(s[s.len() - 1]));
    }
}

/// Text textures by key, and the frame generation that dates their use.
pub struct TextQuadCache<T> {
    cache: DatedCache<TextCacheKey, T>,
}

impl<T> TextQuadCache<T> {
    /// The textures as values: key, texture, and the frame that last used it.
    pub closed spec fn slots(&self) -> Seq<((Seq<char>, TextStyle), T, u64)> {
        self.cache.slots()
    }

    /// The current frame generation.
    pub closed spec fn frame(&self) -> u64 {
        self.cache.frame()
    }

    pub closed spec fn wf(&self) -> bool {
        self.cache.wf()
    }

    /// Nothing cached, at generation 0.
    pub fn new() -> (c: Self)
        ensures
            c.wf(),
            c.slots() == Seq::<((Seq<char>, TextStyle), T, u64)>::empty(),
            c.frame() == 0,
    {
        TextQuadCache { cache: DatedCache::new() }
    }

    /// How many textures are cached.
    pub fn len(&self) -> (n: usize)
        ensures
            n == self.slots().len(),
    {
        self.cache.len()
    }

    /// Start preparing a frame's transformed texts: the next generation.
    pub fn begin_prepare(&mut self)
        requires
            old(self).wf(),
            old(self).frame() < u64::MAX,
        ensures
            final(self).wf(),
            final(self).frame() == old(self).frame() + 1,
            final(self).slots() == old(self).slots(),
    {
        self.cache.advance();
    }

    /// Done preparing: past [`MAX_CACHED_TEXTS`] textures, keep only those
    /// this frame used.
    pub fn end_prepare(&mut self)
        requires
            old(self).wf(),
        ensures
            final(self).wf(),
            final(self).frame() == old(self).frame(),
            old(self).slots().len() > MAX_CACHED_TEXTS ==> final(self).slots() == old(self).slots().filter(
                |e: ((Seq<char>, TextStyle), T, u64)| e.2 == old(self).frame(),
            ),
            old(self).slots().len() <= MAX_CACHED_TEXTS ==> final(self).slots() == old(self).slots(),
    {
        if self.cache.len() > MAX_CACHED_TEXTS {
            let current = self.cache.frame_value();
            let ghost s = self.slots();
            proof {
                self.cache.lemma_dated_no_later();
                assert forall|i: int| 0 <= i < s.len() implies (|e: ((Seq<char>, TextStyle), T, u64)| e.2
                    >= current)(s[i]) == (|e: ((Seq<char>, TextStyle), T, u64)| e.2 == current)(s[i]) by {
                    assert(self.cache.slots()[i].2 <= self.cache.frame());
                }
                lemma_filter_agree(
                    s,
                    |e: ((Seq<char>, TextStyle), T, u64)| e.2 >= current,
                    |e: ((Seq<char>, TextStyle), T, u64)| e.2 == current,
                );
            }
            self.cache.retain_used_since(current);
        }
    }

    /// Whether a texture for `key` is cached; a hit is dated to the current
    /// frame, and nothing else changes.
    pub fn lookup(&mut self, key: &TextCacheKey) -> (hit: bool)
        requires
            old(self).wf(),
        ensures
            final(self).wf(),
            hit == super::dated_cache::holds(old(self).slots(), key.key_view()),
            final(self).frame() == old(self).frame(),
            final(self).slots().len() == old(self).slots().len(),
            forall|i: int|
                0 <= i < old(self).slots().len() ==> #[trigger] final(self).slots()[i] == (if old(self).slots()[i].0
                    == key.key_view() {
                    (old(self).slots()[i].0, old(self).slots()[i].1, old(self).frame())
                } else {
                    old(self).slots()[i]
                }),
    {
        self.cache.lookup(key)
    }

    /// The texture cached for `key`.
    pub fn get(&self, key: &TextCacheKey) -> (r: Option<&T>)
        requires
            self.wf(),
        ensures
            match r {
                Some(t) => exists|i: int|
                    0 <= i < self.slots().len() && self.slots()[i].0 == key.key_view() && self.slots()[i].1
                        == *t,
                None => !super::dated_cache::holds(self.slots(), key.key_view()),
            },
    {
        let r = self.cache.get(key);
        proof {
            if let Some(t) = r {
                let i = choose|i: int|
                    0 <= i < self.cache.slots().len() && self.cache.slots()[i].0 == key.key_view()
                        && self.cache.slots()[i].1 == *t;
                assert(self.slots()[i] == self.cache.slots()[i]);
            }
        }
        r
    }

    /// Cache `texture` under `key`, dated to the current frame, in place of
    /// any texture the key found.
    pub fn insert(&mut self, key: TextCacheKey, texture: T)
        requires
            old(self).wf(),
        ensures
            final(self).wf(),
            final(self).frame() == old(self).frame(),
            super::dated_cache::holds(old(self).slots(), key.key_view()) ==> exists|i: int|
                0 <= i < old(self).slots().len() && old(self).slots()[i].0 == key.key_view()
                    && final(self).slots() == old(self).slots().update(i, (key.key_view(), texture, old(self).frame())),
            !super::dated_cache::holds(old(self).slots(), key.key_view()) ==> final(self).slots()
                == old(self).slots().push((key.key_view(), texture, old(self).frame())),
    {
        self.cache.insert(key, texture);
    }
}

/// Two text keys find the same texture exactly when their texts and every
/// style field (size, weight, family, alignment, each colour channel and the
/// texture size) are equal.
pub proof fn law_text_keys_compare_every_field(a: TextCacheKey, b: TextCacheKey)
    ensures
        a.key_view() == b.key_view() <==> (a.text@ == b.text@ && a.style.font_size_bits == b.style.font_size_bits
            && a.style.weight == b.style.weight && a.style.family == b.style.family && a.style.align
            == b.style.align && a.style.red == b.style.red && a.style.green == b.style.green
            && a.style.blue == b.style.blue && a.style.alpha == b.style.alpha && a.style.tex_width
            == b.style.tex_width && a.style.tex_height == b.style.tex_height),
{
}

} // verus!
