//! Text that must not outlive its use: a password, edited in place and
//! wiped wherever it leaves bytes behind.
//!
//! A [`Secret`] keeps its text at the start of one buffer of its own. Edits
//! shift and write inside that buffer; what a shrink leaves past the end is
//! zeroed at once, and only when the text no longer fits does it move, to a
//! buffer at least twice the size. The buffer is held in a
//! `zeroize::Zeroizing`, so whichever buffer is given up (outgrown, or
//! dropped with the secret) is zeroed before its memory goes back.
//!
//! The buffer is ordinary heap memory: it is not locked against swapping
//! (`mlock`), not marked to be left out of core dumps (`MADV_DONTDUMP`), and
//! not a mapping of whole pages. Those protections take raw system calls,
//! which this library does not make.
//!
//! What it deliberately lacks is as much a part of it: no `Clone`, no
//! `Display`, no `Deref`, and for debugging only
//! [`debug_string`](Secret::debug_string), which prints none of the text.
//! The one way to the text is [`expose`](Secret::expose), which lends it.

use vstd::prelude::*;
use vstd::string::StringSliceAdditionalSpecFns;
use vstd::utf8::*;
use zeroize::Zeroize;

verus! {

broadcast use vstd::seq_lib::group_seq_properties;

/// A buffer held in a `zeroize::Zeroizing`, which zeroes it when dropped.
/// The guard is opaque: its bytes are known only through
/// [`guarded_bytes`], and it is reached only through the functions below.
#[verifier::external_body]
pub struct GuardedBuffer {
    inner: zeroize::Zeroizing<Vec<u8>>,
}

/// The bytes a guarded buffer holds.
pub uninterp spec fn guarded_bytes(b: GuardedBuffer) -> Seq<u8>;

/// Wraps a buffer in `zeroize::Zeroizing::new`, which holds it unchanged and
/// zeroes it when dropped.
#[verifier::external_body]
fn guard_buffer(v: Vec<u8>) -> (b: GuardedBuffer)
    ensures
        guarded_bytes(b) == v@,
{
    GuardedBuffer { inner: zeroize::Zeroizing::new(v) }
}

/// Reads the buffer through `Zeroizing`'s `Deref`, which lends the value it
/// holds.
#[verifier::external_body]
fn guarded(b: &GuardedBuffer) -> (v: &Vec<u8>)
    ensures
        v@ == guarded_bytes(*b),
{
    &b.inner
}

/// Swaps the buffer out through `Zeroizing`'s `DerefMut`: the guard holds
/// `v` afterwards and the buffer it held is handed back, moved, not copied.
#[verifier::external_body]
fn swap_guarded(b: &mut GuardedBuffer, v: Vec<u8>) -> (prev: Vec<u8>)
    ensures
        prev@ == guarded_bytes(*old(b)),
        guarded_bytes(*final(b)) == v@,
{
    std::mem::replace(&mut *b.inner, v)
}

/// Zeroes `buf[start..end]` with `zeroize`'s slice `Zeroize`, whose volatile
/// writes the compiler may not elide.
#[verifier::external_body]
fn wipe(buf: &mut Vec<u8>, start: usize, end: usize)
    requires
        start <= end <= old(buf)@.len(),
        end - start <= isize::MAX,
    ensures
        final(buf)@.len() == old(buf)@.len(),
        forall|i: int| 0 <= i < final(buf)@.len() ==> #[trigger] final(buf)@[i] == (if start <= i < end {
            0u8
        } else {
            old(buf)@[i]
        }),
{
    buf[start..end].zeroize();
}

/// Zeroes a `String` with `zeroize`'s `Zeroize`, which wipes every byte of
/// its buffer and leaves it empty.
#[verifier::external_body]
fn wipe_string(s: &mut String)
    ensures
        final(s)@.len() == 0,
{
    s.zeroize();
}

/// Reads bytes as text with `std::str::from_utf8`: the text when they are
/// valid UTF-8, nothing otherwise.
#[verifier::external_body]
fn utf8_text(bytes: &[u8]) -> (r: Option<&str>)
    ensures
        r is Some <==> valid_utf8(bytes@),
        r matches Some(t) ==> t.spec_bytes() == bytes@,
{
    std::str::from_utf8(bytes).ok()
}

/// The bytes of `text` with `start..end` replaced by `with`.
pub open spec fn spliced(text: Seq<u8>, start: int, end: int, with: Seq<u8>) -> Seq<u8> {
    text.subrange(0, start) + with + text.subrange(end, text.len() as int)
}

/// The size a secret moves to when `needed` bytes no longer fit in
/// `capacity`: at least twice the old size (short of `isize::MAX`), and at
/// least what is needed.
pub open spec fn grown_capacity(needed: int, capacity: int) -> int {
    let doubled = if 2 * capacity <= isize::MAX {
        2 * capacity
    } else {
        isize::MAX as int
    };
    if needed >= doubled {
        needed
    } else {
        doubled
    }
}

/// A password, held in a buffer of its own that is wiped wherever it leaves
/// bytes behind.
pub struct Secret {
    buf: GuardedBuffer,
    len: usize,
}

impl Secret {
    /// The text's bytes.
    pub closed spec fn text(&self) -> Seq<u8> {
        guarded_bytes(self.buf).subrange(0, self.len as int)
    }

    /// Bytes held: the text, then zeroes.
    pub closed spec fn capacity_spec(&self) -> nat {
        guarded_bytes(self.buf).len()
    }

    /// Everything past the text is zero.
    pub closed spec fn spare_is_wiped(&self) -> bool {
        forall|i: int|
            self.len <= i < guarded_bytes(self.buf).len() ==> guarded_bytes(self.buf)[i] == 0
    }

    /// The text is valid UTF-8 at the start of the buffer, the rest is zero,
    /// and the buffer's size is one a slice can have.
    pub closed spec fn wf(&self) -> bool {
        &&& self.len <= guarded_bytes(self.buf).len()
        &&& guarded_bytes(self.buf).len() <= isize::MAX
        &&& valid_utf8(self.text())
        &&& self.spare_is_wiped()
    }

    /// An empty secret, holding no buffer until text is written into it.
    pub fn new() -> (s: Secret)
        ensures
            s.wf(),
            s.text() == Seq::<u8>::empty(),
            s.capacity_spec() == 0,
    {
        let s = Secret { buf: guard_buffer(Vec::new()), len: 0 };
        proof {
            assert(s.text() =~= Seq::<u8>::empty());
            reveal_with_fuel(valid_utf8, 1);
        }
        s
    }

    /// Lend the text. Whatever the caller copies out of it is the caller's
    /// to wipe.
    pub fn expose(&self) -> (t: &str)
        requires
            self.wf(),
        ensures
            t.spec_bytes() == self.text(),
    {
        let all = guarded(&self.buf);
        let bytes = &all.as_slice()[0..self.len];
        match utf8_text(bytes) {
            Some(t) => t,
            None => {
                proof {
                    assert(bytes@ =~= self.text());
                }
                ""
            },
        }
    }

    /// What the secret shows of itself when printed for debugging: its name,
    /// and none of its text.
    pub fn debug_string(&self) -> (s: String)
        ensures
            s@ == "Secret(..)"@,
    {
        "Secret(..)".to_owned()
    }

    /// Whether there is any text.
    pub fn is_empty(&self) -> (b: bool)
        requires
            self.wf(),
        ensures
            b == (self.text().len() == 0),
    {
        self.len == 0
    }

    /// Bytes the secret holds room for.
    pub fn capacity(&self) -> (n: usize)
        requires
            self.wf(),
        ensures
            n == self.capacity_spec(),
    {
        guarded(&self.buf).len()
    }

    /// Whether every byte past the text is zero (it always is).
    pub fn wiped_beyond_text(&self) -> (b: bool)
        requires
            self.wf(),
        ensures
            b == self.spare_is_wiped(),
            b,
    {
        let all = guarded(&self.buf);
        let mut i = self.len;
        while i < all.len()
            invariant
                self.len <= i <= all@.len(),
                all@ == guarded_bytes(self.buf),
                self.spare_is_wiped(),
            decreases all@.len() - i,
        {
            if all[i] != 0 {
                return false;
            }
            i = i + 1;
        }
        true
    }

    /// Wipe the text, keeping the buffer for what is typed next.
    pub fn clear(&mut self)
        requires
            old(self).wf(),
        ensures
            final(self).wf(),
            final(self).text() == Seq::<u8>::empty(),
            final(self).capacity_spec() == old(self).capacity_spec(),
    {
        let mut v = swap_guarded(&mut self.buf, Vec::new());
        let len = self.len;
        wipe(&mut v, 0, len);
        let _ = swap_guarded(&mut self.buf, v);
        self.len = 0;
        proof {
            assert(self.text() =~= Seq::<u8>::empty());
            reveal_with_fuel(valid_utf8, 1);
        }
    }
}

/// `old` with the `n` bytes at `src` copied to `dst`.
pub open spec fn moved(old: Seq<u8>, src: int, dst: int, n: int) -> Seq<u8> {
    Seq::new(old.len(), |i: int| if dst <= i < dst + n { old[i - dst + src] } else { old[i] })
}

/// `old` with `bytes` written from `at` on.
pub open spec fn written(old: Seq<u8>, at: int, bytes: Seq<u8>) -> Seq<u8> {
    Seq::new(
        old.len(),
        |i: int|
            if at <= i < at + bytes.len() {
                bytes[i - at]
            } else {
                old[i]
            },
    )
}

/// Copy `n` bytes from `src` to `dst` within `v`, correct when the two
/// ranges overlap.
fn move_bytes(v: &mut Vec<u8>, src: usize, dst: usize, n: usize)
    requires
        src + n <= old(v)@.len(),
        dst + n <= old(v)@.len(),
    ensures
        final(v)@ == moved(old(v)@, src as int, dst as int, n as int),
{
    let ghost start = v@;
    let l = v.len();
    if dst > src {
        let mut k = n;
        while k > 0
            invariant
                k <= n,
                src + n <= start.len(),
                dst + n <= start.len(),
                start.len() == l,
                dst > src,
                v@ == Seq::new(
                    start.len(),
                    |i: int|
                        if dst + k <= i < dst + n {
                            start[i - dst + src]
                        } else {
                            start[i]
                        },
                ),
            decreases k,
        {
            k = k - 1;
            let b = v[src + k];
            v.set(dst + k, b);
            proof {
                assert(v@ =~= Seq::new(
                    start.len(),
                    |i: int|
                        if dst + k <= i < dst + n {
                            start[i - dst + src]
                        } else {
                            start[i]
                        },
                ));
            }
        }
        proof {
            assert(v@ =~= moved(start, src as int, dst as int, n as int));
        }
    } else if dst < src {
        let mut k: usize = 0;
        while k < n
            invariant
                k <= n,
                src + n <= start.len(),
                dst + n <= start.len(),
                start.len() == l,
                dst < src,
                v@ == Seq::new(
                    start.len(),
                    |i: int|
                        if dst <= i < dst + k {
                            start[i - dst + src]
                        } else {
                            start[i]
                        },
                ),
            decreases n - k,
        {
            let b = v[src + k];
            v.set(dst + k, b);
            k = k + 1;
            proof {
                assert(v@ =~= Seq::new(
                    start.len(),
                    |i: int|
                        if dst <= i < dst + k {
                            start[i - dst + src]
                        } else {
                            start[i]
                        },
                ));
            }
        }
        proof {
            assert(v@ =~= moved(start, src as int, dst as int, n as int));
        }
    } else {
        proof {
            assert(v@ =~= moved(start, src as int, dst as int, n as int));
        }
    }
}

/// Write `bytes` into `v` from `at` on.
fn write_bytes(v: &mut Vec<u8>, at: usize, bytes: &[u8])
    requires
        at + bytes@.len() <= old(v)@.len(),
    ensures
        final(v)@ == written(old(v)@, at as int, bytes@),
{
    let ghost start = v@;
    let l = v.len();
    let mut k: usize = 0;
    while k < bytes.len()
        invariant
            k <= bytes@.len(),
            start.len() == l,
            at + bytes@.len() <= start.len(),
            v@ == Seq::new(
                start.len(),
                |i: int|
                    if at <= i < at + k {
                        bytes@[i - at]
                    } else {
                        start[i]
                    },
            ),
        decreases bytes@.len() - k,
    {
        v.set(at + k, bytes[k]);
        k = k + 1;
        proof {
            assert(v@ =~= Seq::new(
                start.len(),
                |i: int|
                    if at <= i < at + k {
                        bytes@[i - at]
                    } else {
                        start[i]
                    },
            ));
        }
    }
    proof {
        assert(v@ =~= written(start, at as int, bytes@));
    }
}

/// `n` zero bytes.
fn zeroed(n: usize) -> (v: Vec<u8>)
    ensures
        v@.len() == n,
        forall|i: int| 0 <= i < n ==> v@[i] == 0,
{
    let mut v: Vec<u8> = Vec::new();
    let mut k: usize = 0;
    while k < n
        invariant
            k <= n,
            v@.len() == k,
            forall|i: int| 0 <= i < k ==> v@[i] == 0,
        decreases n - k,
    {
        v.push(0);
        k = k + 1;
    }
    v
}

/// Splicing valid UTF-8 into valid UTF-8 at character boundaries gives
/// valid UTF-8.
proof fn lemma_splice_valid(text: Seq<u8>, start: int, end: int, with: Seq<u8>)
    requires
        valid_utf8(text),
        valid_utf8(with),
        0 <= start <= end <= text.len(),
        is_char_boundary(text, start),
        is_char_boundary(text, end),
    ensures
        valid_utf8(spliced(text, start, end, with)),
{
    valid_utf8_split(text, start);
    valid_utf8_split(text, end);
    valid_utf8_concat(text.subrange(0, start), with);
    valid_utf8_concat(text.subrange(0, start) + with, text.subrange(end, text.len() as int));
}

impl Secret {
    /// Replace `range` (in bytes, on character boundaries of the text) with
    /// `with`, in place. Shifting the tail and writing the new text happens
    /// inside the buffer; bytes a shrink leaves past the end are zeroed. Only
    /// when the text no longer fits does it move, to a buffer of
    /// [`grown_capacity`], and the buffer given up is zeroed on the way out.
    pub fn replace_range(&mut self, range: std::ops::Range<usize>, with: &str)
        requires
            old(self).wf(),
            range.start <= range.end <= old(self).text().len(),
            is_char_boundary(old(self).text(), range.start as int),
            is_char_boundary(old(self).text(), range.end as int),
            old(self).text().len() - (range.end - range.start) + with.spec_bytes().len()
                <= isize::MAX,
        ensures
            final(self).wf(),
            final(self).text() == spliced(
                old(self).text(),
                range.start as int,
                range.end as int,
                with.spec_bytes(),
            ),
            final(self).capacity_spec() == (if final(self).text().len()
                <= old(self).capacity_spec() {
                old(self).capacity_spec() as int
            } else {
                grown_capacity(final(self).text().len() as int, old(self).capacity_spec() as int)
            }),
    {
        let start = range.start;
        let end = range.end;
        let wb = with.as_bytes();
        let old_len = self.len;
        let w = wb.len();
        let new_len = old_len - (end - start) + w;
        let ghost text = self.text();
        let ghost spliced_text = spliced(text, start as int, end as int, wb@);
        proof {
            encode_utf8_valid_utf8(with@);
            lemma_splice_valid(text, start as int, end as int, wb@);
            assert(spliced_text.len() == new_len);
        }
        let mut v = swap_guarded(&mut self.buf, Vec::new());
        let cap = v.len();
        if new_len > cap {
            let limit = isize::MAX as usize;
            let doubled = if cap <= limit / 2 {
                cap * 2
            } else {
                limit
            };
            let new_cap = if new_len >= doubled {
                new_len
            } else {
                doubled
            };
            let mut g = zeroed(new_cap);
            let ghost g0 = g@;
            write_bytes(&mut g, 0, &v.as_slice()[0..start]);
            let ghost g1 = g@;
            write_bytes(&mut g, start, wb);
            let ghost g2 = g@;
            write_bytes(&mut g, start + w, &v.as_slice()[end..old_len]);
            proof {
                assert(g@.subrange(0, new_len as int) =~= spliced_text);
                assert forall|i: int| new_len <= i < g@.len() implies g@[i] == 0 by {
                    assert(g0[i] == 0);
                }
            }
            let _ = swap_guarded(&mut self.buf, v);
            self.buf = guard_buffer(g);
            self.len = new_len;
        } else {
            let ghost v0 = v@;
            let tail = old_len - end;
            move_bytes(&mut v, end, start + w, tail);
            let ghost v1 = v@;
            write_bytes(&mut v, start, wb);
            let ghost v2 = v@;
            if new_len < old_len {
                wipe(&mut v, new_len, old_len);
            }
            proof {
                assert(v@.subrange(0, new_len as int) =~= spliced_text) by {
                    assert forall|i: int| 0 <= i < new_len implies v@[i] == spliced_text[i] by {
                        assert(v2[i] == v@[i]);
                    }
                }
                assert forall|i: int| new_len <= i < v@.len() implies v@[i] == 0 by {
                    if i >= old_len {
                        assert(v0[i] == 0);
                        assert(v1[i] == v0[i]);
                        assert(v2[i] == v1[i]);
                    }
                }
            }
            let _ = swap_guarded(&mut self.buf, v);
            self.len = new_len;
        }
    }

    /// A second secret holding the same text, in a buffer of its own, so the
    /// copy is wiped as the original is. A method rather than `Clone`, so
    /// that every copy is written down.
    pub fn duplicate(&self) -> (copy: Secret)
        requires
            self.wf(),
            self.text().len() <= isize::MAX,
        ensures
            copy.wf(),
            copy.text() == self.text(),
    {
        let mut copy = Secret::new();
        let text = self.expose();
        proof {
            let empty = copy.text();
            assert(empty =~= Seq::<u8>::empty());
            is_char_boundary_start_end_of_seq(empty);
            reveal_with_fuel(valid_utf8, 1);
        }
        copy.replace_range(0..0, text);
        proof {
            assert(copy.text() =~= self.text());
        }
        copy
    }

    /// A secret holding `text`, which is zeroed on the way in.
    pub fn from_text(text: String) -> (s: Secret)
        requires
            encode_utf8(text@).len() <= isize::MAX,
        ensures
            s.wf(),
            s.text() == encode_utf8(text@),
    {
        let mut text = text;
        let mut secret = Secret::new();
        proof {
            let empty = secret.text();
            assert(empty =~= Seq::<u8>::empty());
            is_char_boundary_start_end_of_seq(empty);
            reveal_with_fuel(valid_utf8, 1);
        }
        secret.replace_range(0..0, text.as_str());
        proof {
            assert(secret.text() =~= encode_utf8(text@));
        }
        wipe_string(&mut text);
        secret
    }
}

} // verus!
