//! When the backdrop pass holds its offscreen targets: allocated when a frame
//! needs them at a new size, and released only after a run of frames that
//! needed none, so a menu that blurs while open does not reallocate a
//! surface-sized target every time it opens.
//!
//! Allocating the targets is the caller's (GPU) work, handed in as a closure.

use vstd::prelude::*;

verus! {

/// How many frames in a row may go without a backdrop effect before the
/// offscreen targets are released.
pub const IDLE_FRAMES_BEFORE_RELEASE: u32 = 120;

/// A region in whole pixels (its left and top edges rounded down, its right
/// and bottom edges rounded up, none below zero) clamped to a target of
/// `width` by `height`: its origin and size, or nothing when no pixel of it
/// is on the target.
pub fn clamp_region(x: u32, y: u32, right: u32, bottom: u32, width: u32, height: u32) -> (r: Option<
    (u32, u32, u32, u32),
>)
    ensures
        ({
            let r2 = if right <= width { right } else { width };
            let b2 = if bottom <= height { bottom } else { height };
            r == (if x >= r2 || y >= b2 {
                None
            } else {
                Some((x, y, (r2 - x) as u32, (b2 - y) as u32))
            })
        }),
{
    let right = if right <= width { right } else { width };
    let bottom = if bottom <= height { bottom } else { height };
    if x >= right || y >= bottom {
        return None;
    }
    Some((x, y, right - x, bottom - y))
}

/// Offscreen targets of a given size.
pub struct SizedTargets<T> {
    pub targets: T,
    pub width: u32,
    pub height: u32,
}

/// The offscreen targets, if held, and how many frames in a row have gone
/// without needing them.
pub struct BackdropTargets<T> {
    targets: Option<SizedTargets<T>>,
    idle_frames: u32,
}

/// Whether targets are held, and the idle count, after one frame that
/// needed no backdrop effect.
pub open spec fn after_unused(held: bool, idle: nat) -> (bool, nat) {
    if !held {
        (false, idle)
    } else if idle + 1 > IDLE_FRAMES_BEFORE_RELEASE {
        (false, 0)
    } else {
        (true, idle + 1)
    }
}

/// Whether targets are held, and the idle count, after `n` frames in a row
/// that needed no backdrop effect.
pub open spec fn after_unused_frames(held: bool, idle: nat, n: nat) -> (bool, nat)
    decreases n,
{
    if n == 0 {
        (held, idle)
    } else {
        let (h, i) = after_unused_frames(held, idle, (n - 1) as nat);
        after_unused(h, i)
    }
}

impl<T> BackdropTargets<T> {
    /// The targets held, if any.
    pub closed spec fn held(&self) -> Option<SizedTargets<T>> {
        self.targets
    }

    /// Frames in a row that needed no backdrop effect.
    pub closed spec fn idle(&self) -> nat {
        self.idle_frames as nat
    }

    pub closed spec fn wf(&self) -> bool {
        &&& self.idle_frames <= IDLE_FRAMES_BEFORE_RELEASE
        &&& self.targets.is_none() ==> self.idle_frames == 0
    }

    /// No targets yet.
    pub fn new() -> (b: Self)
        ensures
            b.wf(),
            b.held().is_none(),
            b.idle() == 0,
    {
        BackdropTargets { targets: None, idle_frames: 0 }
    }

    /// Whether the targets held cannot serve a frame of this size: none are
    /// held, or they are of another size.
    pub fn is_stale(&self, width: u32, height: u32) -> (stale: bool)
        ensures
            stale == match self.held() {
                Some(t) => t.width != width || t.height != height,
                None => true,
            },
    {
        match &self.targets {
            Some(targets) => targets.width != width || targets.height != height,
            None => true,
        }
    }

    /// Make sure targets of this size are held, allocating them with
    /// `allocate` when they are not, and note the frame as one that needed
    /// them.
    pub fn ensure_targets<F: FnOnce(u32, u32) -> T>(&mut self, width: u32, height: u32, allocate: F)
        requires
            old(self).wf(),
            call_requires(allocate, (width, height)),
        ensures
            final(self).wf(),
            final(self).idle() == 0,
            final(self).held() matches Some(t) && t.width == width && t.height == height,
            old(self).is_stale_spec(width, height) ==> call_ensures(
                allocate,
                (width, height),
                final(self).held().unwrap().targets,
            ),
            !old(self).is_stale_spec(width, height) ==> final(self).held() == old(self).held(),
    {
        if self.is_stale(width, height) {
            let targets = allocate(width, height);
            self.targets = Some(SizedTargets { targets, width, height });
        }
        self.idle_frames = 0;
    }

    /// Whether the targets held cannot serve a frame of this size.
    pub open spec fn is_stale_spec(&self, width: u32, height: u32) -> bool {
        match self.held() {
            Some(t) => t.width != width || t.height != height,
            None => true,
        }
    }

    /// The targets the frame should be drawn through, once
    /// [`ensure_targets`](Self::ensure_targets) has run.
    pub fn targets(&self) -> (t: Option<&T>)
        ensures
            match self.held() {
                Some(h) => t == Some(&h.targets),
                None => t.is_none(),
            },
    {
        match &self.targets {
            Some(sized) => Some(&sized.targets),
            None => None,
        }
    }

    /// Note a frame that needed no backdrop effect, releasing the targets
    /// once more than [`IDLE_FRAMES_BEFORE_RELEASE`] such frames go by in a
    /// row.
    pub fn note_unused(&mut self)
        requires
            old(self).wf(),
        ensures
            final(self).wf(),
            (final(self).held().is_some(), final(self).idle()) == after_unused(
                old(self).held().is_some(),
                old(self).idle(),
            ),
            final(self).held().is_some() ==> final(self).held() == old(self).held(),
    {
        if self.targets.is_none() {
            return;
        }
        self.idle_frames = self.idle_frames + 1;
        if self.idle_frames > IDLE_FRAMES_BEFORE_RELEASE {
            self.targets = None;
            self.idle_frames = 0;
        }
    }
}

/// Targets just used are kept through [`IDLE_FRAMES_BEFORE_RELEASE`] frames
/// in a row that need none, and released by the one after.
pub proof fn law_release_after_idle_run(n: nat)
    ensures
        n <= IDLE_FRAMES_BEFORE_RELEASE ==> after_unused_frames(true, 0, n) == (true, n),
        after_unused_frames(true, 0, (IDLE_FRAMES_BEFORE_RELEASE + 1) as nat) == (false, 0nat),
{
    if n <= IDLE_FRAMES_BEFORE_RELEASE {
        lemma_kept_through(n);
    }
    lemma_kept_through(IDLE_FRAMES_BEFORE_RELEASE as nat);
}

proof fn lemma_kept_through(n: nat)
    requires
        n <= IDLE_FRAMES_BEFORE_RELEASE,
    ensures
        after_unused_frames(true, 0, n) == (true, n),
    decreases n,
{
    if n > 0 {
        lemma_kept_through((n - 1) as nat);
    }
}

} // verus!
