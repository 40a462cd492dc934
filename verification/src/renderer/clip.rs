//! The frame's clips as a tree by parent links, kept in the order flatten
//! met them: a clip's parent is always placed before it, so the clips of a
//! subtree are a contiguous run, and a cached subtree keeps a slice of them.
//!
//! What a clip cuts (its shape, translated and intersected with its
//! parent's) is geometry and the caller's; where each clip hangs, and how a
//! run of them is written down and put back, is decided here.

use vstd::prelude::*;

verus! {

/// Where a clip sits in the frame's [`ClipTree`].
#[derive(Debug, Clone, Copy, PartialEq, Eq, Structural)]
pub struct ClipIndex(pub usize);

/// What a clip answers to besides itself.
#[derive(Debug, Clone, Copy, PartialEq, Eq, Structural)]
pub enum Under {
    /// Whatever clip is in effect where this one is placed, if any.
    Inherited(Option<ClipIndex>),
    /// Nothing, on any frame.
    Nothing,
}

/// What a cached subtree's clip sits under.
#[derive(Debug, Clone, Copy, PartialEq, Eq, Structural)]
pub enum CachedParent {
    /// Another clip of the same subtree, at this offset into its run.
    Within(usize),
    /// Whatever clip the subtree finds itself under when it is replayed.
    Inherited,
    /// Nothing, on this frame or any other.
    Nothing,
}

/// One placed clip: the caller's record of it, and what it is under.
pub struct Placed<P> {
    pub clip: P,
    pub under: Under,
}

/// A clip a cached subtree placed, kept so a replay can place it again.
pub struct CachedClip<P> {
    pub clip: P,
    pub parent: CachedParent,
}

/// A link is sound at position `at` when any parent it names comes before.
pub open spec fn link_sound(under: Under, at: int) -> bool {
    match under {
        Under::Inherited(Some(p)) => p.0 < at,
        _ => true,
    }
}

/// Every link of a run of clips is sound.
pub open spec fn links_sound(links: Seq<Under>) -> bool {
    forall|k: int| 0 <= k < links.len() ==> link_sound(#[trigger] links[k], k)
}

/// A link of a clip in the run starting at `mark`, written down relative to
/// the run: a parent inside it becomes an offset, one outside it (or none)
/// becomes whatever the run inherits.
pub open spec fn rebased(under: Under, mark: int) -> CachedParent {
    match under {
        Under::Inherited(Some(p)) => if p.0 >= mark {
            CachedParent::Within((p.0 - mark) as usize)
        } else {
            CachedParent::Inherited
        },
        Under::Inherited(None) => CachedParent::Inherited,
        Under::Nothing => CachedParent::Nothing,
    }
}

/// A written-down link read back for a run placed at `start`, under
/// `inherited`.
pub open spec fn restored(parent: CachedParent, start: int, inherited: Option<ClipIndex>) -> Under {
    match parent {
        CachedParent::Within(offset) => Under::Inherited(Some(ClipIndex((start + offset) as usize))),
        CachedParent::Inherited => Under::Inherited(inherited),
        CachedParent::Nothing => Under::Nothing,
    }
}

/// The links of a run written down, as [`ClipTree::since`] does.
pub open spec fn since_links(links: Seq<Under>, mark: int) -> Seq<CachedParent> {
    Seq::new((links.len() - mark) as nat, |k: int| rebased(links[mark + k], mark))
}

/// The links a written-down run is placed with, as [`ClipTree::replay`]
/// does.
pub open spec fn replay_links(parents: Seq<CachedParent>, start: int, inherited: Option<ClipIndex>) -> Seq<Under> {
    Seq::new(parents.len(), |k: int| restored(parents[k], start, inherited))
}

/// A written-down run can be placed at `start` under `inherited`: an offset
/// names a clip before it in the run, and an inherited parent one before
/// the run.
pub open spec fn replayable(parents: Seq<CachedParent>, start: int, inherited: Option<ClipIndex>) -> bool {
    &&& forall|k: int|
        0 <= k < parents.len() ==> match #[trigger] parents[k] {
            CachedParent::Within(offset) => offset < k,
            _ => true,
        }
    &&& match inherited {
        Some(p) => p.0 < start,
        None => true,
    }
}

/// The clips one frame placed, in the order flatten met them.
pub struct ClipTree<P> {
    placed: Vec<Placed<P>>,
}

impl<P> ClipTree<P> {
    /// The placed clips, in order.
    pub closed spec fn clips(&self) -> Seq<Placed<P>> {
        self.placed@
    }

    /// What each placed clip is under, in order.
    pub open spec fn links(&self) -> Seq<Under> {
        self.clips().map_values(|c: Placed<P>| c.under)
    }

    pub open spec fn wf(&self) -> bool {
        links_sound(self.links())
    }

    /// No clips.
    pub fn new() -> (t: Self)
        ensures
            t.wf(),
            t.clips() == Seq::<Placed<P>>::empty(),
    {
        ClipTree { placed: Vec::new() }
    }

    /// How many clips have been placed, which is where the next subtree's
    /// own clips will start.
    pub fn mark(&self) -> (m: usize)
        ensures
            m == self.clips().len(),
    {
        self.placed.len()
    }

    /// Forget the clips of the frame that has been drawn.
    pub fn clear(&mut self)
        ensures
            final(self).wf(),
            final(self).clips() == Seq::<Placed<P>>::empty(),
    {
        self.placed.clear();
    }

    /// What the clip at `index` is under.
    pub fn under(&self, index: ClipIndex) -> (u: Under)
        requires
            index.0 < self.clips().len(),
        ensures
            u == self.clips()[index.0 as int].under,
    {
        self.placed[index.0].under
    }

    /// The caller's record of the clip at `index`.
    pub fn clip(&self, index: ClipIndex) -> (c: &P)
        requires
            index.0 < self.clips().len(),
        ensures
            *c == self.clips()[index.0 as int].clip,
    {
        &self.placed[index.0].clip
    }

    /// The parent a clip placed under `under` is cut by, if any.
    pub fn parent(under: Under) -> (p: Option<ClipIndex>)
        ensures
            p == (match under {
                Under::Inherited(parent) => parent,
                Under::Nothing => None,
            }),
    {
        match under {
            Under::Inherited(parent) => parent,
            Under::Nothing => None,
        }
    }

    /// Place a clip under `under`; its index is the next one.
    pub fn push(&mut self, clip: P, under: Under) -> (index: ClipIndex)
        requires
            old(self).wf(),
            link_sound(under, old(self).clips().len() as int),
        ensures
            final(self).wf(),
            index.0 == old(self).clips().len(),
            final(self).clips() == old(self).clips().push(Placed { clip, under }),
    {
        let index = ClipIndex(self.placed.len());
        let ghost before = self.placed@;
        self.placed.push(Placed { clip, under });
        proof {
            let links = self.links();
            assert forall|k: int| 0 <= k < links.len() implies link_sound(#[trigger] links[k], k) by {
                if k < before.len() {
                    assert(links[k] == before.map_values(|c: Placed<P>| c.under)[k]);
                }
            }
        }
        index
    }

    /// The clips placed since `mark`, written down so the subtree that
    /// placed them can be replayed somewhere else: a parent inside the run
    /// becomes an offset within it, one outside it (or none) becomes
    /// whatever the subtree inherits when it is put back.
    pub fn since(&self, mark: usize) -> (run: Vec<CachedClip<&P>>)
        requires
            mark <= self.clips().len(),
        ensures
            run@.len() == self.clips().len() - mark,
            forall|k: int| 0 <= k < run@.len() ==> *(#[trigger] run@[k]).clip == self.clips()[mark + k].clip,
            run@.map_values(|c: CachedClip<&P>| c.parent) == since_links(self.links(), mark as int),
    {
        let mut run: Vec<CachedClip<&P>> = Vec::new();
        let mut i = mark;
        while i < self.placed.len()
            invariant
                mark <= i <= self.placed@.len(),
                run@.len() == i - mark,
                forall|k: int| 0 <= k < run@.len() ==> *(#[trigger] run@[k]).clip == self.placed@[mark + k].clip,
                forall|k: int|
                    0 <= k < run@.len() ==> (#[trigger] run@[k]).parent == rebased(
                        self.placed@[mark + k].under,
                        mark as int,
                    ),
            decreases self.placed@.len() - i,
        {
            let placed = &self.placed[i];
            let parent = match placed.under {
                Under::Inherited(Some(ClipIndex(index))) => if index >= mark {
                    CachedParent::Within(index - mark)
                } else {
                    CachedParent::Inherited
                },
                Under::Inherited(None) => CachedParent::Inherited,
                Under::Nothing => CachedParent::Nothing,
            };
            run.push(CachedClip { clip: &placed.clip, parent });
            i = i + 1;
        }
        proof {
            assert(run@.map_values(|c: CachedClip<&P>| c.parent) =~= since_links(self.links(), mark as int));
        }
        run
    }

    /// Place the clips a cached subtree carries, where the subtree now is:
    /// one under another clip of the run hangs from that clip's new place,
    /// one that inherited hangs from `inherited`, and one under nothing
    /// stays so.
    pub fn replay(&mut self, clips: Vec<CachedClip<P>>, inherited: Option<ClipIndex>)
        requires
            old(self).wf(),
            replayable(clips@.map_values(|c: CachedClip<P>| c.parent), old(self).clips().len() as int, inherited),
            old(self).clips().len() + clips@.len() <= usize::MAX,
        ensures
            final(self).wf(),
            final(self).clips().len() == old(self).clips().len() + clips@.len(),
            final(self).clips().subrange(0, old(self).clips().len() as int) == old(self).clips(),
            forall|k: int|
                0 <= k < clips@.len() ==> final(self).clips()[old(self).clips().len() + k].clip == (
                #[trigger] clips@[k]).clip,
            final(self).links().subrange(old(self).clips().len() as int, final(self).clips().len() as int)
                == replay_links(
                clips@.map_values(|c: CachedClip<P>| c.parent),
                old(self).clips().len() as int,
                inherited,
            ),
    {
        let ghost parents = clips@.map_values(|c: CachedClip<P>| c.parent);
        let ghost before = self.placed@;
        let ghost all = clips@;
        let start = self.placed.len();
        let mut clips = clips;
        let mut k: usize = 0;
        while clips.len() > 0
            invariant
                start == before.len(),
                start + all.len() <= usize::MAX,
                k + clips@.len() == all.len(),
                clips@ == all.subrange(k as int, all.len() as int),
                parents == all.map_values(|c: CachedClip<P>| c.parent),
                replayable(parents, start as int, inherited),
                self.placed@.len() == start + k,
                self.placed@.subrange(0, start as int) == before,
                forall|j: int| 0 <= j < k ==> self.placed@[start + j].clip == (#[trigger] all[j]).clip,
                forall|j: int|
                    0 <= j < k ==> #[trigger] self.placed@[start + j].under == restored(
                        parents[j],
                        start as int,
                        inherited,
                    ),
                links_sound(self.placed@.map_values(|c: Placed<P>| c.under)),
            decreases clips@.len(),
        {
            let ghost prev = self.placed@;
            let ghost rest = clips@;
            let clip = clips.remove(0);
            proof {
                assert(rest[0] == all[k as int]);
                assert(clips@ =~= all.subrange(k + 1, all.len() as int));
                assert(parents[k as int] == all[k as int].parent);
            }
            let under = match clip.parent {
                CachedParent::Within(offset) => Under::Inherited(Some(ClipIndex(start + offset))),
                CachedParent::Inherited => Under::Inherited(inherited),
                CachedParent::Nothing => Under::Nothing,
            };
            self.placed.push(Placed { clip: clip.clip, under });
            proof {
                let links = self.placed@.map_values(|c: Placed<P>| c.under);
                assert(link_sound(under, (start + k) as int));
                assert forall|j: int| 0 <= j < links.len() implies link_sound(#[trigger] links[j], j) by {
                    if j < prev.len() {
                        assert(links[j] == prev.map_values(|c: Placed<P>| c.under)[j]);
                    }
                }
                assert(self.placed@.subrange(0, start as int) =~= prev.subrange(0, start as int));
                assert forall|j: int| 0 <= j < k + 1 implies self.placed@[start + j].clip == (
                #[trigger] all[j]).clip by {
                    if j < k {
                        assert(self.placed@[start + j] == prev[start + j]);
                    }
                }
                assert forall|j: int| 0 <= j < k + 1 implies #[trigger] self.placed@[start + j].under == restored(
                    parents[j],
                    start as int,
                    inherited,
                ) by {
                    if j < k {
                        assert(self.placed@[start + j] == prev[start + j]);
                    }
                }
            }
            k = k + 1;
        }
        proof {
            assert(self.links().subrange(start as int, self.clips().len() as int) =~= replay_links(
                parents,
                start as int,
                inherited,
            ));
        }
    }
}

/// The clip a command of a cached run is written down with: the clip the
/// run inherited becomes `None`, "whatever is above me when I am put back",
/// so a replayed command is not cut by a clip it no longer sits under; any
/// other clip, one the run placed itself, is kept.
pub open spec fn written_clip(clip: Option<ClipIndex>, inherited: Option<ClipIndex>) -> Option<ClipIndex> {
    if clip.is_some() && clip == inherited {
        None
    } else {
        clip
    }
}

/// Write down the clips of a cached run's commands, in order, as
/// [`written_clip`] does each one.
pub fn forget_inherited_clip(clips: &Vec<Option<ClipIndex>>, inherited: Option<ClipIndex>) -> (r: Vec<
    Option<ClipIndex>,
>)
    ensures
        r@ == clips@.map_values(|c: Option<ClipIndex>| written_clip(c, inherited)),
{
    let mut out: Vec<Option<ClipIndex>> = Vec::new();
    let mut i: usize = 0;
    while i < clips.len()
        invariant
            i <= clips@.len(),
            out@.len() == i,
            forall|j: int| 0 <= j < i ==> out@[j] == written_clip(clips@[j], inherited),
        decreases clips@.len() - i,
    {
        let c = clips[i];
        let w = match (c, inherited) {
            (Some(ClipIndex(a)), Some(ClipIndex(b))) => if a == b {
                None
            } else {
                c
            },
            _ => c,
        };
        out.push(w);
        i = i + 1;
    }
    proof {
        assert(out@ =~= clips@.map_values(|c: Option<ClipIndex>| written_clip(c, inherited)));
    }
    out
}

/// Replaying is the inverse of writing down: a run written down at `mark`
/// and put back at the same place, under the clip every parent outside the
/// run named (or under none, if none did), hangs every clip exactly where it
/// hung before.
pub proof fn law_replay_inverts_since(links: Seq<Under>, mark: int, inherited: Option<ClipIndex>)
    requires
        links_sound(links),
        0 <= mark <= links.len(),
        match inherited {
            Some(p) => p.0 < mark,
            None => true,
        },
        forall|k: int|
            mark <= k < links.len() ==> match #[trigger] links[k] {
                Under::Inherited(Some(p)) => p.0 < mark ==> inherited == Some(p),
                Under::Inherited(None) => inherited.is_none(),
                Under::Nothing => true,
            },
    ensures
        replayable(since_links(links, mark), mark, inherited),
        replay_links(since_links(links, mark), mark, inherited) == links.subrange(mark, links.len() as int),
{
    let run = since_links(links, mark);
    assert forall|k: int| 0 <= k < run.len() implies match #[trigger] run[k] {
        CachedParent::Within(offset) => offset < k,
        _ => true,
    } by {
        assert(link_sound(links[mark + k], mark + k));
    }
    assert(replay_links(run, mark, inherited) =~= links.subrange(mark, links.len() as int));
}

} // verus!
