//! Draw groups: the ordering of flattened draw commands into groups that
//! batch by layer without reordering what overlaps.

use vstd::prelude::*;

verus! {

/// Render layer for draw command ordering, lowest first.
#[derive(Debug, Clone, Copy, PartialEq, Eq, PartialOrd, Ord, Structural)]
pub enum RenderLayer {
    /// Backdrop effects, which filter what is already on the target.
    Backdrop,
    /// Background shapes (filled rectangles, borders, etc.)
    Shapes,
    /// Image content (after shapes, before text)
    Images,
    /// Text content
    Text,
    /// Overlay effects (ripples, highlights)
    Overlay,
}

impl RenderLayer {
    /// The layer's place in draw order: backdrop 0 up to overlay 4.
    pub open spec fn rank(self) -> nat {
        match self {
            RenderLayer::Backdrop => 0,
            RenderLayer::Shapes => 1,
            RenderLayer::Images => 2,
            RenderLayer::Text => 3,
            RenderLayer::Overlay => 4,
        }
    }

    /// The layer's place in draw order.
    pub fn index(self) -> (i: usize)
        ensures
            i == self.rank(),
    {
        match self {
            RenderLayer::Backdrop => 0,
            RenderLayer::Shapes => 1,
            RenderLayer::Images => 2,
            RenderLayer::Text => 3,
            RenderLayer::Overlay => 4,
        }
    }
}

impl Default for RenderLayer {
    fn default() -> (l: RenderLayer)
        ensures
            l == RenderLayer::Backdrop,
    {
        RenderLayer::Backdrop
    }
}

/// Where one group's commands landed in the flat command buffer, bucket by
/// bucket, drawn in field order.
#[derive(Debug)]
pub struct CommandLayer {
    /// Backdrop effects applied to the target before this group draws.
    pub backdrop: std::ops::Range<usize>,
    pub shapes: std::ops::Range<usize>,
    pub images: std::ops::Range<usize>,
    pub text: std::ops::Range<usize>,
    pub overlay: std::ops::Range<usize>,
}

/// A range holds nothing when it does not run forwards.
pub open spec fn range_empty(r: std::ops::Range<usize>) -> bool {
    r.start >= r.end
}

impl CommandLayer {
    /// Whether the group draws nothing at all.
    pub open spec fn is_empty_spec(&self) -> bool {
        range_empty(self.backdrop) && range_empty(self.shapes) && range_empty(self.images)
            && range_empty(self.text) && range_empty(self.overlay)
    }

    /// Whether the group draws nothing at all.
    pub fn is_empty(&self) -> (b: bool)
        ensures
            b == self.is_empty_spec(),
    {
        self.backdrop.start >= self.backdrop.end && self.shapes.start >= self.shapes.end
            && self.images.start >= self.images.end && self.text.start >= self.text.end
            && self.overlay.start >= self.overlay.end
    }
}

impl Default for CommandLayer {
    fn default() -> (l: CommandLayer)
        ensures
            l.backdrop.start == 0 && l.backdrop.end == 0,
            l.shapes.start == 0 && l.shapes.end == 0,
            l.images.start == 0 && l.images.end == 0,
            l.text.start == 0 && l.text.end == 0,
            l.overlay.start == 0 && l.overlay.end == 0,
    {
        CommandLayer { backdrop: 0..0, shapes: 0..0, images: 0..0, text: 0..0, overlay: 0..0 }
    }
}

/// The kind of a draw command, as far as its layer depends on it.
#[derive(Debug, Clone, Copy, PartialEq, Eq, Structural)]
pub enum CommandKind {
    Text,
    Image,
    /// A backdrop blur, and whether this renderer draws it (its sources
    /// include the surface) rather than leaving it to the compositor alone.
    BackdropBlur { drawn_here: bool },
    /// A blur behind the letters of a text.
    TextBackdropBlur,
    /// A declaration of where input reaches the surface; it draws nothing.
    InputRegion,
    /// Any other shape.
    Shape,
}

/// The layer a node's own command is drawn in. Only a backdrop effect this
/// renderer draws goes to the backdrop layer, which opens a group and breaks
/// the render pass; a blur left to the compositor and an input declaration
/// draw nothing here and travel with the shapes.
pub fn command_layer(kind: CommandKind) -> (l: RenderLayer)
    ensures
        l == (match kind {
            CommandKind::Text => RenderLayer::Text,
            CommandKind::Image => RenderLayer::Images,
            CommandKind::BackdropBlur { drawn_here } => if drawn_here {
                RenderLayer::Backdrop
            } else {
                RenderLayer::Shapes
            },
            CommandKind::TextBackdropBlur => RenderLayer::Backdrop,
            CommandKind::InputRegion => RenderLayer::Shapes,
            CommandKind::Shape => RenderLayer::Shapes,
        }),
{
    match kind {
        CommandKind::Text => RenderLayer::Text,
        CommandKind::Image => RenderLayer::Images,
        CommandKind::BackdropBlur { drawn_here } => if drawn_here {
            RenderLayer::Backdrop
        } else {
            RenderLayer::Shapes
        },
        CommandKind::TextBackdropBlur => RenderLayer::Backdrop,
        CommandKind::InputRegion => RenderLayer::Shapes,
        CommandKind::Shape => RenderLayer::Shapes,
    }
}

/// Whether any group of a frame has a backdrop effect to run, which is what
/// decides that the frame needs the offscreen targets.
pub fn frame_uses_backdrop(layers: &Vec<CommandLayer>) -> (b: bool)
    ensures
        b == exists|i: int| 0 <= i < layers@.len() && !range_empty(#[trigger] layers@[i].backdrop),
{
    let mut i: usize = 0;
    while i < layers.len()
        invariant
            i <= layers@.len(),
            forall|j: int| 0 <= j < i ==> range_empty(#[trigger] layers@[j].backdrop),
        decreases layers@.len() - i,
    {
        if layers[i].backdrop.start < layers[i].backdrop.end {
            return true;
        }
        i = i + 1;
    }
    false
}

/// What a frame carries that becomes a `wl_region`.
#[derive(Debug, Clone, Copy, PartialEq, Eq, Structural)]
pub struct RegionsCarried {
    /// A backdrop blur the compositor is asked to apply.
    pub compositor_blur: bool,
    /// A declaration about where input reaches the surface.
    pub input_region: bool,
}

impl Default for RegionsCarried {
    fn default() -> (r: RegionsCarried)
        ensures
            r == (RegionsCarried { compositor_blur: false, input_region: false }),
    {
        RegionsCarried { compositor_blur: false, input_region: false }
    }
}

/// One draw group as a value: its five buckets of commands, by layer rank,
/// and the highest layer it holds.
pub struct GroupModel<C> {
    pub buckets: Seq<Seq<C>>,
    pub high_water: RenderLayer,
}

/// The commands of a group from the given position of each bucket on, in
/// draw order: bucket by bucket, backdrop first.
pub open spec fn group_tail<C>(g: GroupModel<C>, from: Seq<int>) -> Seq<C> {
    g.buckets[0].subrange(from[0], g.buckets[0].len() as int) + g.buckets[1].subrange(
        from[1],
        g.buckets[1].len() as int,
    ) + g.buckets[2].subrange(from[2], g.buckets[2].len() as int) + g.buckets[3].subrange(
        from[3],
        g.buckets[3].len() as int,
    ) + g.buckets[4].subrange(from[4], g.buckets[4].len() as int)
}

/// Every command of a group, in draw order.
pub open spec fn draw_order<C>(g: GroupModel<C>) -> Seq<C> {
    g.buckets[0] + g.buckets[1] + g.buckets[2] + g.buckets[3] + g.buckets[4]
}

/// Every command of the groups, group after group, in draw order.
pub open spec fn groups_order<C>(groups: Seq<GroupModel<C>>) -> Seq<C>
    decreases groups.len(),
{
    if groups.len() == 0 {
        Seq::empty()
    } else {
        groups_order(groups.drop_last()) + draw_order(groups.last())
    }
}

/// A group is well formed when it has its five buckets.
pub open spec fn group_wf<C>(g: GroupModel<C>) -> bool {
    g.buckets.len() == 5
}

/// The group a command opens: its high-water mark the command's layer, and
/// the command in its bucket.
pub open spec fn opened_group<C>(cmd: C, layer: RenderLayer) -> GroupModel<C> {
    GroupModel {
        buckets: Seq::new(5, |b: int| if b == layer.rank() { seq![cmd] } else { Seq::empty() }),
        high_water: layer,
    }
}

/// The higher of two layers.
pub open spec fn higher(a: RenderLayer, b: RenderLayer) -> RenderLayer {
    if a.rank() >= b.rank() {
        a
    } else {
        b
    }
}

/// A group with the command added to its layer's bucket; the high-water
/// mark rises to the layer if it was below.
pub open spec fn joined_group<C>(g: GroupModel<C>, cmd: C, layer: RenderLayer) -> GroupModel<C> {
    GroupModel {
        buckets: g.buckets.update(layer.rank() as int, g.buckets[layer.rank() as int].push(cmd)),
        high_water: higher(g.high_water, layer),
    }
}

/// Whether a command opens a group: its layer is below the current group's
/// high-water mark, and it meets something already drawn above it.
pub open spec fn opens_group<C>(groups: Seq<GroupModel<C>>, layer: RenderLayer, covered_above: bool) -> bool {
    layer.rank() < groups.last().high_water.rank() && covered_above
}

/// The groups after a command is pushed.
pub open spec fn after_push<C>(
    groups: Seq<GroupModel<C>>,
    cmd: C,
    layer: RenderLayer,
    covered_above: bool,
) -> Seq<GroupModel<C>> {
    if opens_group(groups, layer, covered_above) {
        groups.push(opened_group(cmd, layer))
    } else {
        groups.update(groups.len() - 1, joined_group(groups.last(), cmd, layer))
    }
}

/// A position in the groups: how many there were, and the bucket lengths of
/// the last, the only one that can still grow.
#[derive(Debug, Clone, Copy)]
pub struct Mark {
    pub groups: usize,
    pub buckets: [usize; 5],
}

/// A mark is valid for groups it could have been taken from: there are at
/// least as many groups, and the group that was last holds at least as much.
pub open spec fn mark_valid<C>(groups: Seq<GroupModel<C>>, mark: Mark) -> bool {
    &&& 1 <= mark.groups <= groups.len()
    &&& forall|b: int|
        0 <= b < 5 ==> mark.buckets@[b] <= groups[mark.groups - 1].buckets[b].len()
}

/// Every command added since a mark, in draw order.
pub open spec fn since_mark<C>(groups: Seq<GroupModel<C>>, mark: Mark) -> Seq<C> {
    group_tail(groups[mark.groups - 1], Seq::new(5, |b: int| mark.buckets@[b] as int))
        + groups_order(groups.subrange(mark.groups as int, groups.len() as int))
}

/// The buckets before `b`, each from its position in `from` on.
pub open spec fn buckets_from<C>(g: GroupModel<C>, from: Seq<int>, b: int) -> Seq<C>
    decreases b,
{
    if b <= 0 {
        Seq::empty()
    } else {
        buckets_from(g, from, b - 1) + g.buckets[b - 1].subrange(
            from[b - 1],
            g.buckets[b - 1].len() as int,
        )
    }
}

proof fn lemma_group_tail_is_buckets_from<C>(g: GroupModel<C>, from: Seq<int>)
    ensures
        group_tail(g, from) == buckets_from(g, from, 5),
{
    reveal_with_fuel(buckets_from, 6);
    assert(buckets_from(g, from, 0) =~= Seq::<C>::empty());
    assert(group_tail(g, from) =~= buckets_from(g, from, 5));
}

/// The commands a list of references points at.
pub open spec fn derefs<C>(s: Seq<&C>) -> Seq<C> {
    s.map_values(|r: &C| *r)
}

/// A range of the flat buffer.
pub open spec fn span(start: int, end: int) -> std::ops::Range<usize> {
    std::ops::Range { start: start as usize, end: end as usize }
}

/// Where a group's buckets land when its commands start at `at`.
pub open spec fn group_ranges<C>(g: GroupModel<C>, at: int) -> CommandLayer {
    let b0 = at + g.buckets[0].len();
    let b1 = b0 + g.buckets[1].len();
    let b2 = b1 + g.buckets[2].len();
    let b3 = b2 + g.buckets[3].len();
    let b4 = b3 + g.buckets[4].len();
    CommandLayer {
        backdrop: span(at, b0),
        shapes: span(b0, b1),
        images: span(b1, b2),
        text: span(b2, b3),
        overlay: span(b3, b4),
    }
}

/// The ranges of the groups that draw anything, when the groups' commands
/// start at `at`.
pub open spec fn layers_of<C>(groups: Seq<GroupModel<C>>, at: int) -> Seq<CommandLayer>
    decreases groups.len(),
{
    if groups.len() == 0 {
        Seq::empty()
    } else {
        let prev = layers_of(groups.drop_last(), at);
        let start = at + groups_order(groups.drop_last()).len();
        if draw_order(groups.last()).len() == 0 {
            prev
        } else {
            prev.push(group_ranges(groups.last(), start))
        }
    }
}

/// The five buckets of one draw group.
pub struct LayerBuckets<C> {
    backdrop: Vec<C>,
    shapes: Vec<C>,
    images: Vec<C>,
    text: Vec<C>,
    overlay: Vec<C>,
    high_water: RenderLayer,
}

impl<C> LayerBuckets<C> {
    pub closed spec fn view(&self) -> GroupModel<C> {
        GroupModel {
            buckets: seq![self.backdrop@, self.shapes@, self.images@, self.text@, self.overlay@],
            high_water: self.high_water,
        }
    }

    fn new(high_water: RenderLayer) -> (g: LayerBuckets<C>)
        ensures
            g.view().high_water == high_water,
            g.view().buckets =~= Seq::new(5, |b: int| Seq::<C>::empty()),
    {
        LayerBuckets {
            backdrop: Vec::new(),
            shapes: Vec::new(),
            images: Vec::new(),
            text: Vec::new(),
            overlay: Vec::new(),
            high_water,
        }
    }

    fn push_cmd(&mut self, layer: RenderLayer, cmd: C)
        ensures
            final(self).view() == joined_group(old(self).view(), cmd, layer),
    {
        match layer {
            RenderLayer::Backdrop => self.backdrop.push(cmd),
            RenderLayer::Shapes => self.shapes.push(cmd),
            RenderLayer::Images => self.images.push(cmd),
            RenderLayer::Text => self.text.push(cmd),
            RenderLayer::Overlay => self.overlay.push(cmd),
        }
        if self.high_water.index() < layer.index() {
            self.high_water = layer;
        }
        proof {
            assert(self.view().buckets =~= old(self).view().buckets.update(
                layer.rank() as int,
                old(self).view().buckets[layer.rank() as int].push(cmd),
            ));
        }
    }

    /// Add a command that draws nothing to its layer's bucket, leaving the
    /// high-water mark where it is.
    fn push_inert(&mut self, layer: RenderLayer, cmd: C)
        ensures
            final(self).view().buckets == old(self).view().buckets.update(
                layer.rank() as int,
                old(self).view().buckets[layer.rank() as int].push(cmd),
            ),
            final(self).view().high_water == old(self).view().high_water,
    {
        match layer {
            RenderLayer::Backdrop => self.backdrop.push(cmd),
            RenderLayer::Shapes => self.shapes.push(cmd),
            RenderLayer::Images => self.images.push(cmd),
            RenderLayer::Text => self.text.push(cmd),
            RenderLayer::Overlay => self.overlay.push(cmd),
        }
        proof {
            assert(self.view().buckets =~= old(self).view().buckets.update(
                layer.rank() as int,
                old(self).view().buckets[layer.rank() as int].push(cmd),
            ));
        }
    }

    fn bucket(&self, b: usize) -> (r: &Vec<C>)
        requires
            b < 5,
        ensures
            r@ == self.view().buckets[b as int],
    {
        match b {
            0 => &self.backdrop,
            1 => &self.shapes,
            2 => &self.images,
            3 => &self.text,
            _ => &self.overlay,
        }
    }
}

/// Draw commands grouped so that batching never reorders drawing.
///
/// Each group buckets its commands by layer, and a group is drawn bucket by
/// bucket. A command whose layer is below what the current group already
/// holds, and which meets something drawn above it there, opens a new
/// group; the groups are drawn in order. Whether a command meets anything is
/// the caller's question to answer (it is geometry); which group it lands
/// in, and where, is decided here.
pub struct LayeredCommands<C> {
    groups: Vec<LayerBuckets<C>>,
    carried: RegionsCarried,
}

impl<C> LayeredCommands<C> {
    /// The groups, in draw order.
    pub closed spec fn groups(&self) -> Seq<GroupModel<C>> {
        Seq::new(self.groups@.len(), |i: int| self.groups@[i].view())
    }

    /// What the frame carries for the compositor, so far.
    pub closed spec fn carried_spec(&self) -> RegionsCarried {
        self.carried
    }

    /// There is always a current group.
    pub closed spec fn wf(&self) -> bool {
        self.groups@.len() >= 1
    }

    /// One empty group, and nothing carried.
    pub fn new() -> (l: LayeredCommands<C>)
        ensures
            l.wf(),
            l.groups().len() == 1,
            l.groups()[0].high_water == RenderLayer::Backdrop,
            l.groups()[0].buckets == Seq::new(5, |b: int| Seq::<C>::empty()),
            l.carried_spec() == (RegionsCarried { compositor_blur: false, input_region: false }),
    {
        let mut groups = Vec::new();
        groups.push(LayerBuckets::new(RenderLayer::Backdrop));
        let l = LayeredCommands { groups, carried: RegionsCarried::default() };
        proof {
            assert(l.groups()[0].buckets =~= Seq::new(5, |b: int| Seq::<C>::empty()));
        }
        l
    }

    /// Whether a command of `layer` would be below the current group's
    /// high-water mark, the only case where its overlap is asked about.
    pub fn regresses(&self, layer: RenderLayer) -> (b: bool)
        requires
            self.wf(),
        ensures
            b == (layer.rank() < self.groups().last().high_water.rank()),
    {
        let n = self.groups.len();
        layer.index() < self.groups[n - 1].high_water.index()
    }

    /// Add a drawing command of `layer`. `covered_above` says whether its
    /// bounds meet anything already drawn above `layer` in the current group
    /// (unbounded counts as meeting everything). Returns whether it opened a
    /// group.
    pub fn push(&mut self, cmd: C, layer: RenderLayer, covered_above: bool) -> (opened: bool)
        requires
            old(self).wf(),
        ensures
            final(self).wf(),
            opened == opens_group(old(self).groups(), layer, covered_above),
            final(self).groups() == after_push(old(self).groups(), cmd, layer, covered_above),
            final(self).carried_spec() == old(self).carried_spec(),
    {
        let ghost before = self.groups();
        let n = self.groups.len();
        if layer.index() < self.groups[n - 1].high_water.index() && covered_above {
            let mut g = LayerBuckets::new(layer);
            g.push_cmd(layer, cmd);
            self.groups.push(g);
            proof {
                assert(self.groups()[n as int].buckets =~= opened_group(cmd, layer).buckets);
                assert(self.groups() =~= before.push(opened_group(cmd, layer)));
            }
            true
        } else {
            let mut g = self.groups.pop().unwrap();
            g.push_cmd(layer, cmd);
            self.groups.push(g);
            proof {
                assert(self.groups() =~= before.update(
                    before.len() - 1,
                    joined_group(before.last(), cmd, layer),
                ));
            }
            false
        }
    }

    /// Add a command that draws nothing (an input region declaration): it
    /// travels with the frame in the current group, costs no group and
    /// raises no mark, and the frame is marked as carrying one.
    pub fn push_input_declaration(&mut self, cmd: C, layer: RenderLayer)
        requires
            old(self).wf(),
        ensures
            final(self).wf(),
            final(self).groups() == old(self).groups().update(
                old(self).groups().len() - 1,
                GroupModel {
                    buckets: old(self).groups().last().buckets.update(
                        layer.rank() as int,
                        old(self).groups().last().buckets[layer.rank() as int].push(cmd),
                    ),
                    high_water: old(self).groups().last().high_water,
                },
            ),
            final(self).carried_spec() == (RegionsCarried {
                input_region: true,
                ..old(self).carried_spec()
            }),
    {
        let ghost before = self.groups();
        self.carried.input_region = true;
        let mut g = self.groups.pop().unwrap();
        g.push_inert(layer, cmd);
        self.groups.push(g);
        proof {
            assert(self.groups() =~= before.update(
                before.len() - 1,
                GroupModel {
                    buckets: before.last().buckets.update(
                        layer.rank() as int,
                        before.last().buckets[layer.rank() as int].push(cmd),
                    ),
                    high_water: before.last().high_water,
                },
            ));
        }
    }

    /// Mark the frame as carrying a blur the compositor applies.
    pub fn note_compositor_blur(&mut self)
        ensures
            final(self).groups() == old(self).groups(),
            final(self).wf() == old(self).wf(),
            final(self).carried_spec() == (RegionsCarried {
                compositor_blur: true,
                ..old(self).carried_spec()
            }),
    {
        self.carried.compositor_blur = true;
    }

    /// What the frame carries for the compositor.
    pub fn carried(&self) -> (r: RegionsCarried)
        ensures
            r == self.carried_spec(),
    {
        self.carried
    }

    /// Where the buffers stand, so a subtree's own output can be picked out
    /// again afterwards: the number of groups, and the bucket lengths of the
    /// last one.
    pub fn mark(&self) -> (m: Mark)
        requires
            self.wf(),
        ensures
            m.groups == self.groups().len(),
            forall|b: int| 0 <= b < 5 ==> m.buckets@[b] == self.groups().last().buckets[b].len(),
            mark_valid(self.groups(), m),
    {
        let n = self.groups.len();
        let last = &self.groups[n - 1];
        Mark {
            groups: n,
            buckets: [
                last.backdrop.len(),
                last.shapes.len(),
                last.images.len(),
                last.text.len(),
                last.overlay.len(),
            ],
        }
    }

    /// Every command added since `mark`, in draw order. Replaying these
    /// through [`push`](Self::push) is how a cached subtree is put back.
    pub fn commands_since(&self, mark: Mark) -> (r: Vec<&C>)
        requires
            self.wf(),
            mark_valid(self.groups(), mark),
        ensures
            derefs(r@) == since_mark(self.groups(), mark),
    {
        let ghost gs = self.groups();
        let mut out: Vec<&C> = Vec::new();
        let first = mark.groups - 1;
        extend_from_group(&mut out, &self.groups[first], mark.buckets);
        proof {
            assert(derefs(out@) =~= group_tail(gs[first as int], Seq::new(5, |b: int| mark.buckets@[b] as int))
                + groups_order(gs.subrange(mark.groups as int, mark.groups as int))) by {
                assert(gs.subrange(mark.groups as int, mark.groups as int) =~= Seq::<GroupModel<C>>::empty());
                assert(derefs(Seq::<&C>::empty()) =~= Seq::<C>::empty());
            }
        }
        let mut g = mark.groups;
        while g < self.groups.len()
            invariant
                gs == self.groups(),
                mark_valid(gs, mark),
                mark.groups <= g <= gs.len(),
                derefs(out@) == group_tail(gs[mark.groups - 1], Seq::new(5, |b: int| mark.buckets@[b] as int))
                    + groups_order(gs.subrange(mark.groups as int, g as int)),
            decreases gs.len() - g,
        {
            let ghost before = derefs(out@);
            extend_from_group(&mut out, &self.groups[g], [0, 0, 0, 0, 0]);
            proof {
                let zeros = Seq::new(5, |b: int| [0usize, 0, 0, 0, 0]@[b] as int);
                assert(group_tail(gs[g as int], zeros) =~= draw_order(gs[g as int]));
                let sub = gs.subrange(mark.groups as int, g + 1);
                assert(sub.drop_last() =~= gs.subrange(mark.groups as int, g as int));
                assert(sub.last() == gs[g as int]);
            }
            g = g + 1;
        }
        out
    }

    /// Flatten the groups into one buffer in draw order, recording where each
    /// group's buckets landed. A group that draws nothing gets no entry.
    pub fn drain_into(self, out: &mut Vec<C>, layers: &mut Vec<CommandLayer>)
        requires
            self.wf(),
            old(out)@.len() + groups_order(self.groups()).len() <= usize::MAX,
        ensures
            final(out)@ == old(out)@ + groups_order(self.groups()),
            final(layers)@ == old(layers)@ + layers_of(self.groups(), old(out)@.len() as int),
    {
        let ghost gs = self.groups();
        let ghost out0 = out@;
        let ghost layers0 = layers@;
        let mut groups = self.groups;
        let ghost n = gs.len();
        let ghost mut i: int = 0;
        proof {
            assert(gs.subrange(0, 0) =~= Seq::<GroupModel<C>>::empty());
            assert(out@ =~= out0 + groups_order(gs.subrange(0, 0)));
            assert(layers@ =~= layers0 + layers_of(gs.subrange(0, 0), out0.len() as int));
        }
        while groups.len() > 0
            invariant
                0 <= i <= n,
                n == gs.len(),
                groups@.len() == n - i,
                forall|j: int| 0 <= j < n - i ==> groups@[j].view() == gs[i + j],
                out@ == out0 + groups_order(gs.subrange(0, i)),
                layers@ == layers0 + layers_of(gs.subrange(0, i), out0.len() as int),
                out0.len() + groups_order(gs).len() <= usize::MAX,
            decreases groups@.len(),
        {
            let g = groups.remove(0);
            let ghost gv = g.view();
            proof {
                assert(gv == gs[i]);
                lemma_groups_order_prefix(gs, i + 1);
            }
            let LayerBuckets { mut backdrop, mut shapes, mut images, mut text, mut overlay, high_water: _ } = g;
            let s0 = out.len();
            out.append(&mut backdrop);
            let s1 = out.len();
            out.append(&mut shapes);
            let s2 = out.len();
            out.append(&mut images);
            let s3 = out.len();
            out.append(&mut text);
            let s4 = out.len();
            out.append(&mut overlay);
            let s5 = out.len();
            let layer = CommandLayer {
                backdrop: s0..s1,
                shapes: s1..s2,
                images: s2..s3,
                text: s3..s4,
                overlay: s4..s5,
            };
            let ghost prev = gs.subrange(0, i);
            proof {
                let sub = gs.subrange(0, i + 1);
                assert(sub.drop_last() =~= prev);
                assert(sub.last() == gv);
                assert(s0 == out0.len() + groups_order(prev).len());
                assert(layer == group_ranges(gv, s0 as int));
            }
            if !layer.is_empty() {
                layers.push(layer);
            }
            proof {
                let sub = gs.subrange(0, i + 1);
                assert(out@ =~= out0 + groups_order(sub));
                assert(layers@ =~= layers0 + layers_of(sub, out0.len() as int));
                i = i + 1;
            }
        }
        proof {
            assert(gs.subrange(0, n as int) =~= gs);
        }
    }
}

/// A prefix of the groups draws no more than all of them.
proof fn lemma_groups_order_prefix<C>(gs: Seq<GroupModel<C>>, i: int)
    requires
        0 <= i <= gs.len(),
    ensures
        groups_order(gs.subrange(0, i)).len() <= groups_order(gs).len(),
    decreases gs.len() - i,
{
    if i < gs.len() {
        lemma_groups_order_prefix(gs, i + 1);
        let sub = gs.subrange(0, i + 1);
        assert(sub.drop_last() =~= gs.subrange(0, i));
    } else {
        assert(gs.subrange(0, i) =~= gs);
    }
}

/// Append the commands of `group` from `from` on, in draw order.
fn extend_from_group<'a, C>(out: &mut Vec<&'a C>, group: &'a LayerBuckets<C>, from: [usize; 5])
    requires
        forall|b: int| 0 <= b < 5 ==> from@[b] <= group.view().buckets[b].len(),
    ensures
        derefs(final(out)@) == derefs(old(out)@) + group_tail(
            group.view(),
            Seq::new(5, |b: int| from@[b] as int),
        ),
{
    let ghost start = derefs(out@);
    let ghost fs = Seq::new(5, |b: int| from@[b] as int);
    let ghost gv = group.view();
    let mut b: usize = 0;
    while b < 5
        invariant
            b <= 5,
            gv == group.view(),
            fs == Seq::new(5, |k: int| from@[k] as int),
            forall|k: int| 0 <= k < 5 ==> from@[k] <= gv.buckets[k].len(),
            derefs(out@) == start + buckets_from(gv, fs, b as int),
        decreases 5 - b,
    {
        let bucket = group.bucket(b);
        let ghost before = derefs(out@);
        let mut k = from[b];
        while k < bucket.len()
            invariant
                from@[b as int] <= k <= bucket@.len(),
                derefs(out@) == before + bucket@.subrange(from@[b as int] as int, k as int),
            decreases bucket@.len() - k,
        {
            let ghost prev = out@;
            out.push(&bucket[k]);
            proof {
                assert(derefs(out@) =~= derefs(prev).push(bucket@[k as int]));
                assert(bucket@.subrange(from@[b as int] as int, k + 1) =~= bucket@.subrange(
                    from@[b as int] as int,
                    k as int,
                ).push(bucket@[k as int]));
            }
            k = k + 1;
        }
        proof {
            assert(derefs(out@) =~= start + buckets_from(gv, fs, b + 1));
        }
        b = b + 1;
    }
    proof {
        lemma_group_tail_is_buckets_from(gv, fs);
    }
}

/// Every group has its five buckets.
pub open spec fn groups_wf<C>(gs: Seq<GroupModel<C>>) -> bool {
    gs.len() >= 1 && forall|i: int| 0 <= i < gs.len() ==> group_wf(#[trigger] gs[i])
}

/// A command at or above the current group's high-water mark never opens a
/// group (ascending layers, and repeats of the current one, stay in one
/// group); nor does one that meets nothing drawn above it.
pub proof fn law_no_split_without_covered_regression<C>(
    gs: Seq<GroupModel<C>>,
    cmd: C,
    layer: RenderLayer,
    covered_above: bool,
)
    requires
        groups_wf(gs),
        layer.rank() >= gs.last().high_water.rank() || !covered_above,
    ensures
        !opens_group(gs, layer, covered_above),
        after_push(gs, cmd, layer, covered_above).len() == gs.len(),
        groups_wf(after_push(gs, cmd, layer, covered_above)),
{
}

/// A regression over something it would cover opens exactly one group, whose
/// mark is the command's layer and which holds only that command; the
/// groups before it are untouched.
pub proof fn law_regression_opens_one_group<C>(gs: Seq<GroupModel<C>>, cmd: C, layer: RenderLayer)
    requires
        groups_wf(gs),
        layer.rank() < gs.last().high_water.rank(),
    ensures
        after_push(gs, cmd, layer, true).len() == gs.len() + 1,
        after_push(gs, cmd, layer, true).subrange(0, gs.len() as int) == gs,
        after_push(gs, cmd, layer, true).last().high_water == layer,
        draw_order(after_push(gs, cmd, layer, true).last()) == seq![cmd],
        groups_wf(after_push(gs, cmd, layer, true)),
{
    let after = after_push(gs, cmd, layer, true);
    assert(after.subrange(0, gs.len() as int) =~= gs);
    let g = opened_group(cmd, layer);
    assert(draw_order(g) =~= seq![cmd]);
}

/// A mark stays valid as commands are pushed after it: groups are only
/// added, and buckets only grow.
pub proof fn law_mark_stays_valid<C>(
    gs: Seq<GroupModel<C>>,
    mark: Mark,
    cmd: C,
    layer: RenderLayer,
    covered_above: bool,
)
    requires
        groups_wf(gs),
        mark_valid(gs, mark),
    ensures
        mark_valid(after_push(gs, cmd, layer, covered_above), mark),
{
    let after = after_push(gs, cmd, layer, covered_above);
    if !opens_group(gs, layer, covered_above) {
        assert forall|b: int| 0 <= b < 5 implies mark.buckets@[b] <= after[mark.groups - 1].buckets[b].len() by {
            if mark.groups - 1 == gs.len() - 1 {
                assert(group_wf(gs[gs.len() - 1]));
            }
        }
    }
}

/// The mark of the groups as they stand.
pub open spec fn mark_of<C>(gs: Seq<GroupModel<C>>) -> Mark {
    Mark {
        groups: gs.len() as usize,
        buckets: [
            gs.last().buckets[0].len() as usize,
            gs.last().buckets[1].len() as usize,
            gs.last().buckets[2].len() as usize,
            gs.last().buckets[3].len() as usize,
            gs.last().buckets[4].len() as usize,
        ],
    }
}

/// What is recorded since a mark taken just now is nothing, and after one
/// more command, exactly that command — whether it joined the current
/// group or opened a new one.
pub proof fn law_since_a_fresh_mark<C>(gs: Seq<GroupModel<C>>, cmd: C, layer: RenderLayer, covered_above: bool)
    requires
        groups_wf(gs),
        gs.len() <= usize::MAX,
        forall|b: int| 0 <= b < 5 ==> gs.last().buckets[b].len() <= usize::MAX,
    ensures
        since_mark(gs, mark_of(gs)) == Seq::<C>::empty(),
        since_mark(after_push(gs, cmd, layer, covered_above), mark_of(gs)) == seq![cmd],
{
    let m = mark_of(gs);
    let n = gs.len() as int;
    assert(group_wf(gs[n - 1]));
    let last = gs[n - 1];
    let from = Seq::new(5, |b: int| m.buckets@[b] as int);
    assert(gs.subrange(n, n) =~= Seq::<GroupModel<C>>::empty());
    assert(group_tail(last, from) =~= Seq::<C>::empty());
    assert(since_mark(gs, m) =~= Seq::<C>::empty());
    let after = after_push(gs, cmd, layer, covered_above);
    if opens_group(gs, layer, covered_above) {
        assert(after[n - 1] == last);
        let rest = after.subrange(n, n + 1);
        assert(rest.drop_last() =~= Seq::<GroupModel<C>>::empty());
        assert(rest.last() == opened_group(cmd, layer));
        assert(draw_order(opened_group(cmd, layer)) =~= seq![cmd]);
        assert(groups_order(rest) =~= seq![cmd]);
        assert(since_mark(after, m) =~= seq![cmd]);
    } else {
        let j = joined_group(last, cmd, layer);
        assert(after[n - 1] == j);
        assert(after.subrange(n, n) =~= Seq::<GroupModel<C>>::empty());
        assert(group_tail(j, from) =~= seq![cmd]);
        assert(since_mark(after, m) =~= seq![cmd]);
    }
}

/// The layer of a given rank.
pub open spec fn layer_of(b: int) -> RenderLayer {
    if b <= 0 {
        RenderLayer::Backdrop
    } else if b == 1 {
        RenderLayer::Shapes
    } else if b == 2 {
        RenderLayer::Images
    } else if b == 3 {
        RenderLayer::Text
    } else {
        RenderLayer::Overlay
    }
}

/// A group with nothing in it yet and the given mark.
pub open spec fn empty_group<C>(high_water: RenderLayer) -> GroupModel<C> {
    GroupModel { buckets: Seq::new(5, |b: int| Seq::<C>::empty()), high_water }
}

/// The groups of a frame before anything is pushed.
pub open spec fn fresh_groups<C>() -> Seq<GroupModel<C>> {
    seq![empty_group(RenderLayer::Backdrop)]
}

/// Push every `(command, layer)` in turn, each one meeting what is above it.
pub open spec fn push_all<C>(gs: Seq<GroupModel<C>>, cmds: Seq<(C, RenderLayer)>) -> Seq<GroupModel<C>>
    decreases cmds.len(),
{
    if cmds.len() == 0 {
        gs
    } else {
        after_push(push_all(gs, cmds.drop_last()), cmds.last().0, cmds.last().1, true)
    }
}

/// Commands paired with a layer.
pub open spec fn tag<C>(s: Seq<C>, l: RenderLayer) -> Seq<(C, RenderLayer)> {
    Seq::new(s.len(), |i: int| (s[i], l))
}

/// The buckets before `b` of a group, each command paired with its
/// bucket's layer, in draw order.
pub open spec fn tagged_prefix<C>(g: GroupModel<C>, b: int) -> Seq<(C, RenderLayer)>
    decreases b,
{
    if b <= 0 {
        Seq::empty()
    } else {
        tagged_prefix(g, b - 1) + tag(g.buckets[b - 1], layer_of(b - 1))
    }
}

/// Every command of the groups paired with its layer, in draw order: what
/// a cached subtree hands back to be pushed again.
pub open spec fn tagged_order<C>(gs: Seq<GroupModel<C>>) -> Seq<(C, RenderLayer)>
    decreases gs.len(),
{
    if gs.len() == 0 {
        Seq::empty()
    } else {
        tagged_order(gs.drop_last()) + tagged_prefix(gs.last(), 5)
    }
}

/// A group's mark is its highest non-empty bucket (or, empty, the given
/// layer).
pub open spec fn mark_is_highest<C>(g: GroupModel<C>, if_empty: RenderLayer) -> bool {
    &&& forall|b: int| 0 <= b < 5 && g.buckets[b].len() > 0 ==> b <= g.high_water.rank()
    &&& (exists|b: int| 0 <= b < 5 && g.buckets[b].len() > 0) ==> g.buckets[g.high_water.rank() as int].len() > 0
    &&& (forall|b: int| 0 <= b < 5 ==> g.buckets[b].len() == 0) ==> g.high_water == if_empty
}

/// Group `k` was opened by a command below the previous group's mark: its
/// lowest non-empty bucket is `l`, under that mark.
pub open spec fn opened_below<C>(gs: Seq<GroupModel<C>>, k: int, l: int) -> bool {
    &&& 0 <= l < 5
    &&& gs[k].buckets[l].len() > 0
    &&& forall|b: int| 0 <= b < l ==> gs[k].buckets[b].len() == 0
    &&& l < gs[k - 1].high_water.rank()
}

/// What every frame built by pushing covered commands looks like.
pub open spec fn built_covered<C>(gs: Seq<GroupModel<C>>) -> bool {
    &&& groups_wf(gs)
    &&& mark_is_highest(gs[0], RenderLayer::Backdrop)
    &&& forall|k: int| 1 <= k < gs.len() ==> mark_is_highest(#[trigger] gs[k], gs[k].high_water)
    &&& forall|k: int| 1 <= k < gs.len() ==> #[trigger] has_opening(gs, k)
}

/// Group `k` was opened below the previous group's mark, at some layer.
pub open spec fn has_opening<C>(gs: Seq<GroupModel<C>>, k: int) -> bool {
    exists|l: int| #[trigger] opened_below(gs, k, l)
}

proof fn lemma_layer_of_rank(l: RenderLayer)
    ensures
        layer_of(l.rank() as int) == l,
{
}

proof fn lemma_fresh_built<C>()
    ensures
        built_covered(fresh_groups::<C>()),
{
    let gs = fresh_groups::<C>();
    assert(group_wf(gs[0]));
}

proof fn lemma_push_keeps_built<C>(gs: Seq<GroupModel<C>>, cmd: C, layer: RenderLayer)
    requires
        built_covered(gs),
    ensures
        built_covered(after_push(gs, cmd, layer, true)),
{
    let n = gs.len() as int;
    let after = after_push(gs, cmd, layer, true);
    assert(group_wf(gs[n - 1]));
    if opens_group(gs, layer, true) {
        let g = opened_group(cmd, layer);
        assert(after[n] == g);
        assert forall|k: int| 0 <= k < after.len() implies group_wf(#[trigger] after[k]) by {
            if k < n {
                assert(after[k] == gs[k]);
            }
        }
        assert(mark_is_highest(g, g.high_water));
        assert(opened_below(after, n, layer.rank() as int));
        assert forall|k: int| 1 <= k < after.len() implies mark_is_highest(#[trigger] after[k], after[k].high_water) by {
            if k < n {
                assert(after[k] == gs[k]);
            }
        }
        assert forall|k: int| 1 <= k < after.len() implies has_opening(after, k) by {
            if k < n {
                assert(has_opening(gs, k));
                let l = choose|l: int| #[trigger] opened_below(gs, k, l);
                assert(opened_below(after, k, l));
            } else {
                assert(opened_below(after, n, layer.rank() as int));
            }
        }
    } else {
        let last = gs[n - 1];
        let j = joined_group(last, cmd, layer);
        assert(after[n - 1] == j);
        assert(layer.rank() >= last.high_water.rank());
        assert forall|k: int| 0 <= k < after.len() implies group_wf(#[trigger] after[k]) by {
            if k < n - 1 {
                assert(after[k] == gs[k]);
            }
        }
        let if_empty = if n - 1 == 0 { RenderLayer::Backdrop } else { last.high_water };
        assert(mark_is_highest(last, if_empty));
        assert(j.buckets[layer.rank() as int].len() > 0);
        assert(mark_is_highest(j, j.high_water)) by {
            assert forall|b: int| 0 <= b < 5 && j.buckets[b].len() > 0 implies b <= j.high_water.rank() by {
                if b != layer.rank() {
                    assert(j.buckets[b] == last.buckets[b]);
                }
            }
        }
        assert(mark_is_highest(after[0], RenderLayer::Backdrop)) by {
            if n - 1 == 0 {
                assert(j.high_water == layer);
            } else {
                assert(after[0] == gs[0]);
            }
        }
        assert forall|k: int| 1 <= k < after.len() implies mark_is_highest(#[trigger] after[k], after[k].high_water) by {
            if k < n - 1 {
                assert(after[k] == gs[k]);
            }
        }
        assert forall|k: int| 1 <= k < after.len() implies has_opening(after, k) by {
            assert(has_opening(gs, k));
            let l = choose|l: int| #[trigger] opened_below(gs, k, l);
            if k < n - 1 {
                assert(after[k] == gs[k]);
                assert(after[k - 1] == gs[k - 1]);
                assert(opened_below(after, k, l));
            } else {
                assert(after[k - 1] == gs[k - 1]);
                assert(last.buckets[l].len() > 0);
                assert(mark_is_highest(gs[k], gs[k].high_water));
                assert(l <= last.high_water.rank());
                assert forall|b: int| 0 <= b < l implies after[k].buckets[b].len() == 0 by {
                    assert(b != layer.rank());
                    assert(j.buckets[b] == last.buckets[b]);
                }
                assert(opened_below(after, k, l));
            }
        }
    }
}

proof fn lemma_push_all_built<C>(cmds: Seq<(C, RenderLayer)>)
    ensures
        built_covered(push_all(fresh_groups::<C>(), cmds)),
    decreases cmds.len(),
{
    if cmds.len() == 0 {
        lemma_fresh_built::<C>();
    } else {
        lemma_push_all_built(cmds.drop_last());
        lemma_push_keeps_built(push_all(fresh_groups::<C>(), cmds.drop_last()), cmds.last().0, cmds.last().1);
    }
}

proof fn lemma_push_all_concat<C>(gs: Seq<GroupModel<C>>, a: Seq<(C, RenderLayer)>, b: Seq<(C, RenderLayer)>)
    ensures
        push_all(gs, a + b) == push_all(push_all(gs, a), b),
    decreases b.len(),
{
    if b.len() == 0 {
        assert(a + b =~= a);
    } else {
        lemma_push_all_concat(gs, a, b.drop_last());
        assert((a + b).drop_last() =~= a + b.drop_last());
        assert((a + b).last() == b.last());
    }
}

/// Pushing a run of commands of one layer, at or above the current mark,
/// appends them to that bucket of the current group.
proof fn lemma_push_run<C>(gs: Seq<GroupModel<C>>, s: Seq<C>, l: RenderLayer)
    requires
        groups_wf(gs),
        s.len() > 0 ==> l.rank() >= gs.last().high_water.rank(),
    ensures
        push_all(gs, tag(s, l)) == gs.update(
            gs.len() - 1,
            GroupModel {
                buckets: gs.last().buckets.update(l.rank() as int, gs.last().buckets[l.rank() as int] + s),
                high_water: if s.len() == 0 {
                    gs.last().high_water
                } else {
                    l
                },
            },
        ),
    decreases s.len(),
{
    let n = gs.len() as int;
    assert(group_wf(gs[n - 1]));
    if s.len() == 0 {
        assert(tag(s, l) =~= Seq::<(C, RenderLayer)>::empty());
        assert(gs.last().buckets.update(l.rank() as int, gs.last().buckets[l.rank() as int] + s)
            =~= gs.last().buckets);
        assert(gs.update(n - 1, gs.last()) =~= gs);
    } else {
        let t = s.drop_last();
        lemma_push_run(gs, t, l);
        assert(tag(s, l).drop_last() =~= tag(t, l));
        assert(tag(s, l).last() == (s.last(), l));
        let mid = push_all(gs, tag(t, l));
        assert(mid.len() == n);
        assert(mid.last().high_water.rank() <= l.rank());
        assert(!opens_group(mid, l, true));
        assert(mid.last().buckets[l.rank() as int].push(s.last()) =~= gs.last().buckets[l.rank() as int] + s);
        assert(mid.last().buckets.update(l.rank() as int, mid.last().buckets[l.rank() as int].push(s.last()))
            =~= gs.last().buckets.update(l.rank() as int, gs.last().buckets[l.rank() as int] + s));
        assert(push_all(gs, tag(s, l)) =~= gs.update(
            n - 1,
            GroupModel {
                buckets: gs.last().buckets.update(l.rank() as int, gs.last().buckets[l.rank() as int] + s),
                high_water: l,
            },
        ));
    }
}

/// The mark after the buckets before `b` of `g` were replayed onto `h`.
pub open spec fn mark_upto<C>(g: GroupModel<C>, b: int, h: RenderLayer) -> RenderLayer
    decreases b,
{
    if b <= 0 {
        h
    } else if g.buckets[b - 1].len() > 0 {
        layer_of(b - 1)
    } else {
        mark_upto(g, b - 1, h)
    }
}

proof fn lemma_mark_upto_bound<C>(g: GroupModel<C>, b: int, h: RenderLayer)
    requires
        0 <= b <= 5,
        forall|i: int| 0 <= i < 5 && g.buckets[i].len() > 0 ==> h.rank() <= i,
    ensures
        (forall|i: int| 0 <= i < b ==> g.buckets[i].len() == 0) ==> mark_upto(g, b, h) == h,
        (exists|i: int| 0 <= i < b && g.buckets[i].len() > 0) ==> (mark_upto(g, b, h).rank() < b
            && g.buckets[mark_upto(g, b, h).rank() as int].len() > 0
            && forall|i: int| mark_upto(g, b, h).rank() < i < b ==> g.buckets[i].len() == 0),
        mark_upto(g, b, h).rank() <= if b == 0 { h.rank() as int } else { if h.rank() > b - 1 { h.rank() as int } else { b - 1 } },
    decreases b,
{
    if b > 0 {
        lemma_mark_upto_bound(g, b - 1, h);
        if g.buckets[b - 1].len() > 0 {
            assert(layer_of(b - 1).rank() == b - 1);
        }
    }
}

/// Replaying a group's commands in draw order onto an empty current group
/// whose mark is at or below all of them rebuilds the group.
proof fn lemma_replay_group<C>(gs: Seq<GroupModel<C>>, g: GroupModel<C>)
    requires
        groups_wf(gs),
        group_wf(g),
        gs.last().buckets == Seq::new(5, |b: int| Seq::<C>::empty()),
        forall|b: int| 0 <= b < 5 && g.buckets[b].len() > 0 ==> gs.last().high_water.rank() <= b,
        mark_is_highest(g, gs.last().high_water),
    ensures
        push_all(gs, tagged_prefix(g, 5)) == gs.update(gs.len() - 1, g),
{
    let n = gs.len() as int;
    let h = gs.last().high_water;
    assert forall|b: int| 0 <= b <= 5 implies push_all(gs, tagged_prefix(g, b)) == gs.update(
        n - 1,
        GroupModel {
            buckets: Seq::new(5, |i: int| if i < b { g.buckets[i] } else { Seq::<C>::empty() }),
            high_water: mark_upto(g, b, h),
        },
    ) by {
        lemma_replay_prefix(gs, g, b);
    }
    lemma_mark_upto_bound(g, 5, h);
    let r = GroupModel {
        buckets: Seq::new(5, |i: int| if i < 5 { g.buckets[i] } else { Seq::<C>::empty() }),
        high_water: mark_upto(g, 5, h),
    };
    assert(r.buckets =~= g.buckets);
    if exists|i: int| 0 <= i < 5 && g.buckets[i].len() > 0 {
        let m = mark_upto(g, 5, h).rank() as int;
        let hw = g.high_water.rank() as int;
        assert(g.buckets[hw].len() > 0);
        assert(hw <= m);
        assert(m <= hw);
        lemma_layer_of_rank(g.high_water);
        lemma_layer_of_rank(mark_upto(g, 5, h));
    }
    assert(r == g);
}

proof fn lemma_replay_prefix<C>(gs: Seq<GroupModel<C>>, g: GroupModel<C>, b: int)
    requires
        0 <= b <= 5,
        groups_wf(gs),
        group_wf(g),
        gs.last().buckets == Seq::new(5, |b: int| Seq::<C>::empty()),
        forall|i: int| 0 <= i < 5 && g.buckets[i].len() > 0 ==> gs.last().high_water.rank() <= i,
    ensures
        push_all(gs, tagged_prefix(g, b)) == gs.update(
            gs.len() - 1,
            GroupModel {
                buckets: Seq::new(5, |i: int| if i < b { g.buckets[i] } else { Seq::<C>::empty() }),
                high_water: mark_upto(g, b, gs.last().high_water),
            },
        ),
    decreases b,
{
    let n = gs.len() as int;
    let h = gs.last().high_water;
    if b == 0 {
        assert(tagged_prefix(g, 0) =~= Seq::<(C, RenderLayer)>::empty());
        let e = GroupModel {
            buckets: Seq::new(5, |i: int| if i < 0 { g.buckets[i] } else { Seq::<C>::empty() }),
            high_water: h,
        };
        assert(e.buckets =~= gs.last().buckets);
        assert(gs.update(n - 1, e) =~= gs);
    } else {
        lemma_replay_prefix(gs, g, b - 1);
        let mid = push_all(gs, tagged_prefix(g, b - 1));
        lemma_push_all_concat(gs, tagged_prefix(g, b - 1), tag(g.buckets[b - 1], layer_of(b - 1)));
        lemma_mark_upto_bound(g, b - 1, h);
        let l = layer_of(b - 1);
        assert(l.rank() == b - 1);
        assert(groups_wf(mid)) by {
            assert forall|k: int| 0 <= k < mid.len() implies group_wf(#[trigger] mid[k]) by {
                if k < n - 1 {
                    assert(mid[k] == gs[k]);
                }
            }
        }
        lemma_push_run(mid, g.buckets[b - 1], l);
        let expected = gs.update(
            n - 1,
            GroupModel {
                buckets: Seq::new(5, |i: int| if i < b { g.buckets[i] } else { Seq::<C>::empty() }),
                high_water: mark_upto(g, b, h),
            },
        );
        let got = push_all(mid, tag(g.buckets[b - 1], l));
        assert(got[n - 1].buckets =~= expected[n - 1].buckets);
        assert(got =~= expected);
    }
}

/// The first command a group replays in draw order is from its lowest
/// non-empty bucket.
proof fn lemma_tagged_first<C>(g: GroupModel<C>, l: int)
    requires
        group_wf(g),
        0 <= l < 5,
        g.buckets[l].len() > 0,
        forall|b: int| 0 <= b < l ==> g.buckets[b].len() == 0,
    ensures
        tagged_prefix(g, 5).len() > 0,
        tagged_prefix(g, 5)[0] == (g.buckets[l][0], layer_of(l)),
{
    assert forall|b: int| 0 <= b <= l implies tagged_prefix(g, b).len() == 0 by {
        lemma_tagged_empty_prefix(g, b, l);
    }
    assert forall|b: int| l < b <= 5 implies tagged_prefix(g, b).len() > 0 && tagged_prefix(g, b)[0] == (
        g.buckets[l][0],
        layer_of(l),
    ) by {
        lemma_tagged_first_from(g, l, b);
    }
}

proof fn lemma_tagged_empty_prefix<C>(g: GroupModel<C>, b: int, l: int)
    requires
        0 <= b <= l,
        forall|i: int| 0 <= i < l ==> g.buckets[i].len() == 0,
    ensures
        tagged_prefix(g, b).len() == 0,
    decreases b,
{
    if b > 0 {
        lemma_tagged_empty_prefix(g, b - 1, l);
    }
}

proof fn lemma_tagged_first_from<C>(g: GroupModel<C>, l: int, b: int)
    requires
        0 <= l < b <= 5,
        g.buckets[l].len() > 0,
        forall|i: int| 0 <= i < l ==> g.buckets[i].len() == 0,
    ensures
        tagged_prefix(g, b).len() > 0,
        tagged_prefix(g, b)[0] == (g.buckets[l][0], layer_of(l)),
    decreases b,
{
    if b == l + 1 {
        lemma_tagged_empty_prefix(g, l, l);
    } else {
        lemma_tagged_first_from(g, l, b - 1);
    }
}

/// Replaying the first `k` groups of a frame built from covered commands, in
/// draw order, onto a fresh frame rebuilds exactly those groups.
proof fn lemma_replay_groups<C>(gs: Seq<GroupModel<C>>, k: int)
    requires
        built_covered(gs),
        1 <= k <= gs.len(),
    ensures
        push_all(fresh_groups::<C>(), tagged_order(gs.subrange(0, k))) == gs.subrange(0, k),
    decreases k,
{
    let fresh = fresh_groups::<C>();
    let sub = gs.subrange(0, k);
    assert(sub.drop_last() =~= gs.subrange(0, k - 1));
    assert(sub.last() == gs[k - 1]);
    assert(group_wf(gs[k - 1]));
    if k == 1 {
        assert(gs.subrange(0, 0) =~= Seq::<GroupModel<C>>::empty());
        assert(tagged_order(sub.drop_last()) =~= Seq::<(C, RenderLayer)>::empty());
        assert(tagged_order(sub) =~= tagged_prefix(gs[0], 5));
        lemma_fresh_built::<C>();
        assert(fresh.last().buckets =~= Seq::new(5, |b: int| Seq::<C>::empty()));
        lemma_replay_group(fresh, gs[0]);
        assert(fresh.update(0, gs[0]) =~= sub);
    } else {
        lemma_replay_groups(gs, k - 1);
        let prev = gs.subrange(0, k - 1);
        lemma_push_all_concat(fresh, tagged_order(prev), tagged_prefix(gs[k - 1], 5));
        let g = gs[k - 1];
        assert(has_opening(gs, k - 1));
        let l = choose|l: int| #[trigger] opened_below(gs, k - 1, l);
        assert(opened_below(gs, k - 1, l));
        lemma_tagged_first(g, l);
        let t = tagged_prefix(g, 5);
        let first = t[0];
        let rest = t.subrange(1, t.len() as int);
        assert(t =~= seq![first] + rest);
        lemma_push_all_concat(prev, seq![first], rest);
        assert(prev.last() == gs[k - 2]);
        assert(seq![first].drop_last() =~= Seq::<(C, RenderLayer)>::empty());
        assert(first.1.rank() == l);
        assert(groups_wf(prev)) by {
            assert forall|i: int| 0 <= i < prev.len() implies group_wf(#[trigger] prev[i]) by {
                assert(prev[i] == gs[i]);
            }
        }
        // Opening the group is pushing onto an empty one with the command's
        // layer as its mark.
        let opened = prev.push(empty_group(first.1));
        assert(groups_wf(opened)) by {
            assert forall|i: int| 0 <= i < opened.len() implies group_wf(#[trigger] opened[i]) by {
                if i < prev.len() {
                    assert(opened[i] == prev[i]);
                }
            }
        }
        assert(push_all(prev, seq![first]) == push_all(opened, seq![first])) by {
            assert(opens_group(prev, first.1, true));
            assert(!opens_group(opened, first.1, true));
            let a = push_all(prev, seq![first]);
            let b = push_all(opened, seq![first]);
            assert(push_all(prev, Seq::<(C, RenderLayer)>::empty()) == prev);
            assert(push_all(opened, Seq::<(C, RenderLayer)>::empty()) == opened);
            assert(a == prev.push(opened_group(first.0, first.1)));
            assert(b == opened.update(k - 1, joined_group(empty_group(first.1), first.0, first.1)));
            assert forall|i: int| 0 <= i < 5 implies #[trigger] a[k - 1].buckets[i] =~= b[k - 1].buckets[i] by {}
            assert(a[k - 1].buckets =~= b[k - 1].buckets);
            assert(a =~= b);
        }
        lemma_push_all_concat(opened, seq![first], rest);
        assert(opened.last().buckets =~= Seq::new(5, |b: int| Seq::<C>::empty()));
        assert(mark_is_highest(g, g.high_water));
        assert(mark_is_highest(g, first.1)) by {
            if forall|b: int| 0 <= b < 5 ==> g.buckets[b].len() == 0 {
                assert(g.buckets[l].len() > 0);
            }
        }
        lemma_replay_group(opened, g);
        assert(opened.update(k - 1, g) =~= sub);
    }
}

/// Replaying a cached subtree reproduces its grouping: for a frame built by
/// pushing commands that each meet what is drawn above them, pushing its
/// commands again in draw order, each with its bucket's layer, onto a fresh
/// frame gives back the same groups.
pub proof fn law_replay_reproduces_grouping<C>(cmds: Seq<(C, RenderLayer)>)
    ensures
        push_all(fresh_groups::<C>(), tagged_order(push_all(fresh_groups::<C>(), cmds))) == push_all(
            fresh_groups::<C>(),
            cmds,
        ),
{
    let gs = push_all(fresh_groups::<C>(), cmds);
    lemma_push_all_built(cmds);
    lemma_replay_groups(gs, gs.len() as int);
    assert(gs.subrange(0, gs.len() as int) =~= gs);
}

/// A group's high-water mark is the highest layer it holds: a command that
/// joins the current group raises the mark to its own layer when that is
/// higher and never lowers it, and one that opens a group starts the new
/// group's mark at its own layer. The groups before the current one are
/// untouched either way.
pub proof fn law_high_water_never_falls<C>(gs: Seq<GroupModel<C>>, cmd: C, layer: RenderLayer, covered_above: bool)
    requires
        groups_wf(gs),
    ensures
        !opens_group(gs, layer, covered_above) ==> after_push(gs, cmd, layer, covered_above).last().high_water.rank()
            == (if gs.last().high_water.rank() >= layer.rank() {
            gs.last().high_water.rank()
        } else {
            layer.rank()
        }),
        !opens_group(gs, layer, covered_above) ==> after_push(gs, cmd, layer, covered_above).last().high_water.rank()
            >= gs.last().high_water.rank(),
        opens_group(gs, layer, covered_above) ==> after_push(gs, cmd, layer, covered_above).last().high_water
            == layer,
        forall|i: int|
            0 <= i < gs.len() - 1 ==> #[trigger] after_push(gs, cmd, layer, covered_above)[i] == gs[i],
{
}

/// A regression that covers nothing stays in the group without hiding what
/// is above it: a later command that meets what is drawn above it, below the
/// layer the group had reached, still opens a new group, so it is drawn after
/// (over) what it covers.
pub proof fn law_uncovered_regression_keeps_the_mark<C>(
    gs: Seq<GroupModel<C>>,
    first: C,
    first_layer: RenderLayer,
    second: C,
    second_layer: RenderLayer,
)
    requires
        groups_wf(gs),
        first_layer.rank() < gs.last().high_water.rank(),
        second_layer.rank() < gs.last().high_water.rank(),
    ensures
        !opens_group(gs, first_layer, false),
        after_push(gs, first, first_layer, false).len() == gs.len(),
        opens_group(after_push(gs, first, first_layer, false), second_layer, true),
        after_push(after_push(gs, first, first_layer, false), second, second_layer, true).len() == gs.len() + 1,
{
}

} // verus!
