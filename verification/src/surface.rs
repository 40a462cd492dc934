//! Layer-shell surfaces: how each one is sized, anchored and reserved, the
//! builders that configure them, and the deferred command queue through
//! which widget code spawns, changes and closes them.

use vstd::prelude::*;

use crate::id_map::IdMap;
use crate::platform::{Anchor, Color, KeyboardInteractivity, Layer, OutputId, Rect};

verus! {

/// Unique identifier for each surface in the application.
#[derive(Debug, Clone, Copy, PartialEq, Eq, Hash, Structural)]
pub struct SurfaceId(pub u64);

/// The source of fresh surface ids: the value the next one gets, and (as a
/// ghost) whether it has wrapped past `u64::MAX` yet.
pub struct SurfaceIdCounter {
    next: u64,
    wrapped: Ghost<bool>,
}

/// A counter's value and whether it has wrapped, after one more id: it moves
/// on by one, wrapping to zero past `u64::MAX`, as an atomic add does.
pub open spec fn counter_step(value: u64, wrapped: bool) -> (u64, bool) {
    if value == u64::MAX {
        (0, true)
    } else {
        ((value + 1) as u64, wrapped)
    }
}

/// A counter's value after `k` more ids.
pub open spec fn counter_after(value: u64, wrapped: bool, k: nat) -> (u64, bool)
    decreases k,
{
    if k == 0 {
        (value, wrapped)
    } else {
        let (v, w) = counter_after(value, wrapped, (k - 1) as nat);
        counter_step(v, w)
    }
}

impl SurfaceIdCounter {
    /// The value the next id gets.
    pub closed spec fn value(&self) -> u64 {
        self.next
    }

    /// Whether the counter has wrapped, so that ids may repeat.
    pub closed spec fn wrapped(&self) -> bool {
        self.wrapped@
    }

    /// Every id this counter has handed out (all of them, once it wraps).
    pub closed spec fn issued(&self) -> Set<u64> {
        if self.wrapped@ {
            Set::full()
        } else {
            Set::new(|i: u64| i < self.next)
        }
    }

    /// A counter whose first id is `0`, which has handed out none.
    pub fn new() -> (c: SurfaceIdCounter)
        ensures
            c.value() == 0,
            !c.wrapped(),
            c.issued() == Set::<u64>::empty(),
    {
        let c = SurfaceIdCounter { next: 0, wrapped: Ghost(false) };
        proof {
            assert(c.issued() =~= Set::<u64>::empty());
        }
        c
    }
}

impl SurfaceId {
    /// A new surface id: the counter's value, which then moves on by one
    /// (wrapping, as an atomic add does). Until the counter wraps, the id is
    /// one it never handed out before.
    pub fn next(counter: &mut SurfaceIdCounter) -> (id: SurfaceId)
        ensures
            id.0 == old(counter).value(),
            (final(counter).value(), final(counter).wrapped()) == counter_step(
                old(counter).value(),
                old(counter).wrapped(),
            ),
            !old(counter).wrapped() ==> !old(counter).issued().contains(id.0),
            final(counter).issued() == old(counter).issued().insert(id.0),
    {
        let id = SurfaceId(counter.next);
        let ghost was = counter.wrapped@;
        proof {
            counter.wrapped = Ghost(was || counter.next == u64::MAX);
        }
        counter.next = counter.next.wrapping_add(1);
        proof {
            if !was && id.0 != u64::MAX {
                assert(counter.issued() =~= old(counter).issued().insert(id.0));
            } else {
                assert(counter.issued() =~= old(counter).issued().insert(id.0));
            }
        }
        id
    }

    /// The raw id value (for debugging/logging).
    pub fn raw(&self) -> (r: u64)
        ensures
            r == self.0,
    {
        self.0
    }
}

/// Margins from the anchored screen edges, in logical pixels. Negative
/// values push the surface past its anchored edge.
#[derive(Debug, Clone, Copy, PartialEq, Eq, Structural)]
pub struct Margin {
    pub top: i32,
    pub right: i32,
    pub bottom: i32,
    pub left: i32,
}

impl Margin {
    /// The same margin on every edge.
    pub fn all(value: i32) -> (m: Margin)
        ensures
            m == (Margin { top: value, right: value, bottom: value, left: value }),
    {
        Margin { top: value, right: value, bottom: value, left: value }
    }

    /// Whether every edge is zero.
    pub fn is_zero(self) -> (b: bool)
        ensures
            b == (self == Margin::zero_spec()),
    {
        self.top == 0 && self.right == 0 && self.bottom == 0 && self.left == 0
    }

    pub open spec fn zero_spec() -> Margin {
        Margin { top: 0, right: 0, bottom: 0, left: 0 }
    }
}

impl Default for Margin {
    fn default() -> (m: Margin)
        ensures
            m == Margin::zero_spec(),
    {
        Margin { top: 0, right: 0, bottom: 0, left: 0 }
    }
}

/// One value for every edge.
impl From<i32> for Margin {
    fn from(v: i32) -> (m: Margin) {
        Margin::all(v)
    }
}

impl vstd::std_specs::convert::FromSpecImpl<i32> for Margin {
    open spec fn obeys_from_spec() -> bool {
        true
    }

    open spec fn from_spec(v: i32) -> Margin {
        Margin { top: v, right: v, bottom: v, left: v }
    }
}

/// One value for every edge, reinterpreted as `i32` (values past
/// `i32::MAX` wrap).
impl From<u32> for Margin {
    fn from(v: u32) -> (m: Margin) {
        Margin::all(v as i32)
    }
}

impl vstd::std_specs::convert::FromSpecImpl<u32> for Margin {
    open spec fn obeys_from_spec() -> bool {
        true
    }

    open spec fn from_spec(v: u32) -> Margin {
        Margin { top: v as i32, right: v as i32, bottom: v as i32, left: v as i32 }
    }
}

/// `[vertical, horizontal]`, the CSS two-value shorthand.
impl From<[i32; 2]> for Margin {
    fn from(v: [i32; 2]) -> (m: Margin) {
        Margin { top: v[0], right: v[1], bottom: v[0], left: v[1] }
    }
}

impl vstd::std_specs::convert::FromSpecImpl<[i32; 2]> for Margin {
    open spec fn obeys_from_spec() -> bool {
        true
    }

    open spec fn from_spec(v: [i32; 2]) -> Margin {
        Margin { top: v@[0], right: v@[1], bottom: v@[0], left: v@[1] }
    }
}

/// `[top, right, bottom, left]`, the CSS four-value shorthand.
impl From<[i32; 4]> for Margin {
    fn from(v: [i32; 4]) -> (m: Margin) {
        Margin { top: v[0], right: v[1], bottom: v[2], left: v[3] }
    }
}

impl vstd::std_specs::convert::FromSpecImpl<[i32; 4]> for Margin {
    open spec fn obeys_from_spec() -> bool {
        true
    }

    open spec fn from_spec(v: [i32; 4]) -> Margin {
        Margin { top: v@[0], right: v@[1], bottom: v@[2], left: v@[3] }
    }
}

/// Per-axis sizing: a fixed size in logical pixels, or the content's
/// natural size on that axis.
#[derive(Debug, Clone, Copy, PartialEq, Eq, Structural)]
pub enum SurfaceExtent {
    /// Fixed size in logical pixels.
    Fixed(u32),
    /// Follow the content's natural size on this axis.
    Content,
}

impl SurfaceExtent {
    pub open spec fn initial_spec(self) -> u32 {
        match self {
            SurfaceExtent::Fixed(v) => v,
            SurfaceExtent::Content => 1,
        }
    }

    /// The initial protocol size (`Content` starts at 1px until the first
    /// measure lands).
    pub fn initial(self) -> (r: u32)
        ensures
            r == self.initial_spec(),
    {
        match self {
            SurfaceExtent::Fixed(v) => v,
            SurfaceExtent::Content => 1,
        }
    }

    /// Whether this axis follows the content.
    pub fn is_content(self) -> (b: bool)
        ensures
            b == (self is Content),
    {
        match self {
            SurfaceExtent::Fixed(_) => false,
            SurfaceExtent::Content => true,
        }
    }
}

impl From<u32> for SurfaceExtent {
    fn from(v: u32) -> (e: SurfaceExtent) {
        SurfaceExtent::Fixed(v)
    }
}

impl vstd::std_specs::convert::FromSpecImpl<u32> for SurfaceExtent {
    open spec fn obeys_from_spec() -> bool {
        true
    }

    open spec fn from_spec(v: u32) -> SurfaceExtent {
        SurfaceExtent::Fixed(v)
    }
}

/// A negative size clamps to zero.
impl From<i32> for SurfaceExtent {
    fn from(v: i32) -> (e: SurfaceExtent) {
        if v < 0 {
            SurfaceExtent::Fixed(0)
        } else {
            SurfaceExtent::Fixed(v as u32)
        }
    }
}

impl vstd::std_specs::convert::FromSpecImpl<i32> for SurfaceExtent {
    open spec fn obeys_from_spec() -> bool {
        true
    }

    open spec fn from_spec(v: i32) -> SurfaceExtent {
        SurfaceExtent::Fixed(
            if v < 0 {
                0
            } else {
                v as u32
            },
        )
    }
}

/// A [`SurfaceExtent`] that follows the content's natural size.
pub fn content() -> (e: SurfaceExtent)
    ensures
        e == SurfaceExtent::Content,
{
    SurfaceExtent::Content
}

/// The width axis is pinned to both of its screen edges.
pub open spec fn owns_width(anchor: Anchor) -> bool {
    anchor.has_left() && anchor.has_right()
}

/// The height axis is pinned to both of its screen edges.
pub open spec fn owns_height(anchor: Anchor) -> bool {
    anchor.has_top() && anchor.has_bottom()
}

/// Which axes the compositor owns, `(width, height)`: an axis pinned to both
/// of its screen edges is stretched to fit and the surface's request for it
/// is ignored.
pub fn compositor_owned_axes(anchor: Anchor) -> (r: (bool, bool))
    ensures
        r == (owns_width(anchor), owns_height(anchor)),
{
    (
        anchor.contains(Anchor::left()) && anchor.contains(Anchor::right()),
        anchor.contains(Anchor::top()) && anchor.contains(Anchor::bottom()),
    )
}

/// Zero on the axes the compositor owns, the given size elsewhere.
pub open spec fn honoured(anchor: Anchor, width: u32, height: u32) -> (u32, u32) {
    (
        if owns_width(anchor) {
            0
        } else {
            width
        },
        if owns_height(anchor) {
            0
        } else {
            height
        },
    )
}

/// Zero the axes the compositor owns, whatever size was going to be asked
/// for: zero on such an axis is how layer-shell says "you decide".
pub fn honour_owned_axes(anchor: Anchor, width: u32, height: u32) -> (r: (u32, u32))
    ensures
        r == honoured(anchor, width, height),
{
    let (stretch_w, stretch_h) = compositor_owned_axes(anchor);
    (
        if stretch_w {
            0
        } else {
            width
        },
        if stretch_h {
            0
        } else {
            height
        },
    )
}

/// The size an axis asks for: its own if fixed; for a content axis, the
/// size the compositor confirmed, or the 1px placeholder before any.
pub open spec fn requested(extent: SurfaceExtent, live: Option<u32>) -> u32 {
    match extent {
        SurfaceExtent::Fixed(v) => v,
        SurfaceExtent::Content => match live {
            Some(v) => v,
            None => 1,
        },
    }
}

/// The size an axis is currently asking for.
pub fn requested_extent(extent: SurfaceExtent, live: Option<u32>) -> (r: u32)
    ensures
        r == requested(extent, live),
{
    match extent {
        SurfaceExtent::Fixed(v) => v,
        SurfaceExtent::Content => match live {
            Some(v) => v,
            None => extent.initial(),
        },
    }
}

/// What a resize asks for: the honoured size of each axis, and whether a
/// content axis the surface owns has to be measured again first.
pub open spec fn resize_spec(config: SurfaceConfig, live: Option<(u32, u32)>) -> (u32, u32, bool) {
    let live_w = match live {
        Some(p) => Some(p.0),
        None => None,
    };
    let live_h = match live {
        Some(p) => Some(p.1),
        None => None,
    };
    let size = honoured(config.anchor, requested(config.width, live_w), requested(config.height, live_h));
    (
        size.0,
        size.1,
        (config.width is Content && !owns_width(config.anchor)) || (config.height is Content
            && !owns_height(config.anchor)),
    )
}

/// What a resize asks the compositor for, and whether the surface has to be
/// re-measured before that answer is right: a content axis holds the
/// confirmed size and asks for a layout, unless the compositor owns it.
pub fn resize_request(config: &SurfaceConfig, live: Option<(u32, u32)>) -> (r: (u32, u32, bool))
    ensures
        r == resize_spec(*config, live),
{
    let (owns_w, owns_h) = compositor_owned_axes(config.anchor);
    let live_w = match live {
        Some(p) => Some(p.0),
        None => None,
    };
    let live_h = match live {
        Some(p) => Some(p.1),
        None => None,
    };
    let (width, height) = honour_owned_axes(
        config.anchor,
        requested_extent(config.width, live_w),
        requested_extent(config.height, live_h),
    );
    let measure = (config.width.is_content() && !owns_w) || (config.height.is_content() && !owns_h);
    (width, height, measure)
}

/// Whether creating a surface with this configuration asks for content
/// sizing on an axis the compositor owns, which never takes effect and is
/// worth a warning. A fixed size there is usually a default nobody chose,
/// so only `Content` counts.
pub fn warn_content_on_stretched_axis(config: &SurfaceConfig) -> (b: bool)
    ensures
        b == ((owns_width(config.anchor) && config.width is Content) || (owns_height(config.anchor)
            && config.height is Content)),
{
    let (stretch_w, stretch_h) = compositor_owned_axes(config.anchor);
    (stretch_w && config.width.is_content()) || (stretch_h && config.height.is_content())
}

/// The sizes asked for at runtime that the compositor will discard,
/// `(width, height)`: each axis it owns, with what was asked for it. Every
/// such value was chosen by the caller, so each is worth a warning.
pub fn warn_size_request_on_stretched_axis(config: &SurfaceConfig) -> (r: (
    Option<SurfaceExtent>,
    Option<SurfaceExtent>,
))
    ensures
        r.0 == (if owns_width(config.anchor) {
            Some(config.width)
        } else {
            None
        }),
        r.1 == (if owns_height(config.anchor) {
            Some(config.height)
        } else {
            None
        }),
{
    let (stretch_w, stretch_h) = compositor_owned_axes(config.anchor);
    (
        if stretch_w {
            Some(config.width)
        } else {
            None
        },
        if stretch_h {
            Some(config.height)
        } else {
            None
        },
    )
}

/// The axis an `Auto` reservation tracks.
#[derive(Debug, Clone, Copy, PartialEq, Eq, Structural)]
pub enum FollowAxis {
    Width,
    Height,
}

/// Screen-space reservation for a layer surface.
#[derive(Debug, Clone, Copy, PartialEq, Eq, Structural)]
pub enum ExclusiveZone {
    /// Reserve the surface's own extent on the anchored axis, plus the margin
    /// on that edge. Anchored to a corner, or to no single edge, this
    /// reserves nothing.
    Auto,
    /// Reserve exactly this many logical pixels.
    Fixed(u32),
    /// Reserve nothing; the surface is moved by other surfaces' zones.
    Nothing,
    /// Reserve nothing and ignore other surfaces' zones (protocol value -1).
    Ignore,
}

/// The axis an `Auto` reservation follows: height when anchored to exactly
/// one of top and bottom (and to both or neither side), width when anchored
/// to exactly one of left and right (and to both or neither of the others).
pub open spec fn follow_axis_spec(anchor: Anchor) -> Option<FollowAxis> {
    let vertical_edge = anchor.has_top() != anchor.has_bottom();
    let horizontal_edge = anchor.has_left() != anchor.has_right();
    if vertical_edge && !horizontal_edge {
        Some(FollowAxis::Height)
    } else if !vertical_edge && horizontal_edge {
        Some(FollowAxis::Width)
    } else {
        None
    }
}

/// A `u32` read as the `i32` with the same bits.
pub open spec fn as_i32_bits(v: u32) -> int {
    if v <= i32::MAX {
        v as int
    } else {
        v - 0x1_0000_0000
    }
}

/// The protocol value of a reservation, as a mathematical integer.
pub open spec fn zone_value(
    zone: ExclusiveZone,
    anchor: Anchor,
    margin: Margin,
    width: u32,
    height: u32,
) -> int {
    match zone {
        ExclusiveZone::Auto => match follow_axis_spec(anchor) {
            Some(FollowAxis::Height) => as_i32_bits(height) + (if anchor.has_top() {
                margin.top
            } else {
                margin.bottom
            }),
            Some(FollowAxis::Width) => as_i32_bits(width) + (if anchor.has_left() {
                margin.left
            } else {
                margin.right
            }),
            None => 0,
        },
        ExclusiveZone::Fixed(z) => as_i32_bits(z),
        ExclusiveZone::Nothing => 0,
        ExclusiveZone::Ignore => -1,
    }
}

proof fn lemma_as_i32(v: u32)
    ensures
        v as i32 == as_i32_bits(v),
{
    assert(v <= 0x7fff_ffff ==> v as i32 == v) by (bit_vector);
    assert(v > 0x7fff_ffff ==> v as i32 == v - 0x1_0000_0000) by (bit_vector);
}

impl ExclusiveZone {
    /// The protocol value: `Auto` resolves against the extent on the
    /// anchored axis plus that edge's margin; `Fixed` is its value, `Nothing`
    /// zero and `Ignore` minus one. The sum must fit in an `i32`.
    pub fn resolve(self, anchor: Anchor, margin: Margin, width: u32, height: u32) -> (r: i32)
        requires
            i32::MIN <= zone_value(self, anchor, margin, width, height) <= i32::MAX,
        ensures
            r == zone_value(self, anchor, margin, width, height),
    {
        match self {
            ExclusiveZone::Auto => match Self::follow_axis(anchor) {
                Some(FollowAxis::Height) => {
                    let edge_margin = if anchor.contains(Anchor::top()) {
                        margin.top
                    } else {
                        margin.bottom
                    };
                    proof {
                        lemma_as_i32(height);
                    }
                    height as i32 + edge_margin
                },
                Some(FollowAxis::Width) => {
                    let edge_margin = if anchor.contains(Anchor::left()) {
                        margin.left
                    } else {
                        margin.right
                    };
                    proof {
                        lemma_as_i32(width);
                    }
                    width as i32 + edge_margin
                },
                None => 0,
            },
            ExclusiveZone::Fixed(z) => {
                proof {
                    lemma_as_i32(z);
                }
                z as i32
            },
            ExclusiveZone::Nothing => 0,
            ExclusiveZone::Ignore => -1,
        }
    }

    /// The axis an `Auto` reservation tracks, from the anchor.
    pub fn follow_axis(anchor: Anchor) -> (r: Option<FollowAxis>)
        ensures
            r == follow_axis_spec(anchor),
    {
        let vertical_edge = anchor.contains(Anchor::top()) != anchor.contains(Anchor::bottom());
        let horizontal_edge = anchor.contains(Anchor::left()) != anchor.contains(Anchor::right());
        match (vertical_edge, horizontal_edge) {
            (true, false) => Some(FollowAxis::Height),
            (false, true) => Some(FollowAxis::Width),
            _ => None,
        }
    }
}

impl From<u32> for ExclusiveZone {
    fn from(z: u32) -> (r: ExclusiveZone) {
        ExclusiveZone::Fixed(z)
    }
}

impl vstd::std_specs::convert::FromSpecImpl<u32> for ExclusiveZone {
    open spec fn obeys_from_spec() -> bool {
        true
    }

    open spec fn from_spec(z: u32) -> ExclusiveZone {
        ExclusiveZone::Fixed(z)
    }
}

/// What a surface's width or height can be given as: an extent, or a pixel
/// count (`u32`, or `i32` with negatives clamped to zero).
pub trait IntoExtent {
    /// The extent this value names.
    spec fn extent_spec(self) -> SurfaceExtent;

    fn into_extent(self) -> (e: SurfaceExtent)
        ensures
            e == self.extent_spec(),
    ;
}

impl IntoExtent for SurfaceExtent {
    open spec fn extent_spec(self) -> SurfaceExtent {
        self
    }

    fn into_extent(self) -> (e: SurfaceExtent) {
        self
    }
}

impl IntoExtent for u32 {
    open spec fn extent_spec(self) -> SurfaceExtent {
        SurfaceExtent::Fixed(self)
    }

    fn into_extent(self) -> (e: SurfaceExtent) {
        SurfaceExtent::from(self)
    }
}

impl IntoExtent for i32 {
    open spec fn extent_spec(self) -> SurfaceExtent {
        SurfaceExtent::Fixed(
            if self < 0 {
                0
            } else {
                self as u32
            },
        )
    }

    fn into_extent(self) -> (e: SurfaceExtent) {
        SurfaceExtent::from(self)
    }
}

/// What a reservation policy can be given as: the policy, or a pixel count
/// to reserve.
pub trait IntoZone {
    /// The policy this value names.
    spec fn zone_spec(self) -> ExclusiveZone;

    fn into_zone(self) -> (z: ExclusiveZone)
        ensures
            z == self.zone_spec(),
    ;
}

impl IntoZone for ExclusiveZone {
    open spec fn zone_spec(self) -> ExclusiveZone {
        self
    }

    fn into_zone(self) -> (z: ExclusiveZone) {
        self
    }
}

impl IntoZone for u32 {
    open spec fn zone_spec(self) -> ExclusiveZone {
        ExclusiveZone::Fixed(self)
    }

    fn into_zone(self) -> (z: ExclusiveZone) {
        ExclusiveZone::from(self)
    }
}

/// What a margin can be given as: a margin, one value for every edge, or the
/// CSS two- and four-value shorthands.
pub trait IntoMargin {
    /// The margin this value names.
    spec fn margin_spec(self) -> Margin;

    fn into_margin(self) -> (m: Margin)
        ensures
            m == self.margin_spec(),
    ;
}

impl IntoMargin for Margin {
    open spec fn margin_spec(self) -> Margin {
        self
    }

    fn into_margin(self) -> (m: Margin) {
        self
    }
}

impl IntoMargin for i32 {
    open spec fn margin_spec(self) -> Margin {
        Margin { top: self, right: self, bottom: self, left: self }
    }

    fn into_margin(self) -> (m: Margin) {
        Margin::from(self)
    }
}

impl IntoMargin for u32 {
    open spec fn margin_spec(self) -> Margin {
        Margin { top: self as i32, right: self as i32, bottom: self as i32, left: self as i32 }
    }

    fn into_margin(self) -> (m: Margin) {
        Margin::from(self)
    }
}

impl IntoMargin for [i32; 2] {
    open spec fn margin_spec(self) -> Margin {
        Margin { top: self@[0], right: self@[1], bottom: self@[0], left: self@[1] }
    }

    fn into_margin(self) -> (m: Margin) {
        Margin::from(self)
    }
}

impl IntoMargin for [i32; 4] {
    open spec fn margin_spec(self) -> Margin {
        Margin { top: self@[0], right: self@[1], bottom: self@[2], left: self@[3] }
    }

    fn into_margin(self) -> (m: Margin) {
        Margin::from(self)
    }
}

/// Configuration for a layer shell surface.
#[derive(Clone)]
pub struct SurfaceConfig {
    /// Width of the surface (fixed pixels or content-following).
    pub width: SurfaceExtent,
    /// Height of the surface (fixed pixels or content-following).
    pub height: SurfaceExtent,
    /// Anchor edges for the surface position.
    pub anchor: Anchor,
    /// Layer shell layer.
    pub layer: Layer,
    /// Keyboard interactivity mode.
    pub keyboard_interactivity: KeyboardInteractivity,
    /// Namespace identifier for the surface.
    pub namespace: String,
    /// Background color for the surface.
    pub background_color: Color,
    /// Screen-space reservation policy.
    pub exclusive_zone: ExclusiveZone,
    /// Margins from the anchored screen edges.
    pub margin: Margin,
    /// Output to show the surface on; `None` lets the compositor choose.
    pub output: Option<OutputId>,
    /// Input region in logical surface coordinates: `None` is the whole
    /// surface, `Some(rects)` only those (none at all: click-through).
    pub input_region: Option<Vec<Rect>>,
}

/// The colour a surface clears to unless told otherwise: `rgb(0.1, 0.1,
/// 0.15)`, opaque.
pub open spec fn default_background() -> Color {
    Color { r_bits: 0x3dcc_cccd, g_bits: 0x3dcc_cccd, b_bits: 0x3e19_999a, a_bits: 0x3f80_0000 }
}

impl SurfaceConfig {
    /// The defaults: 400 by 300 fixed, no anchor, the top layer, focus on
    /// demand, namespace `guido-surface`, a dark background, no reservation,
    /// no margin, any output, input everywhere.
    pub open spec fn is_default(self) -> bool {
        &&& self.width == SurfaceExtent::Fixed(400)
        &&& self.height == SurfaceExtent::Fixed(300)
        &&& self.anchor.bits == 0
        &&& self.layer == Layer::Top
        &&& self.keyboard_interactivity == KeyboardInteractivity::OnDemand
        &&& self.namespace@ == "guido-surface"@
        &&& self.background_color == default_background()
        &&& self.exclusive_zone == ExclusiveZone::Nothing
        &&& self.margin == Margin::zero_spec()
        &&& self.output.is_none()
        &&& self.input_region.is_none()
    }
}

impl Default for SurfaceConfig {
    fn default() -> (c: SurfaceConfig)
        ensures
            c.is_default(),
    {
        SurfaceConfig {
            width: SurfaceExtent::Fixed(400),
            height: SurfaceExtent::Fixed(300),
            anchor: Anchor::empty(),
            layer: Layer::Top,
            keyboard_interactivity: KeyboardInteractivity::OnDemand,
            namespace: "guido-surface".to_owned(),
            background_color: Color::from_bits(0x3dcc_cccd, 0x3dcc_cccd, 0x3e19_999a, 0x3f80_0000),
            exclusive_zone: ExclusiveZone::Nothing,
            margin: Margin { top: 0, right: 0, bottom: 0, left: 0 },
            output: None,
            input_region: None,
        }
    }
}

impl SurfaceConfig {
    /// A configuration with the default values.
    pub fn new() -> (c: SurfaceConfig)
        ensures
            c.is_default(),
    {
        Self::default()
    }

    /// Set the width of the surface.
    pub fn width<E: IntoExtent>(self, width: E) -> (c: SurfaceConfig)
        ensures
            c == (SurfaceConfig { width: width.extent_spec(), ..self }),
    {
        let mut c = self;
        c.width = width.into_extent();
        c
    }

    /// Set the height of the surface.
    pub fn height<E: IntoExtent>(self, height: E) -> (c: SurfaceConfig)
        ensures
            c == (SurfaceConfig { height: height.extent_spec(), ..self }),
    {
        let mut c = self;
        c.height = height.into_extent();
        c
    }

    /// Set the anchor edges for the surface.
    pub fn anchor(self, anchor: Anchor) -> (c: SurfaceConfig)
        ensures
            c == (SurfaceConfig { anchor, ..self }),
    {
        let mut c = self;
        c.anchor = anchor;
        c
    }

    /// Set the layer shell layer.
    pub fn layer(self, layer: Layer) -> (c: SurfaceConfig)
        ensures
            c == (SurfaceConfig { layer, ..self }),
    {
        let mut c = self;
        c.layer = layer;
        c
    }

    /// Set the namespace identifier for the surface.
    pub fn namespace(self, namespace: &str) -> (c: SurfaceConfig)
        ensures
            c.namespace@ == namespace@,
            c == (SurfaceConfig { namespace: c.namespace, ..self }),
    {
        let mut c = self;
        c.namespace = namespace.to_owned();
        c
    }

    /// Set the background color for the surface.
    pub fn background_color(self, color: Color) -> (c: SurfaceConfig)
        ensures
            c == (SurfaceConfig { background_color: color, ..self }),
    {
        let mut c = self;
        c.background_color = color;
        c
    }

    /// Set the exclusive zone (the screen space the surface reserves).
    pub fn exclusive_zone<Z: IntoZone>(self, zone: Z) -> (c: SurfaceConfig)
        ensures
            c == (SurfaceConfig { exclusive_zone: zone.zone_spec(), ..self }),
    {
        let mut c = self;
        c.exclusive_zone = zone.into_zone();
        c
    }

    /// Set the keyboard interactivity mode.
    pub fn keyboard_interactivity(self, mode: KeyboardInteractivity) -> (c: SurfaceConfig)
        ensures
            c == (SurfaceConfig { keyboard_interactivity: mode, ..self }),
    {
        let mut c = self;
        c.keyboard_interactivity = mode;
        c
    }

    /// Set the margins from the anchored screen edges, applied at creation.
    pub fn margin<M: IntoMargin>(self, margin: M) -> (c: SurfaceConfig)
        ensures
            c == (SurfaceConfig { margin: margin.margin_spec(), ..self }),
    {
        let mut c = self;
        c.margin = margin.into_margin();
        c
    }

    /// Pin the surface to a specific output.
    pub fn output(self, output: OutputId) -> (c: SurfaceConfig)
        ensures
            c == (SurfaceConfig { output: Some(output), ..self }),
    {
        let mut c = self;
        c.output = Some(output);
        c
    }

    /// Limit pointer and touch input to the given rectangles; an empty list
    /// makes the surface fully click-through.
    pub fn input_region(self, rects: Vec<Rect>) -> (c: SurfaceConfig)
        ensures
            c == (SurfaceConfig { input_region: Some(rects), ..self }),
    {
        let mut c = self;
        c.input_region = Some(rects);
        c
    }

    /// Make the whole surface click-through: an empty input region.
    pub fn click_through(self) -> (c: SurfaceConfig)
        ensures
            c.input_region matches Some(r) && r@.len() == 0,
            c == (SurfaceConfig { input_region: c.input_region, ..self }),
    {
        let mut c = self;
        c.input_region = Some(Vec::new());
        c
    }
}

/// Which point of the anchor rectangle a popup attaches to.
#[derive(Debug, Clone, Copy, PartialEq, Eq, Structural)]
pub enum PopupAnchor {
    /// Center of the anchor rect.
    Center,
    Top,
    Bottom,
    Left,
    Right,
    TopLeft,
    BottomLeft,
    TopRight,
    BottomRight,
}

impl Default for PopupAnchor {
    fn default() -> (a: PopupAnchor)
        ensures
            a == PopupAnchor::Center,
    {
        PopupAnchor::Center
    }
}

/// Which direction a popup grows from its anchor point; `Bottom` is
/// "downwards".
pub type PopupGravity = PopupAnchor;

/// Configuration for an xdg popup anchored to a parent surface.
#[derive(Debug, Clone, Copy)]
pub struct PopupConfig {
    /// Popup width in logical pixels.
    pub width: u32,
    /// Popup height in logical pixels; `None` sizes it to the content.
    pub height: Option<u32>,
    /// Rectangle the popup anchors to, in parent surface coordinates.
    pub anchor_rect: Rect,
    /// Which point of the anchor rect to attach to.
    pub anchor: PopupAnchor,
    /// Which direction the popup grows.
    pub gravity: PopupGravity,
    /// Extra offset from the anchor point.
    pub offset: (i32, i32),
    /// Take an input grab: clicking outside dismisses the popup.
    pub grab: bool,
    /// Background color of the popup surface.
    pub background_color: Color,
}

impl PopupConfig {
    /// A popup of the given width that sizes its height to its content,
    /// anchored below the unit rectangle at the origin, growing downwards, no
    /// offset, no grab, transparent.
    pub fn new(width: u32) -> (c: PopupConfig)
        ensures
            c == (PopupConfig {
                width,
                height: None,
                anchor_rect: Rect { x_bits: 0, y_bits: 0, width_bits: 0x3f80_0000, height_bits: 0x3f80_0000 },
                anchor: PopupAnchor::Bottom,
                gravity: PopupAnchor::Bottom,
                offset: (0, 0),
                grab: false,
                background_color: Color { r_bits: 0, g_bits: 0, b_bits: 0, a_bits: 0 },
            }),
    {
        PopupConfig {
            width,
            height: None,
            anchor_rect: Rect::from_bits(0, 0, 0x3f80_0000, 0x3f80_0000),
            anchor: PopupAnchor::Bottom,
            gravity: PopupAnchor::Bottom,
            offset: (0, 0),
            grab: false,
            background_color: Color::transparent(),
        }
    }

    /// Fix the popup height instead of sizing it to the content.
    pub fn height(self, height: u32) -> (c: PopupConfig)
        ensures
            c == (PopupConfig { height: Some(height), ..self }),
    {
        let mut c = self;
        c.height = Some(height);
        c
    }

    /// Set the rectangle the popup anchors to.
    pub fn anchor_rect(self, rect: Rect) -> (c: PopupConfig)
        ensures
            c == (PopupConfig { anchor_rect: rect, ..self }),
    {
        let mut c = self;
        c.anchor_rect = rect;
        c
    }

    /// Set which point of the anchor rect the popup attaches to.
    pub fn anchor(self, anchor: PopupAnchor) -> (c: PopupConfig)
        ensures
            c == (PopupConfig { anchor, ..self }),
    {
        let mut c = self;
        c.anchor = anchor;
        c
    }

    /// Set which direction the popup grows.
    pub fn gravity(self, gravity: PopupGravity) -> (c: PopupConfig)
        ensures
            c == (PopupConfig { gravity, ..self }),
    {
        let mut c = self;
        c.gravity = gravity;
        c
    }

    /// Set an extra offset from the anchor point.
    pub fn offset(self, x: i32, y: i32) -> (c: PopupConfig)
        ensures
            c == (PopupConfig { offset: (x, y), ..self }),
    {
        let mut c = self;
        c.offset = (x, y);
        c
    }

    /// Take an input grab: clicking outside dismisses the popup.
    pub fn grab(self) -> (c: PopupConfig)
        ensures
            c == (PopupConfig { grab: true, ..self }),
    {
        let mut c = self;
        c.grab = true;
        c
    }

    /// Set the background color of the popup surface.
    pub fn background_color(self, color: Color) -> (c: PopupConfig)
        ensures
            c == (PopupConfig { background_color: color, ..self }),
    {
        let mut c = self;
        c.background_color = color;
        c
    }
}

/// A request for the event loop, which owns the surfaces: create, close or
/// change one. `F` is the widget factory a new surface is built with.
pub enum SurfaceCommand<F> {
    /// Create a new surface with the given configuration and widget factory.
    Create { id: SurfaceId, config: SurfaceConfig, widget_fn: F },
    /// Close and destroy a surface by ID.
    Close(SurfaceId),
    /// Set the layer shell layer for a surface.
    SetLayer { id: SurfaceId, layer: Layer },
    /// Set the keyboard interactivity mode for a surface.
    SetKeyboardInteractivity { id: SurfaceId, mode: KeyboardInteractivity },
    /// Set the anchor edges for a surface.
    SetAnchor { id: SurfaceId, anchor: Anchor },
    /// Set the size of a surface.
    SetSize { id: SurfaceId, width: SurfaceExtent, height: SurfaceExtent },
    /// Set the screen-space reservation for a surface; the loop resolves it
    /// against the anchor and the current extent.
    SetExclusiveZone { id: SurfaceId, zone: ExclusiveZone },
    /// Set the margin for a surface.
    SetMargin { id: SurfaceId, margin: Margin },
    /// Set the input region for a surface.
    SetInputRegion { id: SurfaceId, rects: Option<Vec<Rect>> },
    /// Create an xdg popup anchored to a parent surface.
    CreatePopup { id: SurfaceId, parent: SurfaceId, config: PopupConfig, widget_fn: F },
}

/// The deferred queue of surface commands, drained by the event loop once
/// per iteration.
pub struct SurfaceCommands<F> {
    cmds: Vec<SurfaceCommand<F>>,
}

impl<F> SurfaceCommands<F> {
    /// The queued commands, oldest first.
    pub closed spec fn view(&self) -> Seq<SurfaceCommand<F>> {
        self.cmds@
    }

    /// An empty queue.
    pub fn new() -> (q: SurfaceCommands<F>)
        ensures
            q@ == Seq::<SurfaceCommand<F>>::empty(),
    {
        SurfaceCommands { cmds: Vec::new() }
    }
}

/// Queue a surface command behind those already waiting.
pub fn push_surface_command<F>(queue: &mut SurfaceCommands<F>, cmd: SurfaceCommand<F>)
    ensures
        final(queue)@ == old(queue)@.push(cmd),
{
    queue.cmds.push(cmd);
}

/// Drop every queued command (stale ones, when the application shuts down).
pub fn reset_surface_commands<F>(queue: &mut SurfaceCommands<F>)
    ensures
        final(queue)@ == Seq::<SurfaceCommand<F>>::empty(),
{
    queue.cmds.clear();
}

/// Take every queued command, oldest first, leaving the queue empty.
pub fn drain_surface_commands<F>(queue: &mut SurfaceCommands<F>) -> (r: Vec<SurfaceCommand<F>>)
    ensures
        r@ == old(queue)@,
        final(queue)@ == Seq::<SurfaceCommand<F>>::empty(),
{
    let mut taken = Vec::new();
    std::mem::swap(&mut taken, &mut queue.cmds);
    taken
}

/// Whether any surface command is queued.
pub fn surface_commands_pending<F>(queue: &SurfaceCommands<F>) -> (b: bool)
    ensures
        b == (queue@.len() > 0),
{
    queue.cmds.len() > 0
}

/// Handle to a surface, for changing or closing it from widget code.
#[derive(Clone, Copy, Debug)]
pub struct SurfaceHandle {
    id: SurfaceId,
}

impl SurfaceHandle {
    /// The surface this handle controls.
    pub closed spec fn surface(self) -> SurfaceId {
        self.id
    }

    /// Close this surface.
    pub fn close<F>(&self, queue: &mut SurfaceCommands<F>)
        ensures
            final(queue)@ == old(queue)@.push(SurfaceCommand::Close(self.surface())),
    {
        push_surface_command(queue, SurfaceCommand::Close(self.id));
    }

    /// The surface ID.
    pub fn id(&self) -> (r: SurfaceId)
        ensures
            r == self.surface(),
    {
        self.id
    }

    /// Set the layer shell layer for this surface.
    pub fn set_layer<F>(&self, queue: &mut SurfaceCommands<F>, layer: Layer)
        ensures
            final(queue)@ == old(queue)@.push(SurfaceCommand::SetLayer { id: self.surface(), layer }),
    {
        push_surface_command(queue, SurfaceCommand::SetLayer { id: self.id, layer });
    }

    /// Set the keyboard interactivity mode for this surface.
    pub fn set_keyboard_interactivity<F>(
        &self,
        queue: &mut SurfaceCommands<F>,
        mode: KeyboardInteractivity,
    )
        ensures
            final(queue)@ == old(queue)@.push(
                SurfaceCommand::SetKeyboardInteractivity { id: self.surface(), mode },
            ),
    {
        push_surface_command(queue, SurfaceCommand::SetKeyboardInteractivity { id: self.id, mode });
    }

    /// Set the anchor edges for this surface.
    pub fn set_anchor<F>(&self, queue: &mut SurfaceCommands<F>, anchor: Anchor)
        ensures
            final(queue)@ == old(queue)@.push(SurfaceCommand::SetAnchor { id: self.surface(), anchor }),
    {
        push_surface_command(queue, SurfaceCommand::SetAnchor { id: self.id, anchor });
    }

    /// Set the size of this surface, in the vocabulary of
    /// [`SurfaceConfig::width`], so an axis can go back to [`content()`].
    pub fn set_size<F, W: IntoExtent, H: IntoExtent>(
        &self,
        queue: &mut SurfaceCommands<F>,
        width: W,
        height: H,
    )
        ensures
            final(queue)@ == old(queue)@.push(
                SurfaceCommand::SetSize {
                    id: self.surface(),
                    width: width.extent_spec(),
                    height: height.extent_spec(),
                },
            ),
    {
        push_surface_command(
            queue,
            SurfaceCommand::SetSize { id: self.id, width: width.into_extent(), height: height.into_extent() },
        );
    }

    /// Set the screen-space reservation for this surface; `Auto` keeps
    /// following the surface's extent from here on.
    pub fn set_exclusive_zone<F, Z: IntoZone>(&self, queue: &mut SurfaceCommands<F>, zone: Z)
        ensures
            final(queue)@ == old(queue)@.push(
                SurfaceCommand::SetExclusiveZone { id: self.surface(), zone: zone.zone_spec() },
            ),
    {
        push_surface_command(queue, SurfaceCommand::SetExclusiveZone { id: self.id, zone: zone.into_zone() });
    }

    /// Set the margins from the anchored screen edges.
    pub fn set_margin<F, M: IntoMargin>(&self, queue: &mut SurfaceCommands<F>, margin: M)
        ensures
            final(queue)@ == old(queue)@.push(SurfaceCommand::SetMargin { id: self.surface(), margin: margin.margin_spec() }),
    {
        push_surface_command(queue, SurfaceCommand::SetMargin { id: self.id, margin: margin.into_margin() });
    }

    /// Set the input region for this surface: `None` restores the whole
    /// surface, an empty list makes it click-through.
    pub fn set_input_region<F>(&self, queue: &mut SurfaceCommands<F>, rects: Option<Vec<Rect>>)
        ensures
            final(queue)@ == old(queue)@.push(SurfaceCommand::SetInputRegion { id: self.surface(), rects }),
    {
        push_surface_command(queue, SurfaceCommand::SetInputRegion { id: self.id, rects });
    }
}

/// Spawn a new surface at runtime: a fresh id, and a `Create` command
/// carrying the configuration and the widget factory.
pub fn spawn_surface<F>(
    ids: &mut SurfaceIdCounter,
    queue: &mut SurfaceCommands<F>,
    config: SurfaceConfig,
    widget_fn: F,
) -> (h: SurfaceHandle)
    ensures
        h.surface().0 == old(ids).value(),
        (final(ids).value(), final(ids).wrapped()) == counter_step(old(ids).value(), old(ids).wrapped()),
        !old(ids).wrapped() ==> !old(ids).issued().contains(h.surface().0),
        final(ids).issued() == old(ids).issued().insert(h.surface().0),
        final(queue)@ == old(queue)@.push(
            SurfaceCommand::Create { id: h.surface(), config, widget_fn },
        ),
{
    let id = SurfaceId::next(ids);
    push_surface_command(queue, SurfaceCommand::Create { id, config, widget_fn });
    SurfaceHandle { id }
}

/// A handle to control an existing surface.
pub fn surface_handle(id: SurfaceId) -> (h: SurfaceHandle)
    ensures
        h.surface() == id,
{
    SurfaceHandle { id }
}

/// The dismissal state of every spawned popup: the value each popup
/// handle reads, and the registry of popups the platform layer may still
/// report dismissed.
pub struct PopupStates {
    signals: IdMap<bool>,
    registry: IdMap<()>,
}

impl PopupStates {
    /// Whether each popup has been dismissed, by id.
    pub closed spec fn dismissed_map(&self) -> Map<u64, bool> {
        self.signals.view()
    }

    /// The popups still registered for a dismissal report.
    pub closed spec fn registered(&self) -> Set<u64> {
        self.registry.view().dom()
    }

    pub closed spec fn wf(&self) -> bool {
        self.signals.wf() && self.registry.wf()
    }

    /// No popups yet.
    pub fn new() -> (p: PopupStates)
        ensures
            p.wf(),
            p.dismissed_map() == Map::<u64, bool>::empty(),
            p.registered() == Set::<u64>::empty(),
    {
        PopupStates { signals: IdMap::new(), registry: IdMap::new() }
    }
}

/// Handle to a spawned popup. It closes programmatically or by the
/// compositor (a grab and an outside click, the parent gone); either way
/// [`PopupHandle::dismissed`] turns true.
#[derive(Clone, Copy, Debug)]
pub struct PopupHandle {
    id: SurfaceId,
}

impl PopupHandle {
    /// The popup this handle controls.
    pub closed spec fn surface(self) -> SurfaceId {
        self.id
    }

    /// The popup's surface ID.
    pub fn id(&self) -> (r: SurfaceId)
        ensures
            r == self.surface(),
    {
        self.id
    }

    /// Close the popup programmatically: it reads as dismissed at once, and
    /// a `Close` command goes to the loop.
    pub fn close<F>(&self, popups: &mut PopupStates, queue: &mut SurfaceCommands<F>)
        requires
            old(popups).wf(),
        ensures
            final(popups).wf(),
            final(popups).dismissed_map() == old(popups).dismissed_map().insert(self.surface().0, true),
            final(popups).registered() == old(popups).registered(),
            final(queue)@ == old(queue)@.push(SurfaceCommand::Close(self.surface())),
    {
        popups.signals.insert(self.id.0, true);
        push_surface_command(queue, SurfaceCommand::Close(self.id));
    }

    /// Whether the popup has been dismissed: after `close()` or a dismissal
    /// the compositor reported.
    pub fn dismissed(&self, popups: &PopupStates) -> (b: bool)
        requires
            popups.wf(),
        ensures
            b == (popups.dismissed_map().dom().contains(self.surface().0)
                && popups.dismissed_map()[self.surface().0]),
    {
        match popups.signals.get(self.id.0) {
            Some(v) => v,
            None => false,
        }
    }
}

/// The platform layer reports a popup dismissed (popup_done, or its close):
/// a registered popup leaves the registry and reads as dismissed; any other
/// id changes nothing.
pub fn mark_popup_dismissed(popups: &mut PopupStates, id: SurfaceId)
    requires
        old(popups).wf(),
    ensures
        final(popups).wf(),
        final(popups).registered() == old(popups).registered().remove(id.0),
        final(popups).dismissed_map() == (if old(popups).registered().contains(id.0) {
            old(popups).dismissed_map().insert(id.0, true)
        } else {
            old(popups).dismissed_map()
        }),
{
    if popups.registry.remove(id.0).is_some() {
        popups.signals.insert(id.0, true);
    }
}

/// Empty the registry (when the application shuts down); what handles read
/// is kept.
pub fn reset_popups(popups: &mut PopupStates)
    requires
        old(popups).wf(),
    ensures
        final(popups).wf(),
        final(popups).registered() == Set::<u64>::empty(),
        final(popups).dismissed_map() == old(popups).dismissed_map(),
{
    popups.registry.clear();
}

/// Spawn an xdg popup anchored to a parent surface: a fresh id, registered
/// and not yet dismissed, and a `CreatePopup` command for the loop.
pub fn spawn_popup<F>(
    ids: &mut SurfaceIdCounter,
    popups: &mut PopupStates,
    queue: &mut SurfaceCommands<F>,
    parent: SurfaceId,
    config: PopupConfig,
    widget_fn: F,
) -> (h: PopupHandle)
    requires
        old(popups).wf(),
    ensures
        h.surface().0 == old(ids).value(),
        (final(ids).value(), final(ids).wrapped()) == counter_step(old(ids).value(), old(ids).wrapped()),
        !old(ids).wrapped() ==> !old(ids).issued().contains(h.surface().0),
        final(ids).issued() == old(ids).issued().insert(h.surface().0),
        final(popups).wf(),
        final(popups).dismissed_map() == old(popups).dismissed_map().insert(h.surface().0, false),
        final(popups).registered() == old(popups).registered().insert(h.surface().0),
        final(queue)@ == old(queue)@.push(
            SurfaceCommand::CreatePopup { id: h.surface(), parent, config, widget_fn },
        ),
{
    let id = SurfaceId::next(ids);
    popups.signals.insert(id.0, false);
    popups.registry.insert(id.0, ());
    push_surface_command(queue, SurfaceCommand::CreatePopup { id, parent, config, widget_fn });
    PopupHandle { id }
}

/// The margin shorthands are CSS's, clockwise from the top: one value is
/// every edge, `[vertical, horizontal]` is `[v, h, v, h]`.
pub proof fn law_margin_shorthands(v: i32, h: i32)
    ensures
        <Margin as vstd::std_specs::convert::FromSpec<i32>>::from_spec(v) == <Margin as vstd::std_specs::convert::FromSpec<[i32; 4]>>::from_spec([v, v, v, v]),
        <Margin as vstd::std_specs::convert::FromSpec<[i32; 2]>>::from_spec([v, h]) == <Margin as vstd::std_specs::convert::FromSpec<[i32; 4]>>::from_spec([v, h, v, h]),
{
}

/// An axis the compositor owns is always asked for as zero, whatever the
/// configuration or the confirmed size; honouring an honoured size changes
/// nothing.
pub proof fn law_owned_axes_ask_zero(config: SurfaceConfig, live: Option<(u32, u32)>, w: u32, h: u32)
    ensures
        owns_width(config.anchor) ==> resize_spec(config, live).0 == 0,
        owns_height(config.anchor) ==> resize_spec(config, live).1 == 0,
        honoured(config.anchor, honoured(config.anchor, w, h).0, honoured(config.anchor, w, h).1)
            == honoured(config.anchor, w, h),
{
}

/// A resize asks for a measure only for a content axis the surface owns,
/// and a fixed axis asks for its own size whatever the compositor confirmed.
pub proof fn law_measure_only_for_owned_content(config: SurfaceConfig, live: Option<(u32, u32)>)
    ensures
        resize_spec(config, live).2 ==> (config.width is Content && !owns_width(config.anchor))
            || (config.height is Content && !owns_height(config.anchor)),
        (config.width is Fixed && config.height is Fixed) ==> !resize_spec(config, live).2,
        config.width matches SurfaceExtent::Fixed(v) ==> requested(config.width, None) == v
            && forall|c: u32| requested(config.width, Some(c)) == v,
{
}

/// The reservation policies other than `Auto` are numbers, and never consult
/// the anchor, the margin or the surface's size.
pub proof fn law_other_zones_ignore_surface(
    zone: ExclusiveZone,
    a1: Anchor,
    m1: Margin,
    w1: u32,
    h1: u32,
    a2: Anchor,
    m2: Margin,
    w2: u32,
    h2: u32,
)
    requires
        !(zone is Auto),
    ensures
        zone_value(zone, a1, m1, w1, h1) == zone_value(zone, a2, m2, w2, h2),
{
}

/// An `Auto` reservation counts the margin on the edge it is anchored to,
/// and only that one.
pub proof fn law_auto_counts_only_the_anchored_edge(anchor: Anchor, m1: Margin, m2: Margin, w: u32, h: u32)
    ensures
        (follow_axis_spec(anchor) == Some(FollowAxis::Height) && anchor.has_top() && m1.top
            == m2.top) ==> zone_value(ExclusiveZone::Auto, anchor, m1, w, h) == zone_value(
            ExclusiveZone::Auto,
            anchor,
            m2,
            w,
            h,
        ),
        (follow_axis_spec(anchor) == Some(FollowAxis::Height) && !anchor.has_top() && m1.bottom
            == m2.bottom) ==> zone_value(ExclusiveZone::Auto, anchor, m1, w, h) == zone_value(
            ExclusiveZone::Auto,
            anchor,
            m2,
            w,
            h,
        ),
        (follow_axis_spec(anchor) == Some(FollowAxis::Width) && anchor.has_left() && m1.left
            == m2.left) ==> zone_value(ExclusiveZone::Auto, anchor, m1, w, h) == zone_value(
            ExclusiveZone::Auto,
            anchor,
            m2,
            w,
            h,
        ),
        (follow_axis_spec(anchor) == Some(FollowAxis::Width) && !anchor.has_left() && m1.right
            == m2.right) ==> zone_value(ExclusiveZone::Auto, anchor, m1, w, h) == zone_value(
            ExclusiveZone::Auto,
            anchor,
            m2,
            w,
            h,
        ),
        follow_axis_spec(anchor) is None ==> zone_value(ExclusiveZone::Auto, anchor, m1, w, h) == 0,
{
}

/// Ids do not repeat before the counter wraps: from a counter at `value`,
/// the next `n` ids, while they fit below 2^64, are `value`, `value + 1`,
/// and so on, each larger than every one before it and so all different.
pub proof fn law_ids_never_repeat_before_wrap(value: u64, wrapped: bool, n: nat)
    requires
        value + n <= u64::MAX + 1,
    ensures
        forall|k: nat| k < n ==> #[trigger] counter_after(value, wrapped, k).0 == value + k,
        forall|i: nat, j: nat|
            i < j < n ==> #[trigger] counter_after(value, wrapped, i).0 < #[trigger] counter_after(
                value,
                wrapped,
                j,
            ).0,
{
    assert forall|k: nat| k < n implies #[trigger] counter_after(value, wrapped, k).0 == value + k by {
        lemma_counter_after(value, wrapped, k);
    }
    assert forall|i: nat, j: nat| i < j < n implies #[trigger] counter_after(value, wrapped, i).0
        < #[trigger] counter_after(value, wrapped, j).0 by {
        lemma_counter_after(value, wrapped, i);
        lemma_counter_after(value, wrapped, j);
    }
}

proof fn lemma_counter_after(value: u64, wrapped: bool, k: nat)
    requires
        value + k <= u64::MAX,
    ensures
        counter_after(value, wrapped, k) == ((value + k) as u64, wrapped),
    decreases k,
{
    if k > 0 {
        lemma_counter_after(value, wrapped, (k - 1) as nat);
    }
}

/// Commands are handed to the loop in the order they were queued: a push
/// then a drain gives back what was queued, and the new command last.
pub proof fn law_commands_drain_in_order<F>(queued: Seq<SurfaceCommand<F>>, cmd: SurfaceCommand<F>)
    ensures
        queued.push(cmd).last() == cmd,
        queued.push(cmd).drop_last() == queued,
{
    assert(queued.push(cmd).drop_last() =~= queued);
}

/// A resize asks for a measure exactly when some axis follows its content
/// and is not pinned to both of its screen edges (so the compositor does not
/// size it); an owned or fixed axis never asks.
pub proof fn law_measure_exactly_for_unowned_content(config: SurfaceConfig, live: Option<(u32, u32)>)
    ensures
        resize_spec(config, live).2 <==> ((config.width is Content && !(config.anchor.has_left()
            && config.anchor.has_right())) || (config.height is Content && !(config.anchor.has_top()
            && config.anchor.has_bottom()))),
{
}

} // verus!
