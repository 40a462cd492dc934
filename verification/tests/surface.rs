use guido::platform::{Anchor, Color, KeyboardInteractivity, Layer, OutputId, Rect};
use guido::surface::{
    compositor_owned_axes, content, drain_surface_commands, honour_owned_axes,
    mark_popup_dismissed, push_surface_command, requested_extent, reset_popups,
    reset_surface_commands, resize_request, spawn_popup, spawn_surface, surface_commands_pending,
    surface_handle, warn_content_on_stretched_axis, warn_size_request_on_stretched_axis,
    ExclusiveZone, FollowAxis, Margin, PopupAnchor, PopupConfig, PopupStates, SurfaceCommand,
    SurfaceCommands, SurfaceConfig, SurfaceExtent, SurfaceId, SurfaceIdCounter,
};

fn top_left_right() -> Anchor {
    Anchor::top().union(Anchor::left()).union(Anchor::right())
}

/// The shorthands are a padding's, edge by edge: one value, all(),
/// `[vertical, horizontal]` and `[top, right, bottom, left]`.
#[test]
fn a_margin_converts_exactly_as_a_padding_does() {
    let same = |m: Margin, p: [f32; 4], what: &str| {
        assert_eq!(m.top as f32, p[0], "{what}: top");
        assert_eq!(m.right as f32, p[1], "{what}: right");
        assert_eq!(m.bottom as f32, p[2], "{what}: bottom");
        assert_eq!(m.left as f32, p[3], "{what}: left");
    };

    same(Margin::from(8), [8.0, 8.0, 8.0, 8.0], "one value");
    same(Margin::all(8), [8.0, 8.0, 8.0, 8.0], "all(), the named form");
    same(Margin::from([4, 12]), [4.0, 12.0, 4.0, 12.0], "[vertical, horizontal]");
    same(Margin::from([1, 2, 3, 4]), [1.0, 2.0, 3.0, 4.0], "[top, right, bottom, left]");

    assert_eq!(
        Margin::from([1, 2, 3, 4]),
        Margin {
            top: 1,
            right: 2,
            bottom: 3,
            left: 4
        }
    );
    assert_eq!(
        Margin::from([4, 12]),
        Margin {
            top: 4,
            right: 12,
            bottom: 4,
            left: 12
        }
    );
}

/// An `Auto` reservation counts the margin on the edge it is anchored to,
/// and only that one.
#[test]
fn an_auto_zone_adds_the_anchored_edges_margin() {
    let margin = Margin::from([6, 20, 9, 20]);
    let top = ExclusiveZone::Auto.resolve(Anchor::top(), margin, 800, 32);
    assert_eq!(top, 32 + 6);

    let bottom = ExclusiveZone::Auto.resolve(Anchor::bottom(), margin, 800, 32);
    assert_eq!(bottom, 32 + 9);

    let left = ExclusiveZone::Auto.resolve(Anchor::left(), margin, 48, 600);
    assert_eq!(left, 48 + 20);
}

/// The other policies are numbers, and never consult anything.
#[test]
fn the_other_zone_policies_ignore_the_surface() {
    let m = Margin::all(10);
    assert_eq!(ExclusiveZone::Nothing.resolve(Anchor::top(), m, 800, 32), 0);
    assert_eq!(ExclusiveZone::Ignore.resolve(Anchor::top(), m, 800, 32), -1);
    assert_eq!(
        ExclusiveZone::from(34u32).resolve(Anchor::top(), m, 800, 32),
        34
    );
}

#[test]
fn an_auto_zone_on_a_bar_spanning_the_width_follows_its_height() {
    let margin = Margin::from([5, 7, 9, 11]);
    assert_eq!(
        ExclusiveZone::follow_axis(top_left_right()),
        Some(FollowAxis::Height)
    );
    assert_eq!(
        ExclusiveZone::Auto.resolve(top_left_right(), margin, 1920, 30),
        35
    );
    let dock = Anchor::right().union(Anchor::top()).union(Anchor::bottom());
    assert_eq!(ExclusiveZone::follow_axis(dock), Some(FollowAxis::Width));
    assert_eq!(ExclusiveZone::Auto.resolve(dock, margin, 64, 1080), 71);
}

#[test]
fn an_auto_zone_on_a_corner_or_nothing_reserves_nothing() {
    let m = Margin::all(10);
    let corner = Anchor::top().union(Anchor::left());
    assert_eq!(ExclusiveZone::follow_axis(corner), None);
    assert_eq!(ExclusiveZone::Auto.resolve(corner, m, 100, 100), 0);
    assert_eq!(ExclusiveZone::follow_axis(Anchor::empty()), None);
    assert_eq!(ExclusiveZone::Auto.resolve(Anchor::empty(), m, 100, 100), 0);
    let everything = corner.union(Anchor::bottom()).union(Anchor::right());
    assert_eq!(ExclusiveZone::Auto.resolve(everything, m, 100, 100), 0);
}

#[test]
fn a_negative_margin_lowers_the_zone() {
    let m = Margin::from([-4, 0, 0, 0]);
    assert_eq!(ExclusiveZone::Auto.resolve(Anchor::top(), m, 800, 32), 28);
}

#[test]
fn a_fixed_zone_past_i32_keeps_its_bits() {
    let m = Margin::all(0);
    assert_eq!(
        ExclusiveZone::Fixed(u32::MAX).resolve(Anchor::top(), m, 1, 1),
        -1
    );
}

#[test]
fn only_an_axis_pinned_to_both_edges_is_the_compositors() {
    assert_eq!(compositor_owned_axes(top_left_right()), (true, false));
    assert_eq!(compositor_owned_axes(Anchor::top()), (false, false));
    let full = top_left_right().union(Anchor::bottom());
    assert_eq!(compositor_owned_axes(full), (true, true));
    assert_eq!(honour_owned_axes(top_left_right(), 300, 32), (0, 32));
    assert_eq!(honour_owned_axes(full, 300, 32), (0, 0));
    assert_eq!(honour_owned_axes(Anchor::empty(), 300, 32), (300, 32));
}

#[test]
fn a_content_axis_asks_for_the_confirmed_size_or_one_pixel() {
    assert_eq!(requested_extent(SurfaceExtent::Fixed(40), Some(99)), 40);
    assert_eq!(requested_extent(content(), Some(99)), 99);
    assert_eq!(requested_extent(content(), None), 1);
    assert_eq!(SurfaceExtent::Content.initial(), 1);
    assert_eq!(SurfaceExtent::Fixed(7).initial(), 7);
    assert!(content().is_content());
    assert!(!SurfaceExtent::from(3u32).is_content());
    assert_eq!(SurfaceExtent::from(-5i32), SurfaceExtent::Fixed(0));
    assert_eq!(SurfaceExtent::from(5i32), SurfaceExtent::Fixed(5));
}

#[test]
fn a_resize_holds_a_content_axis_and_asks_for_a_measure() {
    let config = SurfaceConfig::new().width(360u32).height(content());
    assert_eq!(resize_request(&config, Some((360, 120))), (360, 120, true));
    assert_eq!(resize_request(&config, None), (360, 1, true));

    let fixed = SurfaceConfig::new().width(360u32).height(80u32);
    assert_eq!(resize_request(&fixed, Some((1, 2))), (360, 80, false));
}

#[test]
fn a_content_axis_the_compositor_owns_is_not_measured() {
    let bar = SurfaceConfig::new()
        .width(content())
        .height(32u32)
        .anchor(top_left_right());
    assert_eq!(resize_request(&bar, Some((1920, 32))), (0, 32, false));
    assert!(warn_content_on_stretched_axis(&bar));
    assert_eq!(
        warn_size_request_on_stretched_axis(&bar),
        (Some(SurfaceExtent::Content), None)
    );

    let fixed_bar = SurfaceConfig::new().height(32u32).anchor(top_left_right());
    assert!(!warn_content_on_stretched_axis(&fixed_bar));
    assert_eq!(
        warn_size_request_on_stretched_axis(&fixed_bar),
        (Some(SurfaceExtent::Fixed(400)), None)
    );
}

#[test]
fn a_new_config_has_the_documented_defaults() {
    let c = SurfaceConfig::new();
    assert_eq!(c.width, SurfaceExtent::Fixed(400));
    assert_eq!(c.height, SurfaceExtent::Fixed(300));
    assert_eq!(c.anchor, Anchor::empty());
    assert_eq!(c.layer, Layer::Top);
    assert_eq!(c.keyboard_interactivity, KeyboardInteractivity::OnDemand);
    assert_eq!(c.namespace, "guido-surface");
    assert_eq!(f32::from_bits(c.background_color.r_bits), 0.1);
    assert_eq!(f32::from_bits(c.background_color.g_bits), 0.1);
    assert_eq!(f32::from_bits(c.background_color.b_bits), 0.15);
    assert_eq!(f32::from_bits(c.background_color.a_bits), 1.0);
    assert_eq!(c.exclusive_zone, ExclusiveZone::Nothing);
    assert!(c.margin.is_zero());
    assert_eq!(c.margin, Margin::default());
    assert_eq!(c.output, None);
    assert!(c.input_region.is_none());
}

#[test]
fn each_builder_sets_its_own_field() {
    let red = Color::from_bits(1.0f32.to_bits(), 0, 0, 1.0f32.to_bits());
    let c = SurfaceConfig::new()
        .width(300u32)
        .height(200u32)
        .anchor(Anchor::top().union(Anchor::right()))
        .layer(Layer::Overlay)
        .keyboard_interactivity(KeyboardInteractivity::Exclusive)
        .namespace("my-popup")
        .background_color(red)
        .exclusive_zone(34u32)
        .margin([8, 12])
        .output(OutputId(3));
    assert_eq!(c.width, SurfaceExtent::Fixed(300));
    assert_eq!(c.height, SurfaceExtent::Fixed(200));
    assert_eq!(c.anchor.bits, 1 | 8);
    assert_eq!(c.layer, Layer::Overlay);
    assert_eq!(c.keyboard_interactivity, KeyboardInteractivity::Exclusive);
    assert_eq!(c.namespace, "my-popup");
    assert_eq!(c.background_color, red);
    assert_eq!(c.exclusive_zone, ExclusiveZone::Fixed(34));
    assert_eq!(c.margin, Margin::from([8, 12, 8, 12]));
    assert!(!c.margin.is_zero());
    assert_eq!(c.output, Some(OutputId(3)));

    let r = Rect::from_bits(0, 0, 10.0f32.to_bits(), 10.0f32.to_bits());
    let c = c.input_region(vec![r]);
    assert_eq!(c.input_region, Some(vec![r]));
    let c = c.click_through();
    assert_eq!(c.input_region, Some(Vec::new()));
}

#[test]
fn a_u32_margin_wraps_into_an_i32() {
    assert_eq!(Margin::from(5u32), Margin::all(5));
    assert_eq!(Margin::from(u32::MAX), Margin::all(-1));
}

#[test]
fn a_popup_config_starts_content_sized_below_its_anchor() {
    let p = PopupConfig::new(250);
    assert_eq!(p.width, 250);
    assert_eq!(p.height, None);
    assert_eq!(p.anchor, PopupAnchor::Bottom);
    assert_eq!(p.gravity, PopupAnchor::Bottom);
    assert_eq!(p.offset, (0, 0));
    assert!(!p.grab);
    assert_eq!(p.background_color, Color::transparent());
    assert_eq!(f32::from_bits(p.anchor_rect.width_bits), 1.0);
    assert_eq!(f32::from_bits(p.anchor_rect.height_bits), 1.0);

    let rect = Rect::from_bits(1, 2, 3, 4);
    let p = p
        .height(120)
        .anchor_rect(rect)
        .anchor(PopupAnchor::TopLeft)
        .gravity(PopupAnchor::Right)
        .offset(4, -2)
        .grab()
        .background_color(Color::from_bits(1, 2, 3, 4));
    assert_eq!(p.height, Some(120));
    assert_eq!(p.anchor_rect, rect);
    assert_eq!(p.anchor, PopupAnchor::TopLeft);
    assert_eq!(p.gravity, PopupAnchor::Right);
    assert_eq!(p.offset, (4, -2));
    assert!(p.grab);
    assert_eq!(p.background_color, Color::from_bits(1, 2, 3, 4));
    assert_eq!(PopupAnchor::default(), PopupAnchor::Center);
}

#[test]
fn surface_ids_count_up_from_zero() {
    let mut ids = SurfaceIdCounter::new();
    let a = SurfaceId::next(&mut ids);
    let b = SurfaceId::next(&mut ids);
    assert_eq!(a.raw(), 0);
    assert_eq!(b.raw(), 1);
    assert_ne!(a, b);
    let mut seen = vec![a, b];
    for _ in 0..100 {
        let id = SurfaceId::next(&mut ids);
        assert!(!seen.contains(&id));
        assert!(id.raw() > seen.last().unwrap().raw());
        seen.push(id);
    }
}

#[test]
fn an_extent_a_zone_or_a_margin_can_be_given_as_itself() {
    let c = SurfaceConfig::new()
        .width(content())
        .height(SurfaceExtent::Fixed(32))
        .exclusive_zone(ExclusiveZone::Auto)
        .margin(Margin { top: 1, right: 2, bottom: 3, left: 4 });
    assert_eq!(c.width, SurfaceExtent::Content);
    assert_eq!(c.height, SurfaceExtent::Fixed(32));
    assert_eq!(c.exclusive_zone, ExclusiveZone::Auto);
    assert_eq!(c.margin, Margin { top: 1, right: 2, bottom: 3, left: 4 });
    let c = c.width(-5i32).exclusive_zone(0u32).margin([4, 12]);
    assert_eq!(c.width, SurfaceExtent::Fixed(0));
    assert_eq!(c.exclusive_zone, ExclusiveZone::Fixed(0));
    assert_eq!(c.margin, Margin { top: 4, right: 12, bottom: 4, left: 12 });
}

#[test]
fn spawning_queues_a_create_and_handles_queue_their_changes() {
    let mut ids = SurfaceIdCounter::new();
    let mut queue: SurfaceCommands<&'static str> = SurfaceCommands::new();
    assert!(!surface_commands_pending(&queue));

    let handle = spawn_surface(&mut ids, &mut queue, SurfaceConfig::new(), "bar");
    assert_eq!(handle.id(), SurfaceId(0));
    assert!(surface_commands_pending(&queue));

    handle.set_layer(&mut queue, Layer::Overlay);
    handle.set_keyboard_interactivity(&mut queue, KeyboardInteractivity::NoFocus);
    handle.set_anchor(&mut queue, Anchor::bottom());
    handle.set_size(&mut queue, 200u32, content());
    handle.set_exclusive_zone(&mut queue, ExclusiveZone::Auto);
    handle.set_margin(&mut queue, 6);
    handle.set_input_region(&mut queue, None);
    handle.close(&mut queue);

    let cmds = drain_surface_commands(&mut queue);
    assert!(!surface_commands_pending(&queue));
    assert_eq!(cmds.len(), 9);
    match &cmds[0] {
        SurfaceCommand::Create { id, config, widget_fn } => {
            assert_eq!(*id, SurfaceId(0));
            assert_eq!(config.width, SurfaceExtent::Fixed(400));
            assert_eq!(*widget_fn, "bar");
        }
        _ => panic!("the spawn comes first"),
    }
    assert!(matches!(cmds[1], SurfaceCommand::SetLayer { id: SurfaceId(0), layer: Layer::Overlay }));
    assert!(matches!(
        cmds[2],
        SurfaceCommand::SetKeyboardInteractivity { id: SurfaceId(0), mode: KeyboardInteractivity::NoFocus }
    ));
    assert!(matches!(cmds[3], SurfaceCommand::SetAnchor { id: SurfaceId(0), anchor: Anchor { bits: 2 } }));
    assert!(matches!(
        cmds[4],
        SurfaceCommand::SetSize { id: SurfaceId(0), width: SurfaceExtent::Fixed(200), height: SurfaceExtent::Content }
    ));
    assert!(matches!(
        cmds[5],
        SurfaceCommand::SetExclusiveZone { id: SurfaceId(0), zone: ExclusiveZone::Auto }
    ));
    match &cmds[6] {
        SurfaceCommand::SetMargin { id, margin } => {
            assert_eq!(*id, SurfaceId(0));
            assert_eq!(*margin, Margin::all(6));
        }
        _ => panic!("a margin"),
    }
    assert!(matches!(cmds[7], SurfaceCommand::SetInputRegion { id: SurfaceId(0), rects: None }));
    assert!(matches!(cmds[8], SurfaceCommand::Close(SurfaceId(0))));
}

#[test]
fn a_handle_for_an_existing_surface_targets_it() {
    let mut queue: SurfaceCommands<()> = SurfaceCommands::new();
    let handle = surface_handle(SurfaceId(42));
    assert_eq!(handle.id(), SurfaceId(42));
    handle.close(&mut queue);
    push_surface_command(&mut queue, SurfaceCommand::Close(SurfaceId(7)));
    let cmds = drain_surface_commands(&mut queue);
    assert!(matches!(cmds[0], SurfaceCommand::Close(SurfaceId(42))));
    assert!(matches!(cmds[1], SurfaceCommand::Close(SurfaceId(7))));
}

#[test]
fn resetting_the_queue_drops_stale_commands() {
    let mut queue: SurfaceCommands<()> = SurfaceCommands::new();
    surface_handle(SurfaceId(1)).close(&mut queue);
    reset_surface_commands(&mut queue);
    assert!(!surface_commands_pending(&queue));
    assert!(drain_surface_commands(&mut queue).is_empty());
}

#[test]
fn a_popup_is_dismissed_by_its_close_or_by_the_compositor() {
    let mut ids = SurfaceIdCounter::new();
    let mut popups = PopupStates::new();
    let mut queue: SurfaceCommands<u8> = SurfaceCommands::new();

    let menu = spawn_popup(
        &mut ids,
        &mut popups,
        &mut queue,
        SurfaceId(9),
        PopupConfig::new(250).grab(),
        1,
    );
    let tooltip = spawn_popup(&mut ids, &mut popups, &mut queue, SurfaceId(9), PopupConfig::new(80), 2);
    assert_eq!(menu.id(), SurfaceId(0));
    assert_eq!(tooltip.id(), SurfaceId(1));
    assert!(!menu.dismissed(&popups));
    assert!(!tooltip.dismissed(&popups));

    match &drain_surface_commands(&mut queue)[0] {
        SurfaceCommand::CreatePopup { id, parent, config, widget_fn } => {
            assert_eq!(*id, SurfaceId(0));
            assert_eq!(*parent, SurfaceId(9));
            assert!(config.grab);
            assert_eq!(*widget_fn, 1);
        }
        _ => panic!("a popup"),
    }

    // The compositor dismisses the menu (a click outside its grab).
    mark_popup_dismissed(&mut popups, menu.id());
    assert!(menu.dismissed(&popups));
    assert!(!tooltip.dismissed(&popups));

    // The tooltip is closed by the application.
    tooltip.close(&mut popups, &mut queue);
    assert!(tooltip.dismissed(&popups));
    assert!(matches!(
        drain_surface_commands(&mut queue)[0],
        SurfaceCommand::Close(SurfaceId(1))
    ));
}

#[test]
fn a_report_for_an_unregistered_popup_changes_nothing() {
    let mut ids = SurfaceIdCounter::new();
    let mut popups = PopupStates::new();
    let mut queue: SurfaceCommands<()> = SurfaceCommands::new();
    let popup = spawn_popup(&mut ids, &mut popups, &mut queue, SurfaceId(5), PopupConfig::new(10), ());
    reset_popups(&mut popups);
    mark_popup_dismissed(&mut popups, popup.id());
    assert!(!popup.dismissed(&popups), "no longer registered, so not reported");
}

#[test]
fn surfaces_and_popups_draw_their_ids_from_one_counter() {
    let mut ids = SurfaceIdCounter::new();
    let mut queue: SurfaceCommands<u8> = SurfaceCommands::new();
    let mut popups = PopupStates::new();
    let bar = spawn_surface(&mut ids, &mut queue, SurfaceConfig::new(), 0);
    let menu = spawn_popup(&mut ids, &mut popups, &mut queue, bar.id(), PopupConfig::new(100), 1);
    let other = spawn_surface(&mut ids, &mut queue, SurfaceConfig::new(), 2);
    assert_ne!(bar.id(), menu.id());
    assert_ne!(menu.id(), other.id());
    assert_ne!(bar.id(), other.id());
    assert!(!menu.dismissed(&popups));
}
