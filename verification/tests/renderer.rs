use guido::renderer::flatten::{CommandLayer, RegionsCarried, RenderLayer};
use guido::renderer::types::{Gradient, GradientDir};
use guido::platform::Color;
use guido::renderer_v2::flatten::RenderLayer as TreeLayer;

#[test]
fn a_group_with_any_command_is_not_empty() {
    let mut layer = CommandLayer::default();
    assert!(layer.is_empty());
    layer.text = 3..5;
    assert!(!layer.is_empty());
    layer.text = 5..5;
    assert!(layer.is_empty());
    layer.backdrop = 0..1;
    assert!(!layer.is_empty());
}

#[test]
fn layers_rank_from_backdrop_to_overlay() {
    assert_eq!(RenderLayer::default(), RenderLayer::Backdrop);
    assert_eq!(RenderLayer::Backdrop.index(), 0);
    assert_eq!(RenderLayer::Shapes.index(), 1);
    assert_eq!(RenderLayer::Images.index(), 2);
    assert_eq!(RenderLayer::Text.index(), 3);
    assert_eq!(RenderLayer::Overlay.index(), 4);
    assert_eq!(
        RegionsCarried::default(),
        RegionsCarried { compositor_blur: false, input_region: false }
    );
    let g = Gradient {
        start_color: Color::transparent(),
        end_color: Color::from_bits(0, 0, 0, 1.0f32.to_bits()),
        direction: GradientDir::Vertical,
    };
    assert_eq!(g.direction, GradientDir::Vertical);
}

use guido::renderer::flatten::{command_layer, frame_uses_backdrop, CommandKind, LayeredCommands, Mark};
use RenderLayer::{Backdrop, Images, Overlay, Shapes, Text};

/// Push each layer as a command (the command is its own layer), every one
/// meeting what is drawn above it, and report the groups as the layers each
/// holds, in draw order.
fn groups(sequence: &[RenderLayer]) -> Vec<Vec<RenderLayer>> {
    let mut layered = LayeredCommands::new();
    for layer in sequence {
        layered.push(*layer, *layer, true);
    }
    let mut commands = Vec::new();
    let mut layers = Vec::new();
    layered.drain_into(&mut commands, &mut layers);
    layers
        .iter()
        .map(|layer| {
            [&layer.shapes, &layer.images, &layer.text, &layer.overlay]
                .iter()
                .flat_map(|range| commands[(*range).clone()].iter().copied())
                .collect()
        })
        .collect()
}

#[test]
fn ascending_layers_stay_in_one_group() {
    assert_eq!(
        groups(&[Shapes, Shapes, Images, Text, Overlay]),
        vec![vec![Shapes, Shapes, Images, Text, Overlay]]
    );
}

#[test]
fn a_shape_after_an_image_opens_a_group() {
    assert_eq!(
        groups(&[Shapes, Images, Shapes]),
        vec![vec![Shapes, Images], vec![Shapes]]
    );
}

#[test]
fn an_image_after_text_opens_a_group() {
    assert_eq!(groups(&[Images, Text, Images]), vec![vec![Images, Text], vec![Images]]);
}

#[test]
fn repeats_of_the_current_layer_do_not_split() {
    assert_eq!(groups(&[Images, Images, Images]), vec![vec![Images, Images, Images]]);
}

#[test]
fn each_regression_opens_exactly_one_group() {
    assert_eq!(
        groups(&[Shapes, Images, Shapes, Images, Shapes]),
        vec![vec![Shapes, Images], vec![Shapes, Images], vec![Shapes]]
    );
}

#[test]
fn a_group_is_reopened_only_below_its_high_water_mark() {
    assert_eq!(groups(&[Shapes, Text, Images]), vec![vec![Shapes, Text], vec![Images]]);
}

#[test]
fn replaying_a_cached_subtree_reproduces_its_grouping() {
    let sequence = [Shapes, Images, Shapes, Text, Images];

    let mut original = LayeredCommands::new();
    for layer in sequence {
        original.push(layer, layer, true);
    }
    let cached: Vec<RenderLayer> = original
        .commands_since(Mark { groups: 1, buckets: [0; 5] })
        .into_iter()
        .copied()
        .collect();

    let mut replayed = LayeredCommands::new();
    for cmd in cached {
        replayed.push(cmd, cmd, true);
    }

    let (mut a_cmds, mut a_layers) = (Vec::new(), Vec::new());
    original.drain_into(&mut a_cmds, &mut a_layers);
    let (mut b_cmds, mut b_layers) = (Vec::new(), Vec::new());
    replayed.drain_into(&mut b_cmds, &mut b_layers);

    assert_eq!(a_layers.len(), b_layers.len());
    let order = |cmds: &[RenderLayer], layers: &[CommandLayer]| -> Vec<RenderLayer> {
        layers
            .iter()
            .flat_map(|l| {
                [&l.shapes, &l.images, &l.text, &l.overlay]
                    .iter()
                    .flat_map(|r| cmds[(*r).clone()].iter().copied())
                    .collect::<Vec<_>>()
            })
            .collect()
    };
    assert_eq!(order(&a_cmds, &a_layers), order(&b_cmds, &b_layers));
}

#[test]
fn a_regression_that_covers_nothing_stays_in_the_group() {
    // Sibling widgets each paint a background then a label, side by side:
    // each background lands where no label is, so it covers nothing above.
    let mut layered = LayeredCommands::new();
    for column in 0..4 {
        layered.push(column, Shapes, false);
        layered.push(column, Text, false);
    }
    let mut commands = Vec::new();
    let mut layers = Vec::new();
    layered.drain_into(&mut commands, &mut layers);
    assert_eq!(layers.len(), 1, "non-overlapping siblings must not split");
}

#[test]
fn a_regression_that_covers_something_still_splits() {
    let mut layered = LayeredCommands::new();
    layered.push(0, Text, false);
    // Lands on top of the label, so it has to be drawn after it.
    assert!(layered.push(1, Shapes, true));
    let mut commands = Vec::new();
    let mut layers = Vec::new();
    layered.drain_into(&mut commands, &mut layers);
    assert_eq!(layers.len(), 2);
}

#[test]
fn an_unbounded_command_forces_a_split() {
    // A command with no bounds to test is taken to cover everything.
    let mut layered = LayeredCommands::new();
    layered.push(0, Text, false);
    assert!(layered.regresses(Shapes));
    layered.push(1, Shapes, true);
    let mut commands = Vec::new();
    let mut layers = Vec::new();
    layered.drain_into(&mut commands, &mut layers);
    assert_eq!(layers.len(), 2);
}

#[test]
fn a_mark_survives_a_later_command_landing_in_an_earlier_bucket() {
    let mut layered = LayeredCommands::new();
    layered.push((Text, 0), Text, false);

    let mark = layered.mark();
    // Does not overlap the text, so it joins the same group and slots into
    // the shapes bucket, ahead of the text already there.
    assert!(!layered.push((Shapes, 500), Shapes, false));
    layered.push((Text, 500), Text, false);

    let captured = layered.commands_since(mark);
    assert_eq!(captured.len(), 2, "the mark must not sweep up the earlier text");
    assert_eq!(captured[0].0, Shapes);
    assert_eq!(captured[1].0, Text);
}

#[test]
fn empty_groups_are_dropped() {
    let mut layered = LayeredCommands::new();
    layered.push(Images, Images, true);
    layered.push(Shapes, Shapes, true);
    let mut commands = Vec::new();
    let mut layers = Vec::new();
    layered.drain_into(&mut commands, &mut layers);
    assert!(layers.iter().all(|layer| !layer.is_empty()));
    // The first group, the frame's seed, holds the image; the shape opened
    // the second.
    assert_eq!(layers.len(), 2);
    assert_eq!(commands, vec![Images, Shapes]);
}

#[test]
fn an_input_declaration_is_carried_without_costing_a_group() {
    // A background, then an input region declared over it: the region
    // travels with the shapes and draws nothing.
    let mut layered = LayeredCommands::new();
    layered.push("background", Shapes, true);
    layered.push_input_declaration("input region", command_layer(CommandKind::InputRegion));

    assert!(layered.carried().input_region, "the frame carries a declaration");
    let mut commands = Vec::new();
    let mut layers = Vec::new();
    layered.drain_into(&mut commands, &mut layers);
    assert_eq!(layers.len(), 1, "and it splits nothing to say it");
    assert_eq!(commands.len(), 2, "while still travelling with the frame");
}

#[test]
fn a_compositor_only_blur_neither_breaks_the_pass_nor_splits_the_group() {
    // A blur the compositor applies travels with the shapes and is noted for
    // the compositor; one this renderer draws is a backdrop effect over the
    // background, which splits the group.
    let frame = |for_compositor: bool| {
        let mut layered = LayeredCommands::new();
        layered.push("background", command_layer(CommandKind::Shape), true);
        if for_compositor {
            layered.note_compositor_blur();
        }
        let blur = command_layer(CommandKind::BackdropBlur { drawn_here: !for_compositor });
        layered.push("blur", blur, true);
        let told = layered.carried().compositor_blur;
        let (mut commands, mut layers) = (Vec::new(), Vec::new());
        layered.drain_into(&mut commands, &mut layers);
        let drawn = frame_uses_backdrop(&layers);
        assert_eq!(drawn, layers.iter().any(|l| !l.backdrop.is_empty()));
        (told, drawn, layers.len())
    };

    let (told, drawn, groups) = frame(true);
    assert!(told, "the compositor still has to be handed a region");
    assert!(!drawn, "and this renderer has nothing to do for it");
    assert_eq!(groups, 1, "so the frame is not split for it either");

    let (told, drawn, groups) = frame(false);
    assert!(!told, "nothing for the compositor");
    assert!(drawn, "and a pass of our own to run");
    assert_eq!(groups, 2, "which is what the split is for");
}

#[test]
fn a_replay_of_covered_commands_gives_back_the_same_groups() {
    // The replay law on a longer run, regressions at several depths.
    let sequence = [Text, Shapes, Overlay, Images, Backdrop, Shapes, Text, Shapes, Images];
    assert_eq!(groups(&sequence).len(), 5);
    let mut original = LayeredCommands::new();
    for layer in sequence {
        original.push(layer, layer, true);
    }
    let cached: Vec<RenderLayer> = original
        .commands_since(Mark { groups: 1, buckets: [0; 5] })
        .into_iter()
        .copied()
        .collect();
    assert_eq!(groups(&cached), groups(&sequence));
}

#[test]
fn the_render_tree_layers_order_shapes_text_overlay() {
    assert!(TreeLayer::Shapes < TreeLayer::Text);
    assert!(TreeLayer::Text < TreeLayer::Overlay);
}

#[test]
fn the_layers_compare_in_draw_order() {
    assert!(Backdrop < Shapes && Shapes < Images && Images < Text && Text < Overlay);
    assert_eq!(Shapes.max(Text), Text);
}

#[test]
fn each_kind_of_command_has_its_layer() {
    assert_eq!(command_layer(CommandKind::Text), Text);
    assert_eq!(command_layer(CommandKind::Image), Images);
    assert_eq!(command_layer(CommandKind::Shape), Shapes);
    assert_eq!(command_layer(CommandKind::InputRegion), Shapes);
    assert_eq!(command_layer(CommandKind::BackdropBlur { drawn_here: false }), Shapes);
    assert_eq!(command_layer(CommandKind::BackdropBlur { drawn_here: true }), Backdrop);
    assert_eq!(command_layer(CommandKind::TextBackdropBlur), Backdrop);
    assert!(!frame_uses_backdrop(&Vec::new()));
}
