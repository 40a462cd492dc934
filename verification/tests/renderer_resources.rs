use guido::renderer::backdrop_pass::{clamp_region, BackdropTargets, IDLE_FRAMES_BEFORE_RELEASE};
use guido::renderer::clip::{forget_inherited_clip, CachedClip, CachedParent, ClipIndex, ClipTree, Under};
use guido::renderer::image_quad::{self, texture_bytes, ImageQuadCache, KEEP_UNUSED_NANOS};
use guido::renderer::image_texture::{CacheKey, ImageTextureCache, MAX_CACHED_TEXTURES};
use guido::renderer::render::instance_capacity;
use guido::renderer::text::ShapedBufferCache;
use guido::renderer::text_mask::{mask_refused, MaskCache, MaskKey, MaskStyle, MAX_CACHED};
use guido::renderer::text_quad::{TextCacheKey, TextQuadCache, TextStyle, MAX_CACHED_TEXTS};

fn key(n: u64) -> CacheKey {
    CacheKey { source_hash: n, render_scale: 0 }
}

#[test]
fn past_the_limit_a_new_frame_keeps_the_most_recently_drawn_half() {
    let mut cache = ImageTextureCache::new();
    assert_eq!(cache.len(), 0);
    for n in 0..=(MAX_CACHED_TEXTURES as u64) {
        cache.begin_frame();
        cache.insert(key(n), n);
    }
    // One over the limit until the next frame begins.
    assert_eq!(cache.len(), MAX_CACHED_TEXTURES + 1);
    cache.begin_frame();
    assert_eq!(cache.len(), MAX_CACHED_TEXTURES / 2);
    assert!(!cache.lookup(key(0)));
    assert!(!cache.lookup(key(32)));
    assert!(cache.lookup(key(33)));
    assert_eq!(cache.get(key(64)), Some(&64));
}

#[test]
fn a_texture_drawn_again_outlives_older_ones() {
    let mut cache = ImageTextureCache::new();
    for n in 0..=(MAX_CACHED_TEXTURES as u64) {
        cache.begin_frame();
        cache.insert(key(n), n);
    }
    // The very first texture is drawn in the latest frame.
    assert!(cache.lookup(key(0)));
    cache.begin_frame();
    assert_eq!(cache.get(key(0)), Some(&0));
    assert_eq!(cache.get(key(33)), None);
    assert_eq!(cache.get(key(34)), Some(&34));
}

#[test]
fn within_the_limit_a_frame_evicts_nothing() {
    let mut cache = ImageTextureCache::new();
    cache.insert(key(1), "a");
    cache.insert(key(1), "b");
    cache.insert(CacheKey { source_hash: 1, render_scale: 8 }, "svg at 2x");
    assert_eq!(cache.len(), 2);
    for _ in 0..1000 {
        cache.begin_frame();
    }
    assert_eq!(cache.len(), 2);
    assert_eq!(cache.get(key(1)), Some(&"b"));
    assert_eq!(cache.get(CacheKey { source_hash: 1, render_scale: 8 }), Some(&"svg at 2x"));
    assert_eq!(cache.get(key(2)), None);
}

#[test]
fn a_texture_costs_every_mip_level() {
    assert_eq!(texture_bytes(256, 256, 1, 4), 262_144);
    assert_eq!(texture_bytes(256, 256, 9, 4), 4 * 87_381);
    assert_eq!(texture_bytes(300, 200, 3, 4), 4 * (60_000 + 15_000 + 3_750));
    // A side never halves below one texel.
    assert_eq!(texture_bytes(4, 1, 3, 4), 4 * (4 + 2 + 1));
    assert_eq!(texture_bytes(0, 0, 1, 4), 4);
    assert_eq!(texture_bytes(64, 64, 0, 4), 0);
}

fn qkey(n: u64) -> image_quad::CacheKey {
    image_quad::CacheKey { source_hash: n, svg_variant: 0 }
}

const SECOND: u64 = 1_000_000_000;

#[test]
fn a_trim_evicts_only_textures_idle_for_longer_than_the_grace() {
    let mut cache = ImageQuadCache::new(0);
    cache.insert(qkey(1), 'a', 1000);
    cache.begin_frame(2 * SECOND);
    cache.insert(qkey(2), 'b', 1000);
    assert_eq!(cache.cached_bytes(), 2000);

    cache.begin_frame(2 * SECOND + SECOND / 2);
    cache.trim(1500);
    assert_eq!(cache.cached_bytes(), 1000);
    assert!(!cache.lookup(qkey(1)));
    assert!(cache.lookup(qkey(2)));

    // The survivor was drawn this frame: no budget evicts it.
    cache.trim(0);
    assert_eq!(cache.cached_bytes(), 1000);
    assert_eq!(cache.get(qkey(2)), Some(&'b'));
}

#[test]
fn a_trim_goes_oldest_first_and_stops_once_within_budget() {
    let mut cache = ImageQuadCache::new(0);
    for n in 0..4u64 {
        cache.begin_frame(n * SECOND);
        cache.insert(qkey(n), n, 100);
    }
    cache.begin_frame(10 * SECOND);
    cache.trim(250);
    assert_eq!(cache.cached_bytes(), 200);
    assert_eq!(cache.get(qkey(0)), None);
    assert_eq!(cache.get(qkey(1)), None);
    assert_eq!(cache.get(qkey(2)), Some(&2));
    assert_eq!(cache.get(qkey(3)), Some(&3));
}

#[test]
fn exactly_the_grace_period_is_not_idle() {
    let mut cache = ImageQuadCache::new(5);
    cache.insert(qkey(7), (), 10);
    cache.begin_frame(5 + KEEP_UNUSED_NANOS);
    cache.trim(0);
    assert_eq!(cache.cached_bytes(), 10);
    cache.begin_frame(6 + KEEP_UNUSED_NANOS);
    cache.trim(0);
    assert_eq!(cache.cached_bytes(), 0);
}

#[test]
fn replacing_a_texture_counts_its_bytes_once() {
    let mut cache = ImageQuadCache::new(0);
    cache.insert(qkey(1), 1, 300);
    cache.insert(qkey(1), 2, 500);
    assert_eq!(cache.cached_bytes(), 500);
    assert_eq!(cache.get(qkey(1)), Some(&2));
}

#[test]
fn a_replayed_run_hangs_its_clips_where_they_hung() {
    // root clip, then a subtree: a clip beside, an outer clip, an inner
    // clip under the outer one, and an overlay clip under nothing.
    let mut tree = ClipTree::new();
    let root = tree.push("root", Under::Inherited(None));
    let mark = tree.mark();
    tree.push("beside", Under::Inherited(Some(root)));
    let outer = tree.push("outer", Under::Inherited(Some(root)));
    tree.push("inner", Under::Inherited(Some(outer)));
    tree.push("ripple", Under::Nothing);

    let run: Vec<CachedClip<&str>> = tree
        .since(mark)
        .into_iter()
        .map(|c| CachedClip { clip: *c.clip, parent: c.parent })
        .collect();
    let parents: Vec<CachedParent> = run.iter().map(|c| c.parent).collect();
    assert_eq!(
        parents,
        vec![
            CachedParent::Inherited,
            CachedParent::Inherited,
            CachedParent::Within(1),
            CachedParent::Nothing,
        ]
    );

    // Put back where it was, under the same root: every link as before.
    let mut again = ClipTree::new();
    let root_again = again.push("root", Under::Inherited(None));
    again.replay(run, Some(root_again));
    assert_eq!(again.mark(), 5);
    for i in 0..5 {
        assert_eq!(again.under(ClipIndex(i)), tree.under(ClipIndex(i)));
        assert_eq!(again.clip(ClipIndex(i)), tree.clip(ClipIndex(i)));
    }
}

#[test]
fn a_run_put_back_elsewhere_follows_its_new_place() {
    let mut tree = ClipTree::new();
    tree.push(0, Under::Inherited(None));
    let a = tree.push(1, Under::Inherited(Some(ClipIndex(0))));
    tree.push(2, Under::Inherited(Some(a)));
    let run: Vec<CachedClip<i32>> = tree
        .since(1)
        .into_iter()
        .map(|c| CachedClip { clip: *c.clip, parent: c.parent })
        .collect();

    // Replayed after two other clips, under the second of them.
    let mut other = ClipTree::new();
    other.push(10, Under::Nothing);
    let scroller = other.push(11, Under::Inherited(Some(ClipIndex(0))));
    other.replay(run, Some(scroller));
    assert_eq!(other.under(ClipIndex(2)), Under::Inherited(Some(ClipIndex(1))));
    assert_eq!(other.under(ClipIndex(3)), Under::Inherited(Some(ClipIndex(2))));
    assert_eq!(ClipTree::<i32>::parent(other.under(ClipIndex(3))), Some(ClipIndex(2)));
    assert_eq!(ClipTree::<i32>::parent(Under::Nothing), None);

    // Replayed under no clip at all, the inherited link inherits nothing.
    let run_again: Vec<CachedClip<i32>> = tree
        .since(1)
        .into_iter()
        .map(|c| CachedClip { clip: *c.clip, parent: c.parent })
        .collect();
    let mut bare = ClipTree::new();
    bare.replay(run_again, None);
    assert_eq!(bare.under(ClipIndex(0)), Under::Inherited(None));
    assert_eq!(bare.under(ClipIndex(1)), Under::Inherited(Some(ClipIndex(0))));
    bare.clear();
    assert_eq!(bare.mark(), 0);
}

#[test]
fn offscreen_targets_are_released_after_a_run_of_idle_frames() {
    let mut targets = BackdropTargets::new();
    assert!(targets.targets().is_none());
    assert!(targets.is_stale(800, 600));
    let mut allocations = 0;
    targets.ensure_targets(800, 600, |w, h| {
        allocations += 1;
        (w, h)
    });
    targets.ensure_targets(800, 600, |w, h| (w + 1, h + 1));
    assert_eq!(targets.targets(), Some(&(800, 600)), "the same size is not reallocated");
    assert_eq!(allocations, 1);

    for _ in 0..IDLE_FRAMES_BEFORE_RELEASE {
        targets.note_unused();
    }
    assert!(targets.targets().is_some(), "held through the idle run");
    targets.note_unused();
    assert!(targets.targets().is_none(), "released by the frame after it");
    targets.note_unused();
    assert!(targets.targets().is_none());
}

#[test]
fn a_used_frame_restarts_the_idle_run_and_a_resize_reallocates() {
    let mut targets = BackdropTargets::new();
    targets.ensure_targets(100, 100, |w, h| (w, h));
    for _ in 0..IDLE_FRAMES_BEFORE_RELEASE {
        targets.note_unused();
    }
    targets.ensure_targets(200, 100, |w, h| (w, h));
    assert_eq!(targets.targets(), Some(&(200, 100)));
    assert!(!targets.is_stale(200, 100));
    for _ in 0..IDLE_FRAMES_BEFORE_RELEASE {
        targets.note_unused();
    }
    assert!(targets.targets().is_some());
}

#[test]
fn the_instance_buffer_grows_by_at_least_doubling() {
    assert_eq!(instance_capacity(100, 50), 100);
    assert_eq!(instance_capacity(100, 100), 100);
    assert_eq!(instance_capacity(100, 101), 200);
    assert_eq!(instance_capacity(100, 250), 250);
    assert_eq!(instance_capacity(0, 1), 1);
}

#[test]
fn a_region_is_clamped_to_the_target_or_dropped() {
    assert_eq!(clamp_region(10, 20, 110, 70, 800, 600), Some((10, 20, 100, 50)));
    assert_eq!(clamp_region(700, 500, 900, 700, 800, 600), Some((700, 500, 100, 100)));
    assert_eq!(clamp_region(800, 0, 900, 10, 800, 600), None);
    assert_eq!(clamp_region(5, 5, 5, 9, 800, 600), None);
}

#[test]
fn a_label_shown_twice_finds_two_buffers_the_next_frame() {
    let mut cache = ShapedBufferCache::new();
    assert_eq!(cache.take(7), None);
    cache.keep(7, "first shaping");
    cache.keep(9, "other");
    cache.keep(7, "second shaping");
    assert_eq!(cache.buffers(), &["first shaping", "other", "second shaping"]);

    cache.begin_frame();
    assert!(cache.buffers().is_empty());
    assert_eq!(cache.take(7), Some("second shaping"));
    assert_eq!(cache.take(7), Some("first shaping"));
    assert_eq!(cache.take(7), None);
    assert_eq!(cache.take(1), None);
}

#[test]
fn what_a_frame_did_not_use_is_dropped_at_its_end() {
    let mut cache = ShapedBufferCache::new();
    cache.keep(3, 30);
    cache.keep(4, 40);
    cache.begin_frame();
    // This frame only shows the first text again.
    let recycled = cache.take(3).unwrap();
    cache.keep(3, recycled);
    cache.end_frame();
    assert_eq!(cache.take(4), None);
    cache.begin_frame();
    assert_eq!(cache.take(3), Some(30));
    assert_eq!(cache.take(4), None);
}

#[test]
fn a_mask_is_refused_when_empty_or_too_large() {
    assert!(mask_refused(0, 10, 10));
    assert!(mask_refused(5, 0, 10));
    assert!(mask_refused(5, 10, 0));
    assert!(mask_refused(5, 2049, 10));
    assert!(mask_refused(5, 10, 2049));
    assert!(!mask_refused(5, 2048, 2048));
    assert!(!mask_refused(1, 1, 1));
}

fn mask_key(text: &str, width: u32) -> MaskKey {
    MaskKey {
        text: text.to_string(),
        style: MaskStyle {
            font_size_bits: 14.0f32.to_bits(),
            weight: 400,
            family: 0,
            align: 0,
            width,
            height: 20,
            buffer_width: width,
            buffer_height: 20,
            offset_x: 8,
            offset_y: 8,
        },
    }
}

#[test]
fn masks_are_found_by_every_field_and_swept_past_the_ceiling() {
    let mut cache = MaskCache::new();
    cache.begin_frame();
    cache.insert(mask_key("hello", 100), 'a');
    assert!(cache.lookup(&mask_key("hello", 100)));
    assert!(!cache.lookup(&mask_key("hello", 101)));
    assert!(!cache.lookup(&mask_key("hullo", 100)));
    assert_eq!(cache.get(&mask_key("hello", 100)), Some(&'a'));

    // Over the ceiling, only masks used this frame or the one before stay.
    for n in 0..(MAX_CACHED as u32) {
        cache.insert(mask_key("other", n + 1000), 'o');
    }
    // Everything was used in the frame before: nothing goes yet.
    cache.begin_frame();
    assert_eq!(cache.len(), MAX_CACHED + 1);
    cache.insert(mask_key("fresh", 1), 'f');
    cache.begin_frame();
    assert_eq!(cache.len(), 1);
    assert_eq!(cache.get(&mask_key("fresh", 1)), Some(&'f'));
    assert_eq!(cache.get(&mask_key("hello", 100)), None);
}

#[test]
fn within_the_ceiling_no_mask_goes() {
    let mut cache = MaskCache::new();
    cache.insert(mask_key("kept", 1), 1);
    for _ in 0..10 {
        cache.begin_frame();
    }
    assert_eq!(cache.get(&mask_key("kept", 1)), Some(&1));
}

fn text_key(text: &str, tex_width: u32) -> TextCacheKey {
    TextCacheKey {
        text: text.to_string(),
        style: TextStyle {
            font_size_bits: 28.0f32.to_bits(),
            weight: 400,
            family: 0,
            align: 0,
            red: 255,
            green: 255,
            blue: 255,
            alpha: 255,
            tex_width,
            tex_height: 40,
        },
    }
}

#[test]
fn past_the_ceiling_a_prepare_keeps_only_what_it_used() {
    let mut cache = TextQuadCache::new();
    cache.begin_prepare();
    for n in 0..(MAX_CACHED_TEXTS as u32) {
        cache.insert(text_key("row", n), n);
    }
    cache.end_prepare();
    assert_eq!(cache.len(), MAX_CACHED_TEXTS);

    cache.begin_prepare();
    assert!(cache.lookup(&text_key("row", 7)));
    assert!(!cache.lookup(&text_key("row", 100_000)));
    cache.insert(text_key("new", 1), 9999);
    cache.end_prepare();
    assert_eq!(cache.len(), 2);
    assert_eq!(cache.get(&text_key("row", 7)), Some(&7));
    assert_eq!(cache.get(&text_key("new", 1)), Some(&9999));
    assert_eq!(cache.get(&text_key("row", 8)), None);
}

#[test]
fn a_replayed_command_forgets_only_the_clip_it_inherited() {
    let inherited = Some(ClipIndex(3));
    let clips = vec![Some(ClipIndex(3)), Some(ClipIndex(5)), None, Some(ClipIndex(3))];
    assert_eq!(
        forget_inherited_clip(&clips, inherited),
        vec![None, Some(ClipIndex(5)), None, None]
    );
    assert_eq!(forget_inherited_clip(&clips, None), clips);
}
