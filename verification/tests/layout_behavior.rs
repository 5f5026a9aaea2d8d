use rlay::Alignment;
use rlay::AppCtx;
use rlay::ContainerConfig;
use rlay::Element;
use rlay::GlyphCountMeasurer;
use rlay::LayoutDirection;
use rlay::MinMax;
use rlay::PartialContainerConfig;
use rlay::RlayError;
use rlay::Sizing;
use rlay::SizingAxis;
use rlay::DIM_MAX;
use rlay::PERCENT_SCALE;

fn fixed(w: i64, h: i64) -> ContainerConfig {
    let mut c = ContainerConfig::default();
    c.sizing = Sizing::new(SizingAxis::Fixed(w), SizingAxis::Fixed(h));
    c
}

fn grow_w_fixed_h(h: i64) -> ContainerConfig {
    let mut c = ContainerConfig::default();
    c.sizing = Sizing::new(
        SizingAxis::Grow(MinMax::new(0, DIM_MAX)),
        SizingAxis::Fixed(h),
    );
    c
}

#[test]
fn two_grow_children_split_a_fixed_row() {
    let mut ctx = AppCtx::new();
    ctx.open_element(Element::container(fixed(400, 200), None));
    ctx.open_element(Element::container(grow_w_fixed_h(100), Some("a".to_string())));
    ctx.close_element();
    ctx.open_element(Element::container(grow_w_fixed_h(100), Some("b".to_string())));
    ctx.close_element();
    let mut m = GlyphCountMeasurer {};
    let layout = ctx.compute_layout(&mut m).unwrap();
    assert_eq!(layout.dimensions().width, 400);
    assert_eq!(layout.dimensions().height, 200);
    let kids = layout.children();
    assert_eq!(kids.len(), 2);
    assert_eq!(kids[0].dimensions().width, 200);
    assert_eq!(kids[0].dimensions().height, 100);
    assert_eq!(kids[1].dimensions().width, 200);
    assert_eq!(kids[1].dimensions().height, 100);
    assert_eq!(kids[0].position().x, 0);
    assert_eq!(kids[0].position().y, 0);
    assert_eq!(kids[1].position().x, 200);
    assert_eq!(kids[1].position().y, 0);
}

#[test]
fn fit_root_wraps_fixed_child_plus_padding() {
    let mut ctx = AppCtx::new();
    let mut root = ContainerConfig::default();
    root.padding = rlay::Padding::new(10, 10, 10, 10);
    ctx.open_element(Element::container(root, None));
    ctx.open_element(Element::container(fixed(50, 50), None));
    ctx.close_element();
    let mut m = GlyphCountMeasurer {};
    let layout = ctx.compute_layout(&mut m).unwrap();
    assert_eq!(layout.dimensions().width, 70);
    assert_eq!(layout.dimensions().height, 70);
    let kids = layout.children();
    assert_eq!(kids[0].position().x, 10);
    assert_eq!(kids[0].position().y, 10);
}

#[test]
fn fit_container_with_no_children_is_its_padding() {
    let mut ctx = AppCtx::new();
    let mut root = ContainerConfig::default();
    root.padding = rlay::Padding::new(3, 5, 4, 6);
    ctx.open_element(Element::container(root, None));
    let mut m = GlyphCountMeasurer {};
    let layout = ctx.compute_layout(&mut m).unwrap();
    assert_eq!(layout.dimensions().width, 7);
    assert_eq!(layout.dimensions().height, 11);
}

#[test]
fn fixed_container_ignores_its_children() {
    let mut ctx = AppCtx::new();
    ctx.open_element(Element::container(fixed(123, 77), None));
    ctx.open_element(Element::container(fixed(500, 500), None));
    ctx.close_element();
    let mut m = GlyphCountMeasurer {};
    let layout = ctx.compute_layout(&mut m).unwrap();
    assert_eq!(layout.dimensions().width, 123);
    assert_eq!(layout.dimensions().height, 77);
    assert_eq!(layout.children()[0].dimensions().width, 500);
}

#[test]
fn grow_respects_upper_limit() {
    let mut ctx = AppCtx::new();
    ctx.open_element(Element::container(fixed(300, 50), None));
    let mut capped = ContainerConfig::default();
    capped.sizing = Sizing::new(
        SizingAxis::Grow(MinMax::new(0, 50)),
        SizingAxis::Fixed(10),
    );
    ctx.open_element(Element::container(capped, None));
    ctx.close_element();
    ctx.open_element(Element::container(grow_w_fixed_h(10), None));
    ctx.close_element();
    let mut m = GlyphCountMeasurer {};
    let layout = ctx.compute_layout(&mut m).unwrap();
    let kids = layout.children();
    assert_eq!(kids[0].dimensions().width, 50);
    assert_eq!(kids[1].dimensions().width, 250);
    assert!(kids[0].dimensions().width + kids[1].dimensions().width <= 300);
}

#[test]
fn percent_child_takes_its_fraction_of_the_parent() {
    let mut ctx = AppCtx::new();
    ctx.open_element(Element::container(fixed(400, 100), None));
    let mut half = ContainerConfig::default();
    half.sizing = Sizing::new(
        SizingAxis::percent(PERCENT_SCALE / 2),
        SizingAxis::Fixed(10),
    );
    ctx.open_element(Element::container(half, None));
    ctx.close_element();
    let mut m = GlyphCountMeasurer {};
    let layout = ctx.compute_layout(&mut m).unwrap();
    assert_eq!(layout.children()[0].dimensions().width, 200);
}

#[test]
fn centered_child_splits_the_slack() {
    let mut ctx = AppCtx::new();
    let mut root = fixed(100, 40);
    root.align = rlay::LayoutAlignment {
        x: Alignment::Center,
        y: Alignment::Start,
    };
    ctx.open_element(Element::container(root, None));
    ctx.open_element(Element::container(fixed(50, 20), None));
    ctx.close_element();
    let mut m = GlyphCountMeasurer {};
    let layout = ctx.compute_layout(&mut m).unwrap();
    assert_eq!(layout.children()[0].position().x, 25);
}

#[test]
fn column_direction_stacks_children() {
    let mut ctx = AppCtx::new();
    let mut root = fixed(100, 100);
    root.layout_direction = LayoutDirection::TopToBottom;
    root.child_gap = 5;
    ctx.open_element(Element::container(root, None));
    ctx.open_element(Element::container(fixed(10, 20), None));
    ctx.close_element();
    ctx.open_element(Element::container(fixed(10, 30), None));
    ctx.close_element();
    let mut m = GlyphCountMeasurer {};
    let layout = ctx.compute_layout(&mut m).unwrap();
    let kids = layout.children();
    assert_eq!(kids[0].position().y, 0);
    assert_eq!(kids[1].position().y, 25);
}

#[test]
fn empty_context_has_no_root() {
    let ctx = AppCtx::new();
    let mut m = GlyphCountMeasurer {};
    match ctx.compute_layout(&mut m) {
        Err(RlayError::NoRoot) => {}
        _ => panic!("a frame without elements must fail with NoRoot"),
    }
}

#[test]
fn out_of_range_percent_is_rejected() {
    let mut ctx = AppCtx::new();
    let mut bad = ContainerConfig::default();
    bad.sizing = Sizing::new(SizingAxis::Percent(2 * PERCENT_SCALE), SizingAxis::Fixed(10));
    ctx.open_element(Element::container(bad, None));
    let mut m = GlyphCountMeasurer {};
    match ctx.compute_layout(&mut m) {
        Err(RlayError::ElementCorrupted) => {}
        _ => panic!("an invalid percent must be rejected"),
    }
}

#[test]
fn merge_is_idempotent() {
    let base = ContainerConfig::default();
    let mut p = PartialContainerConfig::default();
    p.child_gap = Some(9);
    p.focusable = Some(true);
    let once = base.merge(p);
    let twice = once.merge(p);
    assert_eq!(once, twice);
    assert_eq!(once.child_gap, 9);
    assert!(once.focusable);
}

#[test]
fn disjoint_merges_commute() {
    let base = ContainerConfig::default();
    let mut p1 = PartialContainerConfig::default();
    p1.child_gap = Some(4);
    let mut p2 = PartialContainerConfig::default();
    p2.focusable = Some(true);
    let ab = base.merge(p1).merge(p2);
    let ba = base.merge(p2).merge(p1);
    assert_eq!(ab, ba);
}

#[test]
fn distribute_splits_space_evenly() {
    let mut widths = vec![0i64, 0i64];
    let maxes = vec![DIM_MAX, DIM_MAX];
    let grows = vec![true, true];
    let left = rlay::distribute(&mut widths, &maxes, &grows, 400);
    assert_eq!(widths, vec![200, 200]);
    assert_eq!(left, 0);
}

#[test]
fn distribute_raises_the_smallest_first() {
    let mut widths = vec![10i64, 30i64];
    let maxes = vec![DIM_MAX, DIM_MAX];
    let grows = vec![true, true];
    let left = rlay::distribute(&mut widths, &maxes, &grows, 40);
    assert_eq!(widths, vec![40, 40]);
    assert_eq!(left, 0);
}

#[test]
fn distribute_leaves_non_growable_entries_alone() {
    let mut widths = vec![10i64, 30i64];
    let maxes = vec![DIM_MAX, 0];
    let grows = vec![true, false];
    let _ = rlay::distribute(&mut widths, &maxes, &grows, 15);
    assert_eq!(widths[1], 30);
    assert_eq!(widths[0], 25);
}

#[test]
fn text_sizes_flow_into_a_fit_parent() {
    let mut ctx = AppCtx::new();
    ctx.open_element(Element::container(ContainerConfig::default(), None));
    let text_cfg = rlay::TextConfig::default();
    ctx.open_element(Element::text(text_cfg, "abcd".to_string(), None));
    ctx.close_element();
    let mut m = GlyphCountMeasurer {};
    let layout = ctx.compute_layout(&mut m).unwrap();
    // four glyphs, each half the default font size plus the letter spacing
    assert_eq!(layout.children()[0].dimensions().width, 44);
    assert_eq!(layout.children()[0].dimensions().height, 20);
    assert_eq!(layout.dimensions().width, 44);
    assert_eq!(layout.dimensions().height, 20);
}

#[test]
fn end_reverse_lays_out_from_the_trailing_edge() {
    let mut ctx = AppCtx::new();
    let mut root = fixed(100, 40);
    root.align = rlay::LayoutAlignment {
        x: Alignment::EndReverse,
        y: Alignment::Start,
    };
    ctx.open_element(Element::container(root, None));
    ctx.open_element(Element::container(fixed(30, 20), None));
    ctx.close_element();
    let mut m = GlyphCountMeasurer {};
    let layout = ctx.compute_layout(&mut m).unwrap();
    assert_eq!(layout.children()[0].position().x, 70);
}

#[test]
fn fit_clamps_padding_into_its_limits() {
    let mut ctx = AppCtx::new();
    let mut root = ContainerConfig::default();
    root.sizing = Sizing::new(
        SizingAxis::Fit(MinMax::new(5, 100)),
        SizingAxis::Fit(MinMax::new(30, 100)),
    );
    root.padding = rlay::Padding::new(5, 10, 5, 10);
    ctx.open_element(Element::container(root, None));
    let mut m = GlyphCountMeasurer {};
    let layout = ctx.compute_layout(&mut m).unwrap();
    // the horizontal padding of 10 lies within [5, 100]; the vertical
    // padding of 20 is raised to the lower limit of 30
    assert_eq!(layout.dimensions().width, 10);
    assert_eq!(layout.dimensions().height, 30);
}

#[test]
fn cross_axis_grow_is_clamped_to_its_limits() {
    let mut ctx = AppCtx::new();
    let mut root = fixed(400, 300);
    root.layout_direction = LayoutDirection::TopToBottom;
    ctx.open_element(Element::container(root, None));
    let mut capped = ContainerConfig::default();
    capped.sizing = Sizing::new(
        SizingAxis::Grow(MinMax::new(0, 50)),
        SizingAxis::Fixed(10),
    );
    ctx.open_element(Element::container(capped, None));
    ctx.close_element();
    let mut wide = ContainerConfig::default();
    wide.sizing = Sizing::new(
        SizingAxis::Grow(MinMax::new(0, DIM_MAX)),
        SizingAxis::Fixed(10),
    );
    ctx.open_element(Element::container(wide, None));
    ctx.close_element();
    let mut m = GlyphCountMeasurer {};
    let layout = ctx.compute_layout(&mut m).unwrap();
    let kids = layout.children();
    assert_eq!(kids[0].dimensions().width, 50, "capped at its own limit");
    assert_eq!(kids[1].dimensions().width, 400, "free to take the whole cross axis");
}

#[test]
fn arena_indices_are_never_reused() {
    let mut ctx = AppCtx::new();
    ctx.open_element(Element::container(fixed(100, 100), None));
    let twin = || Element::container(fixed(10, 10), None);
    let a = ctx.open_element(twin());
    ctx.close_element();
    let b = ctx.open_element(twin());
    ctx.close_element();
    assert_ne!(a, b, "equal values still get distinct slots");
    let mut m = GlyphCountMeasurer {};
    let layout = ctx.compute_layout(&mut m).unwrap();
    assert_eq!(layout.children().len(), 2);
}
