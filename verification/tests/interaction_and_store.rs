use rlay::AppCtx;
use rlay::ArenaTree;
use rlay::ContainerConfig;
use rlay::Element;
use rlay::ElementState;
use rlay::GlyphCountMeasurer;
use rlay::ImageConfig;
use rlay::ImageData;
use rlay::ImageElement;
use rlay::InputState;
use rlay::KeyboardInput;
use rlay::MemError;
use rlay::MouseButtonState;
use rlay::MouseInput;
use rlay::Point2D;
use rlay::Sizing;
use rlay::SizingAxis;

fn fixed(w: i64, h: i64) -> ContainerConfig {
    let mut c = ContainerConfig::default();
    c.sizing = Sizing::new(SizingAxis::Fixed(w), SizingAxis::Fixed(h));
    c
}

fn sample(x: i64, y: i64, left: MouseButtonState) -> InputState {
    InputState {
        mouse: MouseInput {
            mouse_position: Point2D { x, y },
            mouse_delta: Point2D { x: 0, y: 0 },
            left_button: left,
            right_button: MouseButtonState::Up,
            middle_button: MouseButtonState::Up,
        },
        keyboard: KeyboardInput::default(),
    }
}

#[test]
fn click_lasts_exactly_one_frame() {
    let mut ctx = AppCtx::new();
    ctx.open_element(Element::container(fixed(100, 100), Some("btn".to_string())));
    let mut m = GlyphCountMeasurer {};
    let layout = ctx.compute_layout(&mut m).unwrap();

    ctx.set_input_state(sample(10, 10, MouseButtonState::Down));
    ctx.update_hovered_elements(&layout);
    assert!(ctx.is_hovered("btn"));
    assert!(!ctx.is_clicked("btn"), "the press frame itself is not a click");
    assert!(ctx.is_pressed("btn"));
    assert!(ctx.is_active("btn"));

    ctx.set_input_state(sample(10, 10, MouseButtonState::Released));
    ctx.update_hovered_elements(&layout);
    assert!(ctx.is_clicked("btn"), "the release frame is the click");

    ctx.set_input_state(sample(10, 10, MouseButtonState::Up));
    ctx.update_hovered_elements(&layout);
    assert!(!ctx.is_clicked("btn"), "a click lasts one frame only");
    assert!(!ctx.is_active("btn"));
}

#[test]
fn boundary_pointer_hits_both_adjacent_siblings() {
    let mut ctx = AppCtx::new();
    ctx.open_element(Element::container(fixed(200, 100), None));
    ctx.open_element(Element::container(fixed(100, 100), Some("a".to_string())));
    ctx.close_element();
    ctx.open_element(Element::container(fixed(100, 100), Some("b".to_string())));
    ctx.close_element();
    let mut m = GlyphCountMeasurer {};
    let layout = ctx.compute_layout(&mut m).unwrap();

    ctx.set_input_state(sample(100, 50, MouseButtonState::Up));
    ctx.update_hovered_elements(&layout);
    assert!(ctx.is_hovered("a"), "the shared edge belongs to the left sibling");
    assert!(ctx.is_hovered("b"), "the shared edge belongs to the right sibling too");

    ctx.set_input_state(sample(150, 50, MouseButtonState::Up));
    ctx.update_hovered_elements(&layout);
    assert!(!ctx.is_hovered("a"));
    assert!(ctx.is_hovered("b"));
}

#[test]
fn nothing_moves_before_the_first_real_sample() {
    let mut ctx = AppCtx::new();
    ctx.open_element(Element::container(fixed(100, 100), Some("btn".to_string())));
    let mut m = GlyphCountMeasurer {};
    let layout = ctx.compute_layout(&mut m).unwrap();
    ctx.set_input_state(sample(0, 0, MouseButtonState::Released));
    ctx.update_hovered_elements(&layout);
    assert!(!ctx.is_hovered("btn"));
    assert!(!ctx.is_clicked("btn"));
}

#[test]
fn focusable_containers_are_collected() {
    let mut ctx = AppCtx::new();
    let mut cfg = fixed(100, 100);
    cfg.focusable = true;
    ctx.open_element(Element::container(cfg, Some("field".to_string())));
    let mut m = GlyphCountMeasurer {};
    let layout = ctx.compute_layout(&mut m).unwrap();
    ctx.set_input_state(sample(5, 5, MouseButtonState::Up));
    ctx.update_hovered_elements(&layout);
    assert!(ctx.state().is_hovered("field"));
    ctx.set_focused(Some("field".to_string()));
    assert!(ctx.state().is_focused("field"));
    ctx.set_focused(None);
    assert!(!ctx.state().is_focused("field"));
}

#[test]
fn attrs_and_flags_persist_across_frames() {
    let mut ctx = AppCtx::new();
    ctx.open_element(Element::container(fixed(100, 100), Some("btn".to_string())));
    let mut m = GlyphCountMeasurer {};
    let layout = ctx.compute_layout(&mut m).unwrap();

    assert_eq!(ctx.set_flag("btn", "armed".to_string(), true), false);
    assert_eq!(ctx.set_flag("btn", "armed".to_string(), false), true);
    assert_eq!(ctx.set_flag("btn", "armed".to_string(), true), false);
    assert!(ctx.get_flag("btn", "armed"));
    assert!(!ctx.get_flag("btn", "missing"));

    assert_eq!(ctx.set_attr("btn", "label".to_string(), "go".to_string()), None);
    let old = ctx.set_attr("btn", "label".to_string(), "stop".to_string());
    assert_eq!(old.as_deref(), Some("go"));
    assert_eq!(ctx.get_attr("btn", "label").map(|s| s.as_str()), Some("stop"));

    ctx.set_input_state(sample(10, 10, MouseButtonState::Down));
    ctx.update_hovered_elements(&layout);
    assert!(ctx.get_flag("btn", "armed"), "flags survive the interaction pass");
    assert_eq!(ctx.get_attr("btn", "label").map(|s| s.as_str()), Some("stop"));
}

#[test]
fn element_state_records_transients() {
    let mut st = ElementState::new("x".to_string());
    assert!(!st.is_clicked());
    assert!(!st.is_pressed());
    assert!(!st.is_right_clicked());
    assert_eq!(st.get_flag(&"f".to_string()), false);
    assert_eq!(st.set_flag("f".to_string(), true), false);
    assert_eq!(st.get_flag(&"f".to_string()), true);
    assert_eq!(st.get_attr(&"k".to_string()), None);
    assert_eq!(st.set_attr("k".to_string(), "v".to_string()), None);
    assert_eq!(st.get_attr(&"k".to_string()).map(|s| s.as_str()), Some("v"));
}

#[test]
fn arena_links_parents_and_children() {
    let mut tree: ArenaTree<Element> = ArenaTree::new();
    let root = tree
        .insert_node(Element::container(fixed(10, 10), Some("r".to_string())), None)
        .unwrap();
    let child = tree
        .insert_node(
            Element::container(fixed(5, 5), Some("c".to_string())),
            Some(root),
        )
        .unwrap();
    assert_eq!(root, 0);
    assert_eq!(child, 1);
    assert_eq!(tree.len(), 2);
    assert_eq!(tree.get_nb_children(root), Some(1));
    let vals = tree.get_children_val(root).unwrap();
    assert_eq!(vals.len(), 1);
    match tree.insert_node(Element::container(fixed(1, 1), None), Some(99)) {
        Err(MemError::UndefinedNode(99)) => {}
        _ => panic!("a missing parent slot must be reported"),
    }
}

#[test]
fn set_parent_rejects_a_second_parent() {
    let mut tree: ArenaTree<Element> = ArenaTree::new();
    let a = tree
        .insert_node(Element::container(fixed(1, 1), Some("a".to_string())), None)
        .unwrap();
    let b = tree
        .insert_node(Element::container(fixed(2, 2), Some("b".to_string())), None)
        .unwrap();
    assert_eq!(tree.set_parent(a, b), Ok(()));
    match tree.set_parent(a, b) {
        Err(MemError::ParentAlreadyDefined(i)) => assert_eq!(i, b),
        _ => panic!("a node may only receive one parent"),
    }
    match tree.set_parent(7, a) {
        Err(MemError::UndefinedNode(7)) => {}
        _ => panic!("a missing parent slot must be reported"),
    }
}

#[test]
fn find_reports_the_first_equal_element() {
    let mut tree: ArenaTree<Element> = ArenaTree::new();
    let a = Element::container(fixed(1, 1), Some("a".to_string()));
    let b = Element::container(fixed(2, 2), Some("b".to_string()));
    tree.insert_node(a.clone(), None).unwrap();
    tree.insert_node(b.clone(), None).unwrap();
    assert_eq!(tree.find(&b), Some(1));
    assert_eq!(tree.set(a), Some(0));
    let missing = Element::container(fixed(9, 9), Some("zz".to_string()));
    assert_eq!(tree.find(&missing), None);
}

#[test]
fn local_ids_follow_the_insertion_path() {
    let mut ctx = AppCtx::new();
    assert_eq!(ctx.get_local_id(), "");
    ctx.open_element(Element::container(fixed(10, 10), None));
    assert_eq!(ctx.get_local_id(), "0-0");
    ctx.open_element(Element::container(fixed(5, 5), None));
    assert_eq!(ctx.get_local_id(), "0-1_1-0");
    ctx.close_element();
    assert_eq!(ctx.get_local_id(), "0-1");
}

#[test]
fn elements_are_found_by_id() {
    let mut ctx = AppCtx::new();
    ctx.open_element(Element::container(fixed(10, 10), Some("root".to_string())));
    ctx.open_element(Element::text(
        rlay::TextConfig::default(),
        "hello".to_string(),
        Some("greeting".to_string()),
    ));
    ctx.close_element();
    assert!(ctx.get_element_with_id("greeting").is_ok());
    assert!(ctx.get_element_with_id("greetin").is_err());
    assert!(ctx.get_element_with_id("absent").is_err());
}

#[test]
fn image_elements_get_an_identifier_by_themselves() {
    let img = ImageElement::new(
        ImageConfig {
            src_dimensions: rlay::Dimension2D {
                width: 16,
                height: 16,
            },
        },
        ImageData::File {
            path: "logo.png".to_string(),
        },
        None,
    );
    assert!(!img.id().is_empty());
    assert!(img.id().chars().all(|c| c.is_ascii_digit()));
    let named = ImageElement::new(
        ImageConfig {
            src_dimensions: rlay::Dimension2D {
                width: 16,
                height: 16,
            },
        },
        ImageData::File {
            path: "logo.png".to_string(),
        },
        Some("logo".to_string()),
    );
    assert_eq!(named.id(), "logo");
}
