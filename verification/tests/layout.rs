use css_layout::css::{Color, Declaration, Unit, Value};
use css_layout::layout::{
    build_layout_tree, layout_tree, BoxType, Dimensions, EdgeSizes, LayoutBox, LayoutError,
    Rectangle,
};
use css_layout::style::{Display, StyledNode};

fn px(property: &str, n: i64) -> Declaration {
    Declaration::new(property.to_string(), Value::Length(n, Unit::Px))
}

fn length(property: &str, n: i64, unit: Unit) -> Declaration {
    Declaration::new(property.to_string(), Value::Length(n, unit))
}

fn raw(property: &str, text: &str) -> Declaration {
    Declaration::new(property.to_string(), Value::Other(text.to_string()))
}

fn block(values: Vec<Declaration>, children: Vec<StyledNode>) -> StyledNode {
    StyledNode::new(Display::Block, values, children)
}

fn inline_block(values: Vec<Declaration>, children: Vec<StyledNode>) -> StyledNode {
    StyledNode::new(Display::InlineBlock, values, children)
}

fn viewport(width: i64) -> Dimensions {
    let mut d = Dimensions::default();
    d.content.width = width;
    d
}

fn rect(x: i64, y: i64, width: i64, height: i64) -> Rectangle {
    Rectangle { x, y, width, height }
}

fn edges(top: i64, right: i64, bottom: i64, left: i64) -> EdgeSizes {
    EdgeSizes { top, bottom, left, right }
}

#[test]
fn styled_node_answers_for_its_declarations() {
    let node = block(
        vec![
            px("width", 10),
            raw("margin-left", "auto"),
            px("width", 20),
            Declaration::new("color".to_string(), Value::Color(Color::new(1, 2, 3, 4))),
        ],
        Vec::new(),
    );
    assert_eq!(node.value("width"), Some(&Value::Length(20, Unit::Px)));
    assert_eq!(node.value("margin-left"), Some(&Value::Other("auto".to_string())));
    assert_eq!(node.value("height"), None);
    assert_eq!(node.num_or("width", 7), 20);
    assert_eq!(node.num_or("height", 7), 7);
    assert_eq!(node.num_or("margin-left", 7), 7);
    assert_eq!(node.num_or("color", 7), 7);
    assert_eq!(node.get_display(), Display::Block);
}

#[test]
fn num_or_ignores_the_unit() {
    let node = block(vec![length("height", 3, Unit::Em)], Vec::new());
    assert_eq!(node.num_or("height", 0), 3);
}

#[test]
fn box_without_declarations_fills_its_containing_block() {
    for width in [0, 1, 800, i64::MAX] {
        let node = block(Vec::new(), Vec::new());
        let root = layout_tree(&node, viewport(width)).unwrap();
        assert_eq!(root.dimensions.content, rect(0, 0, width, 0));
        assert_eq!(root.dimensions.margin, edges(0, 0, 0, 0));
    }
}

#[test]
fn negative_containing_width_goes_to_the_right_margin() {
    let node = block(Vec::new(), Vec::new());
    let root = layout_tree(&node, viewport(-5)).unwrap();
    assert_eq!(root.dimensions.content.width, 0);
    assert_eq!(root.dimensions.margin.right, -5);
    assert_eq!(root.dimensions.margin.left, 0);
}

#[test]
fn auto_width_takes_what_edges_leave() {
    let node = block(
        vec![
            raw("margin-left", "10"),
            raw("margin-right", "20"),
            px("border-left-width", 1),
            px("border-right-width", 2),
            px("padding-left", 3),
            px("padding-right", 4),
        ],
        Vec::new(),
    );
    let root = layout_tree(&node, viewport(100)).unwrap();
    let d = root.dimensions;
    assert_eq!(d.content.width, 60);
    assert_eq!(d.content.x, 14);
    assert_eq!(d.margin.left, 10);
    assert_eq!(d.margin.right, 20);
    assert_eq!(d.border.left, 1);
    assert_eq!(d.border.right, 2);
    assert_eq!(d.padding.left, 3);
    assert_eq!(d.padding.right, 4);
}

#[test]
fn auto_width_with_too_little_room_shrinks_the_right_margin() {
    let node = block(
        vec![raw("margin-left", "30"), raw("margin-right", "5"), px("padding-left", 80)],
        Vec::new(),
    );
    let d = layout_tree(&node, viewport(100)).unwrap().dimensions;
    assert_eq!(d.content.width, 0);
    assert_eq!(d.margin.left, 30);
    assert_eq!(d.margin.right, 5 - 15);
}

#[test]
fn overconstrained_width_adjusts_the_right_margin() {
    let node = block(
        vec![
            px("width", 90),
            raw("margin-left", "10"),
            raw("margin-right", "10"),
            px("border-left-width", 2),
            px("border-right-width", 2),
            px("padding-left", 3),
            px("padding-right", 3),
        ],
        Vec::new(),
    );
    let d = layout_tree(&node, viewport(100)).unwrap().dimensions;
    let total = 90 + 10 + 10 + 2 + 2 + 3 + 3;
    assert_eq!(d.margin.right, 10 + (100 - total));
    assert_eq!(d.margin.right, -10);
    assert_eq!(d.margin.left, 10);
    assert_eq!(d.content.width, 90);
}

#[test]
fn declared_margins_with_room_left_give_it_to_the_right_margin() {
    let node = block(
        vec![px("width", 40), raw("margin-left", "10"), raw("margin-right", "10")],
        Vec::new(),
    );
    let d = layout_tree(&node, viewport(100)).unwrap().dimensions;
    assert_eq!(d.content.width, 40);
    assert_eq!(d.margin.left, 10);
    assert_eq!(d.margin.right, 10 + 40);
}

#[test]
fn absent_left_margin_takes_the_rest() {
    let node = block(vec![px("width", 40), raw("margin-right", "10")], Vec::new());
    let d = layout_tree(&node, viewport(100)).unwrap().dimensions;
    assert_eq!(d.content.width, 40);
    assert_eq!(d.margin.left, 50);
    assert_eq!(d.margin.right, 10);
    assert_eq!(d.content.x, 50);
}

#[test]
fn absent_right_margin_takes_the_rest() {
    let node = block(vec![px("width", 40), raw("margin-left", "10")], Vec::new());
    let d = layout_tree(&node, viewport(100)).unwrap().dimensions;
    assert_eq!(d.content.width, 40);
    assert_eq!(d.margin.left, 10);
    assert_eq!(d.margin.right, 50);
}

#[test]
fn absent_margins_share_the_rest() {
    let node = block(vec![px("width", 40)], Vec::new());
    let d = layout_tree(&node, viewport(100)).unwrap().dimensions;
    assert_eq!(d.margin.left, 30);
    assert_eq!(d.margin.right, 30);
    assert_eq!(d.content.x, 30);

    let node = block(vec![px("width", 40)], Vec::new());
    let d = layout_tree(&node, viewport(101)).unwrap().dimensions;
    assert_eq!(d.margin.left, 30);
    assert_eq!(d.margin.right, 30);

    let node = block(vec![px("width", 40)], Vec::new());
    let d = layout_tree(&node, viewport(35)).unwrap().dimensions;
    assert_eq!(d.margin.left, -2);
    assert_eq!(d.margin.right, -2);
}

#[test]
fn margin_that_is_a_length_counts_as_declared_zero() {
    let node = block(
        vec![px("width", 40), px("margin-left", 10), px("margin-right", 10)],
        Vec::new(),
    );
    let d = layout_tree(&node, viewport(100)).unwrap().dimensions;
    assert_eq!(d.margin.left, 0);
    assert_eq!(d.margin.right, 60);
    assert_eq!(d.content.width, 40);
}

#[test]
fn margin_text_that_is_no_number_counts_as_declared_zero() {
    let node = block(
        vec![px("width", 40), raw("margin-left", "auto"), raw("margin-right", "1.5")],
        Vec::new(),
    );
    let d = layout_tree(&node, viewport(100)).unwrap().dimensions;
    assert_eq!(d.margin.left, 0);
    assert_eq!(d.margin.right, 60);
}

#[test]
fn width_in_percent_is_a_share_of_the_containing_width() {
    let node = block(vec![length("width", 50, Unit::Pct)], Vec::new());
    let d = layout_tree(&node, viewport(200)).unwrap().dimensions;
    assert_eq!(d.content.width, 100);

    let node = block(vec![length("width", 33, Unit::Pct)], Vec::new());
    let d = layout_tree(&node, viewport(10)).unwrap().dimensions;
    assert_eq!(d.content.width, 3);

    let node = block(vec![length("width", 33, Unit::Pct)], Vec::new());
    let d = layout_tree(&node, viewport(-10)).unwrap().dimensions;
    assert_eq!(d.content.width, -3);
}

#[test]
fn width_in_another_unit_is_not_supported() {
    for unit in [
        Unit::Em,
        Unit::Ex,
        Unit::Ch,
        Unit::Rem,
        Unit::Vh,
        Unit::Vw,
        Unit::Vmin,
        Unit::Vmax,
        Unit::Mm,
        Unit::Q,
        Unit::Cm,
        Unit::In,
        Unit::Pt,
        Unit::Pc,
    ] {
        let node = block(vec![length("width", 5, unit)], Vec::new());
        assert_eq!(
            layout_tree(&node, viewport(100)).err(),
            Some(LayoutError::UnsupportedUnit)
        );
        let node = inline_block(vec![length("width", 5, unit)], Vec::new());
        assert_eq!(
            layout_tree(&node, viewport(100)).err(),
            Some(LayoutError::UnsupportedUnit)
        );
    }
}

#[test]
fn unsupported_unit_far_down_ends_the_pass() {
    let deep = block(vec![length("width", 1, Unit::Em)], Vec::new());
    let middle = block(Vec::new(), vec![block(Vec::new(), Vec::new()), deep]);
    let root = block(Vec::new(), vec![middle]);
    assert_eq!(
        layout_tree(&root, viewport(100)).err(),
        Some(LayoutError::UnsupportedUnit)
    );
}

#[test]
fn unsupported_unit_under_an_omitted_node_does_not_count() {
    let hidden = StyledNode::new(
        Display::Omitted,
        vec![length("width", 1, Unit::Em)],
        vec![block(vec![length("width", 1, Unit::Em)], Vec::new())],
    );
    let root = block(Vec::new(), vec![hidden]);
    assert!(layout_tree(&root, viewport(100)).is_ok());
}

#[test]
fn numbers_that_do_not_fit_end_the_pass() {
    let node = block(vec![px("padding-left", -1), px("padding-right", -1)], Vec::new());
    assert_eq!(
        layout_tree(&node, viewport(i64::MAX)).err(),
        Some(LayoutError::Overflow)
    );

    let node = block(vec![length("width", i64::MAX, Unit::Pct)], Vec::new());
    assert_eq!(
        layout_tree(&node, viewport(1000)).err(),
        Some(LayoutError::Overflow)
    );

    let tall = block(vec![px("height", i64::MAX)], Vec::new());
    let taller = block(vec![px("height", 1)], Vec::new());
    let root = block(Vec::new(), vec![tall, taller]);
    assert_eq!(
        layout_tree(&root, viewport(10)).err(),
        Some(LayoutError::Overflow)
    );
}

#[test]
fn position_counts_the_edges() {
    let node = block(
        vec![
            raw("margin-left", "1"),
            px("margin-top", 2),
            px("border-left-width", 3),
            px("border-top-width", 4),
            px("padding-left", 5),
            px("padding-top", 6),
            px("margin-bottom", 7),
            px("border-bottom-width", 8),
            px("padding-bottom", 9),
            px("height", 50),
        ],
        Vec::new(),
    );
    let mut cb = viewport(100);
    cb.content.x = 1000;
    cb.content.y = 2000;
    cb.content.height = 777;
    let d = layout_tree(&node, cb).unwrap().dimensions;
    assert_eq!(d.content.x, 1000 + 1 + 3 + 5);
    // The height that the containing block came with does not count.
    assert_eq!(d.content.y, 2000 + 2 + 4 + 6);
    assert_eq!(d.content.height, 50);
    assert_eq!(d.margin, edges(2, 0, 7, 1));
    assert_eq!(d.border, edges(4, 0, 8, 3));
    assert_eq!(d.padding, edges(6, 0, 9, 5));
    assert_eq!(d.content.width, 100 - 9);
}

#[test]
fn declared_height_replaces_the_height_of_the_children() {
    let child = block(vec![px("height", 30)], Vec::new());
    let root = block(vec![length("height", 12, Unit::Em)], vec![child]);
    let b = layout_tree(&root, viewport(100)).unwrap();
    assert_eq!(b.dimensions.content.height, 12);
    assert_eq!(b.children[0].dimensions.content.height, 30);

    let child = block(vec![px("height", 30)], Vec::new());
    let root = block(vec![raw("height", "12")], vec![child]);
    let b = layout_tree(&root, viewport(100)).unwrap();
    assert_eq!(b.dimensions.content.height, 30);
}

#[test]
fn block_children_stack() {
    let a = block(
        vec![px("height", 10), px("margin-top", 1), px("margin-bottom", 2)],
        Vec::new(),
    );
    let b = block(
        vec![px("height", 20), px("padding-top", 3), px("padding-bottom", 4)],
        Vec::new(),
    );
    let c = block(
        vec![px("height", 30), px("border-top-width", 5), px("border-bottom-width", 6)],
        Vec::new(),
    );
    let root = block(Vec::new(), vec![a, b, c]);
    let tree = layout_tree(&root, viewport(100)).unwrap();
    let h1 = tree.children[0].dimensions.margin_box().unwrap().height;
    let h2 = tree.children[1].dimensions.margin_box().unwrap().height;
    let h3 = tree.children[2].dimensions.margin_box().unwrap().height;
    assert_eq!((h1, h2, h3), (13, 27, 41));
    assert_eq!(tree.dimensions.content.height, h1 + h2 + h3);
    assert_eq!(tree.children[0].dimensions.content.y, 1);
    assert_eq!(tree.children[1].dimensions.content.y, 13 + 3);
    assert_eq!(tree.children[2].dimensions.content.y, 13 + 27 + 5);
    assert_eq!(tree.children[2].dimensions.margin_box().unwrap().y, 40);
}

#[test]
fn nested_blocks_take_the_height_of_what_they_hold() {
    let leaf = |h: i64| block(vec![px("height", h)], Vec::new());
    let inner = block(Vec::new(), vec![leaf(5), leaf(6)]);
    let root = block(Vec::new(), vec![leaf(1), inner, leaf(2)]);
    let tree = layout_tree(&root, viewport(50)).unwrap();
    assert_eq!(tree.dimensions.content.height, 14);
    assert_eq!(tree.children[1].dimensions.content.height, 11);
    assert_eq!(tree.children[1].dimensions.content.y, 1);
    assert_eq!(tree.children[1].children[1].dimensions.content.y, 6);
    assert_eq!(tree.children[2].dimensions.content.y, 12);
}

#[test]
fn inline_children_are_laid_out_like_blocks_but_take_no_height() {
    let a = StyledNode::new(Display::Inline, vec![px("height", 10)], Vec::new());
    let b = block(vec![px("height", 20)], Vec::new());
    let root = block(Vec::new(), vec![a, b]);
    let tree = layout_tree(&root, viewport(100)).unwrap();
    assert_eq!(tree.children[0].dimensions.content, rect(0, 0, 100, 10));
    assert_eq!(tree.children[1].dimensions.content, rect(0, 0, 100, 20));
    assert_eq!(tree.dimensions.content.height, 20);
}

#[test]
fn inline_blocks_share_a_line() {
    let a = inline_block(vec![px("width", 30), px("height", 5)], Vec::new());
    let b = inline_block(
        vec![px("width", 40), px("height", 9), px("margin-left", 2), px("margin-right", 3)],
        Vec::new(),
    );
    let c = inline_block(vec![px("width", 25), px("height", 7)], Vec::new());
    let root = block(Vec::new(), vec![a, b, c]);
    let tree = layout_tree(&root, viewport(100)).unwrap();
    assert_eq!(tree.children[0].dimensions.content, rect(0, 0, 30, 5));
    assert_eq!(tree.children[1].dimensions.content, rect(32, 0, 40, 9));
    assert_eq!(tree.children[2].dimensions.content, rect(75, 0, 25, 7));
    // The line is still open: it adds nothing to the height.
    assert_eq!(tree.dimensions.content.height, 0);
    assert_eq!(tree.dimensions.current.x, 100);
}

#[test]
fn inline_block_wraps_where_the_line_is_full() {
    let width = 10;
    let a = inline_block(vec![px("width", 6), px("height", 5)], Vec::new());
    let b = inline_block(vec![px("width", 6), px("height", 5)], Vec::new());
    let root = block(Vec::new(), vec![a, b]);
    let tree = layout_tree(&root, viewport(width)).unwrap();
    let first = tree.children[0].dimensions.content;
    let second = tree.children[1].dimensions.content;
    assert_eq!(first, rect(0, 0, 6, 5));
    assert_eq!(second, rect(0, 5, 6, 5));
    assert!(second.y > first.y);
    // The first line is closed and counts; the second is still open.
    assert_eq!(tree.dimensions.content.height, 5);
    assert_eq!(tree.dimensions.current.x, 6);
}

#[test]
fn block_after_inline_blocks_starts_below_the_line() {
    let a = inline_block(vec![px("width", 6), px("height", 5)], Vec::new());
    let b = inline_block(vec![px("width", 6), px("height", 8)], Vec::new());
    let c = block(vec![px("height", 3)], Vec::new());
    let root = block(Vec::new(), vec![a, b, c]);
    let tree = layout_tree(&root, viewport(10)).unwrap();
    assert_eq!(tree.children[0].dimensions.content, rect(0, 0, 6, 5));
    // The greatest height so far closes the first line.
    assert_eq!(tree.children[1].dimensions.content, rect(0, 8, 6, 8));
    assert_eq!(tree.children[2].dimensions.content, rect(0, 16, 10, 3));
    assert_eq!(tree.dimensions.content.height, 8 + 8 + 3);
    assert_eq!(tree.dimensions.current.x, 0);
}

#[test]
fn wrapped_inline_block_places_its_own_children_afresh() {
    let grandchild = block(vec![px("height", 4)], Vec::new());
    let a = inline_block(vec![px("width", 6), px("height", 5)], Vec::new());
    let b = inline_block(vec![px("width", 6)], vec![grandchild]);
    let root = block(Vec::new(), vec![a, b]);
    let tree = layout_tree(&root, viewport(10)).unwrap();
    let second = &tree.children[1];
    assert_eq!(second.dimensions.content, rect(0, 5, 6, 4));
    assert_eq!(second.children[0].dimensions.content, rect(0, 5, 6, 4));
}

#[test]
fn inline_block_takes_declared_dimensions_verbatim() {
    let node = inline_block(
        vec![
            length("width", 50, Unit::Pct),
            px("margin-left", 1),
            px("margin-right", 2),
            px("margin-top", 3),
            px("margin-bottom", 4),
            px("padding-left", 5),
            px("padding-right", 6),
            px("padding-top", 7),
            px("padding-bottom", 8),
            px("border-left-width", 9),
            px("border-right-width", 10),
            px("border-top-width", 11),
            px("border-bottom-width", 12),
        ],
        Vec::new(),
    );
    let mut cb = viewport(80);
    cb.content.x = 100;
    cb.content.y = 200;
    cb.current.x = 1000;
    cb.current.y = 2000;
    let d = layout_tree(&node, cb).unwrap().dimensions;
    assert_eq!(d.content, rect(100 + 1000 + 1 + 9 + 5, 200 + 2000 + 3 + 11 + 7, 40, 0));
    assert_eq!(d.margin, edges(3, 2, 4, 1));
    assert_eq!(d.padding, edges(7, 6, 8, 5));
    assert_eq!(d.border, edges(11, 10, 12, 9));
}

#[test]
fn omitted_nodes_get_no_box() {
    let hidden = StyledNode::new(
        Display::Omitted,
        vec![px("height", 99)],
        vec![block(vec![px("height", 1)], Vec::new())],
    );
    let shown = block(vec![px("height", 7)], vec![
        StyledNode::new(Display::Omitted, Vec::new(), Vec::new()),
        StyledNode::new(Display::Inline, Vec::new(), Vec::new()),
    ]);
    let root = block(Vec::new(), vec![hidden, shown]);
    let tree = layout_tree(&root, viewport(100)).unwrap();
    assert_eq!(tree.children.len(), 1);
    assert_eq!(tree.children[0].styled_node.num_or("height", 0), 7);
    assert_eq!(tree.children[0].children.len(), 1);
    assert_eq!(tree.children[0].children[0].box_type, BoxType::Inline);
    assert_eq!(tree.dimensions.content.height, 7);
}

#[test]
fn omitted_root_gets_an_anonymous_box_without_geometry() {
    let root = StyledNode::new(
        Display::Omitted,
        vec![px("width", 10), px("height", 10)],
        vec![
            block(vec![px("height", 7)], Vec::new()),
            StyledNode::new(Display::Omitted, Vec::new(), Vec::new()),
        ],
    );
    let tree = layout_tree(&root, viewport(100)).unwrap();
    assert_eq!(tree.box_type, BoxType::Anonymous);
    assert_eq!(tree.dimensions, Dimensions::default());
    assert_eq!(tree.children.len(), 1);
    assert_eq!(tree.children[0].dimensions, Dimensions::default());
}

#[test]
fn box_types_follow_display() {
    let root = block(
        Vec::new(),
        vec![
            StyledNode::new(Display::Inline, Vec::new(), Vec::new()),
            inline_block(Vec::new(), Vec::new()),
            block(Vec::new(), Vec::new()),
        ],
    );
    let tree = build_layout_tree(&root);
    assert_eq!(tree.box_type, BoxType::Block);
    assert_eq!(tree.dimensions, Dimensions::default());
    assert_eq!(tree.children[0].box_type, BoxType::Inline);
    assert_eq!(tree.children[1].box_type, BoxType::InlineBlock);
    assert_eq!(tree.children[2].box_type, BoxType::Block);
    assert!(std::ptr::eq(tree.children[2].styled_node, &root.children[2]));
}

#[test]
fn new_box_has_no_geometry_and_no_children() {
    let node = block(vec![px("width", 3)], vec![block(Vec::new(), Vec::new())]);
    let b = LayoutBox::new(BoxType::Anonymous, &node);
    assert_eq!(b.box_type, BoxType::Anonymous);
    assert_eq!(b.dimensions, Dimensions::default());
    assert!(b.children.is_empty());
    assert!(std::ptr::eq(b.styled_node, &node));
}

#[test]
fn boxes_grow_by_their_edges() {
    let d = Dimensions {
        content: rect(100, 200, 30, 40),
        padding: edges(1, 2, 3, 4),
        border: edges(5, 6, 7, 8),
        margin: edges(9, 10, 11, 12),
        current: Rectangle::default(),
    };
    assert_eq!(d.padding_box(), Ok(rect(96, 199, 36, 44)));
    assert_eq!(d.border_box(), Ok(rect(88, 194, 50, 56)));
    assert_eq!(d.margin_box(), Ok(rect(76, 185, 72, 76)));
    assert_eq!(
        rect(0, 0, 10, 10).expanded(edges(-1, -2, -3, -4)),
        Ok(rect(4, 1, 4, 6))
    );
}

#[test]
fn box_that_does_not_fit_is_an_error() {
    let mut d = Dimensions::default();
    d.content = rect(0, 0, i64::MAX, 0);
    d.padding = edges(0, 1, 0, 0);
    assert_eq!(d.padding_box(), Err(LayoutError::Overflow));
    assert_eq!(d.border_box(), Err(LayoutError::Overflow));
    assert_eq!(d.margin_box(), Err(LayoutError::Overflow));
    d.padding = edges(0, 0, 0, 0);
    d.content = rect(i64::MIN, 0, 0, 0);
    d.margin = edges(0, 0, 0, 1);
    assert!(d.border_box().is_ok());
    assert_eq!(d.margin_box(), Err(LayoutError::Overflow));
}

#[test]
fn parsed_stylesheet_feeds_layout() {
    let sheet = css_layout::css_parser::parse(
        "div { width: 50%; height: 20px; padding-left: 5px; margin-left: 7px; }",
    );
    let mut rules = sheet.rules;
    let node = block(rules.remove(0).declarations, Vec::new());
    let d = layout_tree(&node, viewport(200)).unwrap().dimensions;
    // The stylesheet types margins as lengths, which a block reads as 0.
    assert_eq!(d.content, rect(5, 0, 100, 20));
    assert_eq!(d.margin.left, 0);
    assert_eq!(d.margin.right, 95);
}
