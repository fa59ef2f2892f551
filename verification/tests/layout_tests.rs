use browser_from_scratch::css_parser::CssParser;
use browser_from_scratch::dom::{AttrMap, ElementData, Node, NodeType};
use browser_from_scratch::layout::{Dimensions, LayoutBox, LayoutError};
use browser_from_scratch::style::StyledNode;

fn elem(tag: &str, attrs: &[(&str, &str)], children: Vec<Node>) -> Node {
    let mut m = AttrMap::new();
    for (k, v) in attrs {
        m.push((*k).to_string(), (*v).to_string());
    }
    Node::new(NodeType::Element(ElementData::new(tag.to_string(), m)), children)
}

fn viewport() -> Dimensions {
    let mut d = Dimensions::default();
    d.content.width = 960;
    d.content.height = 540;
    d
}

fn layout(css: &str, root: &Node) -> LayoutBox {
    let sheet = CssParser::new(css).parse_stylesheet();
    let styled = StyledNode::new(root, &sheet);
    LayoutBox::layout_tree(&styled, viewport()).unwrap()
}

#[test]
fn percentage_width_resolves_against_containing_block() {
    let root = elem("div", &[], vec![]);
    let tree = layout("div { display: block; width: 50%; }", &root);
    assert_eq!(tree.dimensions.content.width, 480);
    // The leftover space splits evenly between the auto margins.
    assert_eq!(tree.dimensions.margin.left, 240);
    assert_eq!(tree.dimensions.margin.right, 240);
    assert_eq!(tree.dimensions.content.x, 240);
    assert_eq!(tree.dimensions.content.y, 0);
}

#[test]
fn auto_width_fills_the_container() {
    let root = elem("div", &[], vec![]);
    let tree = layout("div { display: block; }", &root);
    assert_eq!(tree.dimensions.content.width, 960);
    assert_eq!(tree.dimensions.content.x, 0);
    assert_eq!(tree.dimensions.margin.left, 0);
    assert_eq!(tree.dimensions.margin.right, 0);
}

#[test]
fn unset_left_margin_absorbs_the_underflow() {
    let root = elem("div", &[], vec![]);
    let tree = layout(
        "div { display: block; width: 100px; margin-right: 20px; }",
        &root,
    );
    assert_eq!(tree.dimensions.content.width, 100);
    assert_eq!(tree.dimensions.margin.left, 840);
    assert_eq!(tree.dimensions.margin.right, 20);
    assert_eq!(tree.dimensions.content.x, 840);
}

#[test]
fn unset_right_margin_absorbs_the_underflow() {
    let root = elem("div", &[], vec![]);
    let tree = layout(
        "div { display: block; width: 100px; margin-left: 20px; }",
        &root,
    );
    assert_eq!(tree.dimensions.content.width, 100);
    assert_eq!(tree.dimensions.margin.left, 20);
    assert_eq!(tree.dimensions.margin.right, 840);
    assert_eq!(tree.dimensions.content.x, 20);
}

#[test]
fn percentages_resolve_against_the_parent_not_the_viewport() {
    let root = elem("div", &[], vec![elem("p", &[], vec![])]);
    let tree = layout(
        "div { display: block; width: 300px; } p { display: block; width: 50%; }",
        &root,
    );
    assert_eq!(tree.dimensions.content.width, 300);
    assert_eq!(tree.children[0].dimensions.content.width, 150);
}

#[test]
fn explicit_margins_push_underflow_to_the_right() {
    let root = elem("div", &[], vec![]);
    let tree = layout(
        "div { display: block; width: 100px; margin-left: 30px; margin-right: 40px; }",
        &root,
    );
    assert_eq!(tree.dimensions.content.width, 100);
    assert_eq!(tree.dimensions.margin.left, 30);
    assert_eq!(tree.dimensions.content.x, 30);
    // The right margin absorbs the slack: 40 + (960 - 170).
    assert_eq!(tree.dimensions.margin.right, 830);
}

#[test]
fn negative_underflow_is_absorbed_by_the_right_margin() {
    let root = elem("div", &[], vec![elem("p", &[], vec![])]);
    let tree = layout(
        "div { display: block; width: 100px; } p { display: block; padding-left: 200px; }",
        &root,
    );
    let child = &tree.children[0];
    assert_eq!(child.dimensions.content.width, 0);
    assert_eq!(child.dimensions.margin.right, -100);
    assert_eq!(child.dimensions.padding.left, 200);
}

#[test]
fn block_children_stack_vertically() {
    let root = elem(
        "div",
        &[],
        vec![elem("p", &[], vec![]), elem("p", &[], vec![])],
    );
    let tree = layout(
        "div { display: block; } p { display: block; height: 50px; }",
        &root,
    );
    assert_eq!(tree.children.len(), 2);
    assert_eq!(tree.children[0].dimensions.content.y, 0);
    assert_eq!(tree.children[1].dimensions.content.y, 50);
    assert_eq!(tree.dimensions.content.height, 100);
}

#[test]
fn inline_blocks_wrap_to_a_new_row() {
    let root = elem(
        "div",
        &[],
        vec![
            elem("span", &[], vec![]),
            elem("span", &[], vec![]),
            elem("span", &[], vec![]),
        ],
    );
    let tree = layout(
        "div { display: block; } span { display: inline-block; width: 400px; height: 100px; }",
        &root,
    );
    assert_eq!(tree.children.len(), 3);
    // First two fit on one row: 400 + 400 = 800 <= 960.
    assert_eq!(tree.children[0].dimensions.content.x, 0);
    assert_eq!(tree.children[0].dimensions.content.y, 0);
    assert_eq!(tree.children[1].dimensions.content.x, 400);
    assert_eq!(tree.children[1].dimensions.content.y, 0);
    // The third wraps: its y offset is the max margin-box height of
    // the first row.
    assert_eq!(tree.children[2].dimensions.content.x, 0);
    assert_eq!(tree.children[2].dimensions.content.y, 100);
}

#[test]
fn explicit_height_overrides_accumulation() {
    let root = elem("div", &[], vec![elem("p", &[], vec![])]);
    let tree = layout(
        "div { display: block; height: 7px; } p { display: block; height: 50px; }",
        &root,
    );
    assert_eq!(tree.dimensions.content.height, 7);
}

#[test]
fn suppressed_subtree_produces_no_boxes() {
    let root = elem(
        "div",
        &[],
        vec![
            elem("aside", &[], vec![elem("p", &[], vec![]), elem("p", &[], vec![])]),
            elem("p", &[], vec![]),
        ],
    );
    let tree = layout(
        "div { display: block; } aside { display: none; } p { display: block; height: 10px; }",
        &root,
    );
    // Only the trailing paragraph is left; the suppressed subtree is
    // gone entirely.
    assert_eq!(tree.children.len(), 1);
    assert_eq!(tree.children[0].children.len(), 0);
    assert_eq!(tree.dimensions.content.height, 10);
}

#[test]
fn unsupported_unit_aborts_the_pass() {
    let root = elem("div", &[], vec![]);
    let sheet = CssParser::new("div { display: block; width: 10em; }").parse_stylesheet();
    let styled = StyledNode::new(&root, &sheet);
    let r = LayoutBox::layout_tree(&styled, viewport());
    assert!(matches!(r, Err(LayoutError::UnsupportedUnit)));
}

#[test]
fn padding_and_border_offset_the_content() {
    let root = elem("div", &[], vec![]);
    let tree = layout(
        "div { display: block; padding-left: 10px; padding-top: 5px; \
         border-left-width: 2px; border-top-width: 3px; margin-top: 4px; height: 20px; }",
        &root,
    );
    assert_eq!(tree.dimensions.content.x, 12);
    assert_eq!(tree.dimensions.content.y, 12);
    assert_eq!(tree.dimensions.content.width, 960 - 12);
    let bb = tree.dimensions.border_box();
    assert_eq!(bb.x, 0);
    assert_eq!(bb.y, 4);
    assert_eq!(bb.width, 960);
    assert_eq!(bb.height, 20 + 5 + 3);
}

#[test]
fn wrapped_row_offset_is_the_tallest_margin_box() {
    let root = elem(
        "div",
        &[("class", "wide")],
        vec![
            elem("span", &[("class", "a")], vec![]),
            elem("span", &[("class", "b")], vec![]),
            elem("span", &[("class", "c")], vec![]),
        ],
    );
    let tree = layout(
        ".wide { display: block; } \
         span { display: inline-block; width: 400px; } \
         .a { height: 100px; } .b { height: 150px; margin-bottom: 6px; } .c { height: 80px; }",
        &root,
    );
    // The second box's margin box is 156 tall, the tallest of the row.
    assert_eq!(tree.children[2].dimensions.content.y, 156);
}

#[test]
fn geometry_past_the_pixel_range_aborts_the_pass() {
    let root = elem("div", &[], vec![]);
    let sheet = CssParser::new(
        "div { display: block; width: 9223372036854775807px; \
         margin-left: 9223372036854775807px; }",
    )
    .parse_stylesheet();
    let styled = StyledNode::new(&root, &sheet);
    let r = LayoutBox::layout_tree(&styled, viewport());
    assert!(matches!(r, Err(LayoutError::Overflow)));
}

#[test]
fn nested_boxes_stay_contained() {
    let root = elem("div", &[], vec![]);
    let tree = layout(
        "div { display: block; width: 300px; height: 40px; \
         padding-left: 5px; padding-right: 6px; padding-top: 7px; padding-bottom: 8px; \
         border-left-width: 1px; border-right-width: 2px; \
         border-top-width: 3px; border-bottom-width: 4px; \
         margin-left: 10px; margin-right: 11px; margin-top: 12px; margin-bottom: 13px; }",
        &root,
    );
    let d = &tree.dimensions;
    let content = d.content;
    let pb = d.padding_box();
    let bb = d.border_box();
    let mb = d.margin_box();
    // Each box contains the previous one.
    assert!(pb.x <= content.x && pb.y <= content.y);
    assert!(pb.x + pb.width >= content.x + content.width);
    assert!(pb.y + pb.height >= content.y + content.height);
    assert!(bb.x <= pb.x && bb.y <= pb.y);
    assert!(bb.x + bb.width >= pb.x + pb.width);
    assert!(bb.y + bb.height >= pb.y + pb.height);
    assert!(mb.x <= bb.x && mb.y <= bb.y);
    assert!(mb.x + mb.width >= bb.x + bb.width);
    assert!(mb.y + mb.height >= bb.y + bb.height);
    // And their sizes follow the edge sums exactly.
    assert_eq!(pb.width, 300 + 5 + 6);
    assert_eq!(bb.width, 300 + 5 + 6 + 1 + 2);
    // With both margins explicit the right margin absorbs the
    // underflow, so the margin box spans the whole container.
    assert_eq!(mb.width, 960);
    assert_eq!(mb.height, 40 + 7 + 8 + 3 + 4 + 12 + 13);
}

#[test]
fn inline_children_do_not_accumulate_height() {
    // Inline boxes are laid out like blocks, but the parent's height
    // accumulation skips them.
    let root = elem("div", &[], vec![elem("em", &[], vec![])]);
    let tree = layout(
        "div { display: block; } em { display: inline; height: 30px; }",
        &root,
    );
    assert_eq!(tree.children.len(), 1);
    assert_eq!(tree.children[0].dimensions.content.height, 30);
    assert_eq!(tree.dimensions.content.height, 0);
}

fn assert_same_geometry(a: &LayoutBox, b: &LayoutBox) {
    assert_eq!(a.dimensions, b.dimensions);
    assert_eq!(a.children.len(), b.children.len());
    for i in 0..a.children.len() {
        assert_same_geometry(&a.children[i], &b.children[i]);
    }
}

#[test]
fn relayout_with_unchanged_inputs_is_identical() {
    let root = elem(
        "div",
        &[],
        vec![
            elem("span", &[], vec![]),
            elem("span", &[], vec![]),
            elem("span", &[], vec![]),
            elem("p", &[], vec![]),
        ],
    );
    let css = "div { display: block; width: 50%; } \
               span { display: inline-block; width: 400px; height: 100px; } \
               p { display: block; height: 30px; }";
    let sheet = CssParser::new(css).parse_stylesheet();
    let styled = StyledNode::new(&root, &sheet);
    let first = LayoutBox::layout_tree(&styled, viewport()).unwrap();
    let second = LayoutBox::layout_tree(&styled, viewport()).unwrap();
    assert_same_geometry(&first, &second);
}
