use browser_from_scratch::command::{Console, DisplayCommand};
use browser_from_scratch::css::Color;
use browser_from_scratch::css_parser::CssParser;
use browser_from_scratch::dom::{AttrMap, ElementData, Node, NodeType};
use browser_from_scratch::layout::{Dimensions, LayoutBox};
use browser_from_scratch::style::StyledNode;

fn elem(tag: &str, attrs: &[(&str, &str)], children: Vec<Node>) -> Node {
    let mut m = AttrMap::new();
    for (k, v) in attrs {
        m.push((*k).to_string(), (*v).to_string());
    }
    Node::new(NodeType::Element(ElementData::new(tag.to_string(), m)), children)
}

fn viewport() -> Dimensions {
    let mut d = Dimensions::default();
    d.content.width = 960;
    d.content.height = 540;
    d
}

fn paint(css: &str, root: &Node) -> Vec<DisplayCommand> {
    let sheet = CssParser::new(css).parse_stylesheet();
    let styled = StyledNode::new(root, &sheet);
    let tree = LayoutBox::layout_tree(&styled, viewport()).unwrap();
    let mut console = Console::new(Vec::new());
    console.build_display_commands(&tree).unwrap()
}

const RED: Color = Color { r: 255, g: 0, b: 0, a: 255 };
const BLACK: Color = Color { r: 0, g: 0, b: 0, a: 255 };
const BLUE: Color = Color { r: 0, g: 0, b: 255, a: 255 };

fn rect(cmd: &DisplayCommand) -> (Color, i64, i64, i64, i64) {
    let DisplayCommand::SolidRectangle(c, r) = cmd;
    (*c, r.x, r.y, r.width, r.height)
}

#[test]
fn background_alone_emits_one_rectangle() {
    let root = elem("html", &[], vec![]);
    let cmds = paint(
        "html { display: block; background-color: red; height: 50px; }",
        &root,
    );
    assert_eq!(cmds.len(), 1);
    assert_eq!(rect(&cmds[0]), (RED, 0, 0, 960, 50));
}

#[test]
fn borders_add_four_edge_rectangles() {
    let root = elem("html", &[], vec![]);
    let cmds = paint(
        "html { display: block; background-color: red; border-color: black; height: 50px; \
         border-left-width: 2px; border-right-width: 2px; \
         border-top-width: 2px; border-bottom-width: 2px; }",
        &root,
    );
    assert_eq!(cmds.len(), 5);
    // Background over the whole border box.
    assert_eq!(rect(&cmds[0]), (RED, 0, 0, 960, 54));
    // Left, right, top, bottom edges, each two pixels thick.
    assert_eq!(rect(&cmds[1]), (BLACK, 0, 0, 2, 54));
    assert_eq!(rect(&cmds[2]), (BLACK, 958, 0, 2, 54));
    assert_eq!(rect(&cmds[3]), (BLACK, 0, 0, 960, 2));
    assert_eq!(rect(&cmds[4]), (BLACK, 0, 52, 960, 2));
}

#[test]
fn no_colors_emit_nothing() {
    let root = elem("div", &[], vec![]);
    let cmds = paint("div { display: block; height: 10px; }", &root);
    assert_eq!(cmds.len(), 0);
}

#[test]
fn parents_paint_before_children() {
    let root = elem("div", &[], vec![elem("p", &[], vec![])]);
    let cmds = paint(
        "div { display: block; background-color: red; height: 40px; } \
         p { display: block; background-color: blue; height: 10px; }",
        &root,
    );
    assert_eq!(cmds.len(), 2);
    let (c0, ..) = rect(&cmds[0]);
    let (c1, ..) = rect(&cmds[1]);
    assert_eq!(c0, RED);
    assert_eq!(c1, BLUE);
}

#[test]
fn suppressed_subtree_emits_no_commands() {
    let root = elem(
        "div",
        &[],
        vec![elem(
            "aside",
            &[],
            vec![elem("p", &[], vec![]), elem("p", &[], vec![])],
        )],
    );
    let cmds = paint(
        "div { display: block; } aside { display: none; background-color: red; } \
         p { display: block; background-color: blue; height: 10px; }",
        &root,
    );
    assert_eq!(cmds.len(), 0);
}

#[test]
fn the_console_accumulates_across_passes() {
    let root = elem("div", &[], vec![]);
    let sheet = CssParser::new("div { display: block; background-color: red; height: 5px; }")
        .parse_stylesheet();
    let styled = StyledNode::new(&root, &sheet);
    let tree = LayoutBox::layout_tree(&styled, viewport()).unwrap();
    let mut console = Console::new(Vec::new());
    let first = console.build_display_commands(&tree).unwrap();
    let second = console.build_display_commands(&tree).unwrap();
    assert_eq!(first.len(), 1);
    assert_eq!(second.len(), 2);
    assert_eq!(rect(&second[0]), rect(&second[1]));
}
