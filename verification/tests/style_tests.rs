use browser_from_scratch::css::{SimpleSelector, Selector, Unit, Value};
use browser_from_scratch::css_parser::CssParser;
use browser_from_scratch::dom::{AttrMap, ElementData, Node, NodeType};
use browser_from_scratch::style::{Display, StyledNode};

fn elem(tag: &str, attrs: &[(&str, &str)], children: Vec<Node>) -> Node {
    let mut m = AttrMap::new();
    for (k, v) in attrs {
        m.push((*k).to_string(), (*v).to_string());
    }
    Node::new(NodeType::Element(ElementData::new(tag.to_string(), m)), children)
}

fn element_data(tag: &str, attrs: &[(&str, &str)]) -> ElementData {
    let mut m = AttrMap::new();
    for (k, v) in attrs {
        m.push((*k).to_string(), (*v).to_string());
    }
    ElementData::new(tag.to_string(), m)
}

fn selector(tag: Option<&str>, id: Option<&str>, classes: &[&str]) -> Selector {
    Selector::new(
        vec![SimpleSelector::new(
            tag.map(|t| t.to_string()),
            id.map(|i| i.to_string()),
            classes.iter().map(|c| c.to_string()).collect(),
        )],
        Vec::new(),
    )
}

fn parse(css: &str) -> browser_from_scratch::css::StyleSheet {
    CssParser::new(css).parse_stylesheet()
}

#[test]
fn attributes_and_classes() {
    let e = element_data("div", &[("id", "main"), ("class", "a b  c")]);
    assert_eq!(e.get_id().map(|s| s.as_str()), Some("main"));
    // Splitting keeps empty fields, as splitting on a single space does.
    assert_eq!(e.get_classes(), vec!["a", "b", "", "c"]);
    let plain = element_data("div", &[]);
    assert_eq!(plain.get_id(), None);
    assert_eq!(plain.get_classes(), Vec::<String>::new());
}

#[test]
fn id_and_class_constraints_are_conjunctive() {
    let sel = selector(Some("div"), Some("x"), &["a"]);
    let good = element_data("div", &[("id", "x"), ("class", "a b")]);
    assert!(StyledNode::selector_matches(&good, &sel));
    // Same tag, same classes, wrong id: no match.
    let wrong_id = element_data("div", &[("id", "y"), ("class", "a b")]);
    assert!(!StyledNode::selector_matches(&wrong_id, &sel));
    // Same tag, same id, missing class: no match.
    let missing_class = element_data("div", &[("id", "x"), ("class", "b")]);
    assert!(!StyledNode::selector_matches(&missing_class, &sel));
    // An element with no id never matches an id-qualified selector.
    let no_id = element_data("div", &[("class", "a")]);
    assert!(!StyledNode::selector_matches(&no_id, &sel));
    // Wrong tag fails even with id and classes in place.
    let wrong_tag = element_data("p", &[("id", "x"), ("class", "a")]);
    assert!(!StyledNode::selector_matches(&wrong_tag, &sel));
}

#[test]
fn selector_without_constraints_matches_everything() {
    let sel = selector(None, None, &[]);
    assert!(StyledNode::selector_matches(&element_data("div", &[]), &sel));
    assert!(StyledNode::selector_matches(&element_data("p", &[("id", "z")]), &sel));
}

#[test]
fn later_rule_wins_regardless_of_selector_shape() {
    // The id selector is more specific, yet the later rule wins.
    let sheet = parse("#special { width: 10px; } div { width: 20px; }");
    let root = elem("div", &[("id", "special")], vec![]);
    let styled = StyledNode::new(&root, &sheet);
    assert_eq!(*styled.value("width").unwrap(), Value::Length(20, Unit::Px));
}

#[test]
fn later_declaration_wins_within_a_rule() {
    let sheet = parse("div { width: 10px; width: 30px; }");
    let root = elem("div", &[], vec![]);
    let styled = StyledNode::new(&root, &sheet);
    assert_eq!(*styled.value("width").unwrap(), Value::Length(30, Unit::Px));
}

#[test]
fn a_rule_applies_once_even_if_several_selectors_match() {
    let sheet = parse("div, div { height: 5px; } p { height: 7px; }");
    let root = elem("div", &[], vec![]);
    let styled = StyledNode::new(&root, &sheet);
    assert_eq!(*styled.value("height").unwrap(), Value::Length(5, Unit::Px));
    assert!(styled.value("width").is_none());
}

#[test]
fn display_modes() {
    let sheet = parse(
        "a { display: block; } b { display: inline; } c { display: inline-block; } \
         d { display: none; } e { display: whatever; }",
    );
    let mk = |tag: &str| {
        let root = elem(tag, &[], vec![]);
        StyledNode::new(&root, &sheet).get_display()
    };
    assert_eq!(mk("a"), Display::Block);
    assert_eq!(mk("b"), Display::Inline);
    assert_eq!(mk("c"), Display::InlineBlock);
    assert_eq!(mk("d"), Display::Suppressed);
    // Unknown keywords and absent declarations default to inline.
    assert_eq!(mk("e"), Display::Inline);
    assert_eq!(mk("f"), Display::Inline);
}

#[test]
fn num_or_reads_lengths_with_fallback() {
    let sheet = parse("div { width: 12px; display: block; }");
    let root = elem("div", &[], vec![]);
    let styled = StyledNode::new(&root, &sheet);
    assert_eq!(styled.num_or("width", 7), 12);
    // Not a length: the fallback applies.
    assert_eq!(styled.num_or("display", 7), 7);
    // Absent: the fallback applies.
    assert_eq!(styled.num_or("height", 9), 9);
}

#[test]
fn text_and_comment_children_get_no_styled_node() {
    let sheet = parse("div { display: block; }");
    let root = elem(
        "div",
        &[],
        vec![
            Node::new(NodeType::Text("hello".to_string()), vec![]),
            elem("p", &[], vec![]),
            Node::new(NodeType::Comment("note".to_string()), vec![]),
        ],
    );
    let styled = StyledNode::new(&root, &sheet);
    assert_eq!(styled.children.len(), 1);
}
