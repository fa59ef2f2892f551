use browser_from_scratch::css::{Color, Declaration, Rule, Selector, SimpleSelector, StyleSheet,
    Unit, Value};
use browser_from_scratch::dom::{AttrMap, ElementData, Node, NodeType};

fn elem(tag: &str, attrs: &[(&str, &str)], children: Vec<Node>) -> Node {
    let mut m = AttrMap::new();
    for (k, v) in attrs {
        m.push((*k).to_string(), (*v).to_string());
    }
    Node::new(NodeType::Element(ElementData::new(tag.to_string(), m)), children)
}

fn link(rel: Option<&str>, href: Option<&str>) -> Node {
    let mut attrs: Vec<(&str, &str)> = Vec::new();
    if let Some(r) = rel {
        attrs.push(("rel", r));
    }
    if let Some(h) = href {
        attrs.push(("href", h));
    }
    elem("link", &attrs, vec![])
}

#[test]
fn stylesheet_link_is_found_in_the_tree() {
    let root = elem(
        "html",
        &[],
        vec![elem("head", &[], vec![link(Some("stylesheet"), Some("style.css"))])],
    );
    assert_eq!(root.stylesheet_href().as_deref(), Some("style.css"));
}

#[test]
fn a_matching_node_takes_precedence_over_its_children() {
    let inner = link(Some("stylesheet"), Some("inner.css"));
    let mut m = AttrMap::new();
    m.push("rel".to_string(), "stylesheet".to_string());
    m.push("href".to_string(), "outer.css".to_string());
    let outer = Node::new(
        NodeType::Element(ElementData::new("link".to_string(), m)),
        vec![inner],
    );
    assert_eq!(outer.stylesheet_href().as_deref(), Some("outer.css"));
}

#[test]
fn the_last_matching_subtree_wins_among_siblings() {
    let root = elem(
        "html",
        &[],
        vec![
            link(Some("stylesheet"), Some("first.css")),
            link(Some("stylesheet"), Some("second.css")),
        ],
    );
    assert_eq!(root.stylesheet_href().as_deref(), Some("second.css"));
}

#[test]
fn links_without_the_stylesheet_relation_are_skipped() {
    let root = elem(
        "html",
        &[],
        vec![link(Some("icon"), Some("icon.png")), link(None, Some("plain.css"))],
    );
    assert_eq!(root.stylesheet_href(), None);
}

#[test]
fn data_model_constructors() {
    assert_eq!(Color::new(1, 2, 3, 4), Color { r: 1, g: 2, b: 3, a: 4 });
    let d = Declaration::new("width".to_string(), Value::Length(5, Unit::Px));
    assert_eq!(d.property, "width");
    assert_eq!(d.value, Value::Length(5, Unit::Px));
    let simple = SimpleSelector::new(Some("div".to_string()), None, vec!["a".to_string()]);
    assert!(!simple.is_empty());
    assert!(SimpleSelector::default().is_empty());
    let sel = Selector::new(vec![simple], vec![]);
    assert!(!sel.is_empty());
    assert!(Selector::default().is_empty());
    let rule = Rule::new(vec![sel], vec![d]);
    let sheet = StyleSheet::new(vec![rule]);
    assert_eq!(sheet.rules.len(), 1);
    assert_eq!(StyleSheet::default().rules.len(), 0);
}

#[test]
fn duplicates_are_deep_copies() {
    let v = Value::Other("keyword".to_string());
    assert_eq!(v.duplicate(), v);
    let d = Declaration::new("color".to_string(), Value::Color(Color::new(9, 8, 7, 6)));
    assert_eq!(d.duplicate(), d);
}
