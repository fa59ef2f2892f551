//! Style resolver: matches selectors against elements and builds, for
//! every element node, the flattened property-to-value mapping that the
//! cascade yields.  Rules are applied in stylesheet order; a later rule
//! always overrides an earlier one for the same property, regardless of
//! selector shape.

use vstd::prelude::*;

use crate::css::{Declaration, DeclarationView, RuleView, Selector, SelectorView,
    SimpleSelectorView, StyleSheet, Value, ValueView};
use crate::dom::{attr_lookup, spec_classes, ElementData, ElementDataView, Node, NodeType,
    NodeTypeView, NodeView, lemma_nodes_view};
use crate::text::{str_eq, vec_contains_str};

verus! {

/// The display mode resolved from a node's `display` property.
#[derive(Clone, Copy, PartialEq, Eq, Structural, Debug)]
pub enum Display {
    Block,
    Inline,
    InlineBlock,
    /// `display: none`: the node and its subtree produce no box.
    Suppressed,
}

/// The mapping that a declaration list denotes: every declaration is
/// applied in order, so a later declaration shadows an earlier one with
/// the same property name.
pub open spec fn decls_map(ds: Seq<DeclarationView>) -> Map<Seq<char>, ValueView>
    decreases ds.len(),
{
    if ds.len() == 0 {
        Map::empty()
    } else {
        decls_map(ds.drop_last()).insert(ds.last().property, ds.last().value)
    }
}

/// A property-to-value mapping, stored as the list of insertions; a
/// later entry shadows an earlier one with the same property name.
pub struct PropertyMap {
    pub entries: Vec<Declaration>,
}

impl View for PropertyMap {
    type V = Map<Seq<char>, ValueView>;

    open spec fn view(&self) -> Map<Seq<char>, ValueView> {
        decls_map(self.entries.deep_view())
    }
}

impl PropertyMap {
    pub fn new() -> (m: PropertyMap)
        ensures
            m@ == Map::<Seq<char>, ValueView>::empty(),
    {
        let m = PropertyMap { entries: Vec::new() };
        proof {
            assert(m.entries.deep_view() =~= Seq::<DeclarationView>::empty());
        }
        m
    }

    /// Binds `property` to `value`, shadowing any earlier binding.
    pub fn insert(&mut self, property: String, value: Value)
        ensures
            final(self)@ == old(self)@.insert(property@, value@),
    {
        let ghost before = old(self).entries.deep_view();
        self.entries.push(Declaration { property, value });
        proof {
            let after = self.entries.deep_view();
            assert(after.drop_last() =~= before);
        }
    }

    /// A copy with the same bindings.
    pub fn duplicate(&self) -> (r: PropertyMap)
        ensures
            r@ == self@,
    {
        let mut entries: Vec<Declaration> = Vec::new();
        let mut i: usize = 0;
        proof {
            assert(entries.deep_view() =~= self.entries.deep_view().take(0));
        }
        while i < self.entries.len()
            invariant
                i <= self.entries@.len(),
                entries.deep_view() == self.entries.deep_view().take(i as int),
            decreases self.entries@.len() - i,
        {
            let ghost prev = entries.deep_view();
            let ghost idx = i as int;
            entries.push(self.entries[i].duplicate());
            i = i + 1;
            proof {
                assert(entries.deep_view() =~= prev.push(self.entries.deep_view()[idx]));
                assert(prev.push(self.entries.deep_view()[idx]) =~= self.entries.deep_view().take(
                    idx + 1,
                ));
            }
        }
        proof {
            assert(self.entries.deep_view().take(i as int) =~= self.entries.deep_view());
        }
        PropertyMap { entries }
    }

    /// The pixel number of property `name` when it is bound to a
    /// length, `default` otherwise.
    pub fn num_or(&self, name: &str, default: i64) -> (r: i64)
        ensures
            r == spec_num_or(self@, name@, default),
    {
        match self.get(name) {
            Some(Value::Length(n, _)) => *n,
            _ => default,
        }
    }

    /// The value bound to `name`, if any: the latest insertion wins.
    pub fn get(&self, name: &str) -> (r: Option<&Value>)
        ensures
            match r {
                Some(v) => self@.contains_key(name@) && v@ == self@[name@],
                None => !self@.contains_key(name@),
            },
    {
        let ghost dv = self.entries.deep_view();
        let ghost k = name@;
        let mut i: usize = self.entries.len();
        proof {
            assert(dv.take(i as int) =~= dv);
        }
        while i > 0
            invariant
                i <= self.entries@.len(),
                dv == self.entries.deep_view(),
                k == name@,
                self@.contains_key(k) <==> decls_map(dv.take(i as int)).contains_key(k),
                decls_map(dv.take(i as int)).contains_key(k) ==> self@[k] == decls_map(
                    dv.take(i as int),
                )[k],
            decreases i,
        {
            proof {
                assert(dv.take(i as int).drop_last() =~= dv.take(i - 1));
                assert(dv.take(i as int).last() == dv[i - 1]);
            }
            if str_eq(self.entries[i - 1].property.as_str(), name) {
                return Some(&self.entries[i - 1].value);
            }
            i = i - 1;
        }
        proof {
            assert(dv.take(0) =~= Seq::<DeclarationView>::empty());
        }
        None
    }
}

/// Whether one simple selector matches an element: the tag name (when
/// given) equals the element's tag, the id (when given) equals the
/// element's `id` attribute, and every required class is among the
/// element's classes.  All three clauses must hold.
pub open spec fn spec_simple_matches(e: ElementDataView, s: SimpleSelectorView) -> bool {
    &&& match s.tag_name {
        Some(t) => t == e.tag_name,
        None => true,
    }
    &&& match s.id {
        Some(id) => attr_lookup(e.attributes, "id"@) == Some(id),
        None => true,
    }
    &&& forall|i: int|
        0 <= i < s.classes.len() ==> spec_classes(e).contains(#[trigger] s.classes[i])
}

/// Whether a selector matches: some simple selector in it matches.
pub open spec fn spec_selector_matches(e: ElementDataView, s: SelectorView) -> bool {
    exists|i: int| 0 <= i < s.simple.len() && spec_simple_matches(e, s.simple[i])
}

/// Whether a rule applies to an element: some of its selectors matches.
pub open spec fn spec_rule_matches(e: ElementDataView, r: RuleView) -> bool {
    exists|i: int| 0 <= i < r.selectors.len() && spec_selector_matches(e, r.selectors[i])
}

/// All declarations of `ds` applied to `m` in order.
pub open spec fn insert_all(m: Map<Seq<char>, ValueView>, ds: Seq<DeclarationView>) -> Map<
    Seq<char>,
    ValueView,
>
    decreases ds.len(),
{
    if ds.len() == 0 {
        m
    } else {
        insert_all(m, ds.drop_last()).insert(ds.last().property, ds.last().value)
    }
}

/// The cascade: rules are scanned in stylesheet order, and each rule
/// that matches the element contributes all of its declarations,
/// overwriting earlier bindings of the same property.
pub open spec fn matched_styles(e: ElementDataView, rules: Seq<RuleView>) -> Map<
    Seq<char>,
    ValueView,
>
    decreases rules.len(),
{
    if rules.len() == 0 {
        Map::empty()
    } else {
        let m = matched_styles(e, rules.drop_last());
        if spec_rule_matches(e, rules.last()) {
            insert_all(m, rules.last().declarations)
        } else {
            m
        }
    }
}

/// A document element together with its resolved properties and its
/// styled element children (text and comment children produce no styled
/// node).
pub struct StyledNode {
    pub styles: PropertyMap,
    pub children: Vec<StyledNode>,
}

#[verifier::ext_equal]
pub struct StyledNodeView {
    pub styles: Map<Seq<char>, ValueView>,
    pub children: Seq<StyledNodeView>,
}

pub open spec fn styled_node_view(n: StyledNode) -> StyledNodeView
    decreases n,
{
    StyledNodeView { styles: n.styles@, children: styled_nodes_view(n.children@) }
}

pub open spec fn styled_nodes_view(s: Seq<StyledNode>) -> Seq<StyledNodeView>
    decreases s,
{
    if s.len() == 0 {
        Seq::empty()
    } else {
        styled_nodes_view(s.drop_last()).push(styled_node_view(s.last()))
    }
}

impl View for StyledNode {
    type V = StyledNodeView;

    open spec fn view(&self) -> StyledNodeView {
        styled_node_view(*self)
    }
}

/// `styled_nodes_view` maps the sequence elementwise.
pub proof fn lemma_styled_nodes_view(s: Seq<StyledNode>)
    ensures
        styled_nodes_view(s).len() == s.len(),
        forall|i: int| 0 <= i < s.len() ==> styled_nodes_view(s)[i] == styled_node_view(s[i]),
    decreases s,
{
    if s.len() > 0 {
        lemma_styled_nodes_view(s.drop_last());
    }
}

/// The styled tree that a document node and a stylesheet denote.
pub open spec fn spec_styled(n: NodeView, rules: Seq<RuleView>) -> StyledNodeView
    decreases n,
{
    StyledNodeView {
        styles: match n.node_type {
            NodeTypeView::Element(e) => matched_styles(e, rules),
            _ => Map::empty(),
        },
        children: spec_styled_children(n.children, rules),
    }
}

/// The styled children of a node: element children only, in order.
pub open spec fn spec_styled_children(ns: Seq<NodeView>, rules: Seq<RuleView>) -> Seq<
    StyledNodeView,
>
    decreases ns,
{
    if ns.len() == 0 {
        Seq::empty()
    } else {
        spec_styled_children(ns.drop_last(), rules) + (if ns.last().node_type is Element {
            seq![spec_styled(ns.last(), rules)]
        } else {
            Seq::empty()
        })
    }
}

/// The display mode that a property mapping denotes: the `display`
/// keyword when it is one of the recognized words, `Inline` otherwise
/// and by default.
pub open spec fn spec_display(m: Map<Seq<char>, ValueView>) -> Display {
    if m.contains_key("display"@) {
        match m["display"@] {
            ValueView::Other(s) => {
                if s == "block"@ {
                    Display::Block
                } else if s == "inline"@ {
                    Display::Inline
                } else if s == "none"@ {
                    Display::Suppressed
                } else if s == "inline-block"@ {
                    Display::InlineBlock
                } else {
                    Display::Inline
                }
            },
            _ => Display::Inline,
        }
    } else {
        Display::Inline
    }
}

/// The pixel number of property `name` when it is bound to a length,
/// the fallback otherwise.
pub open spec fn spec_num_or(m: Map<Seq<char>, ValueView>, name: Seq<char>, default: i64) -> i64 {
    if m.contains_key(name) {
        match m[name] {
            ValueView::Length(n, _) => n,
            _ => default,
        }
    } else {
        default
    }
}

impl StyledNode {
    /// Resolves the whole tree: element children are styled recursively,
    /// text and comment children are dropped.
    pub fn new(node: &Node, style_sheet: &StyleSheet) -> (r: StyledNode)
        ensures
            r@ == spec_styled(node@, style_sheet@),
        decreases node,
    {
        let styles = match &node.node_type {
            NodeType::Element(e) => Self::styles(e, style_sheet),
            _ => PropertyMap::new(),
        };
        let mut style_children: Vec<StyledNode> = Vec::new();
        let ghost cviews = node@.children;
        proof {
            lemma_nodes_view(node.children@);
            assert(cviews.take(0) =~= Seq::<NodeView>::empty());
        }
        let mut i: usize = 0;
        while i < node.children.len()
            invariant
                cviews == node@.children,
                cviews.len() == node.children@.len(),
                forall|j: int| 0 <= j < cviews.len() ==> cviews[j] == crate::dom::node_view(
                    node.children@[j],
                ),
                i <= cviews.len(),
                styled_nodes_view(style_children@) == spec_styled_children(
                    cviews.take(i as int),
                    style_sheet@,
                ),
            decreases cviews.len() - i,
        {
            let ghost prev = style_children@;
            proof {
                assert(cviews.take(i + 1).drop_last() =~= cviews.take(i as int));
                assert(cviews.take(i + 1).last() == cviews[i as int]);
            }
            if matches!(&node.children[i].node_type, NodeType::Element(_)) {
                let child = StyledNode::new(&node.children[i], style_sheet);
                style_children.push(child);
                proof {
                    assert(style_children@.drop_last() =~= prev);
                    assert(styled_nodes_view(style_children@) =~= spec_styled_children(
                        cviews.take(i + 1),
                        style_sheet@,
                    ));
                }
            } else {
                proof {
                    assert(styled_nodes_view(style_children@) =~= spec_styled_children(
                        cviews.take(i + 1),
                        style_sheet@,
                    ));
                }
            }
            i = i + 1;
        }
        proof {
            assert(cviews.take(i as int) =~= cviews);
        }
        let r = StyledNode { styles, children: style_children };
        proof {
            assert(r@ =~= spec_styled(node@, style_sheet@));
        }
        r
    }

    /// The cascade for one element: every matching rule contributes its
    /// declarations, in stylesheet order.
    pub fn styles(element: &ElementData, stylesheet: &StyleSheet) -> (r: PropertyMap)
        ensures
            r@ == matched_styles(element@, stylesheet@),
    {
        let mut styles = PropertyMap::new();
        let ghost rules = stylesheet@;
        proof {
            assert(rules.take(0) =~= Seq::<RuleView>::empty());
        }
        let mut i: usize = 0;
        while i < stylesheet.rules.len()
            invariant
                rules == stylesheet@,
                rules.len() == stylesheet.rules@.len(),
                i <= rules.len(),
                styles@ == matched_styles(element@, rules.take(i as int)),
            decreases rules.len() - i,
        {
            proof {
                assert(rules.take(i + 1).drop_last() =~= rules.take(i as int));
                assert(rules.take(i + 1).last() == rules[i as int]);
                assert(rules[i as int] == stylesheet.rules@[i as int].deep_view());
            }
            let rule = &stylesheet.rules[i];
            let mut matched: bool = false;
            let ghost selviews = rules[i as int].selectors;
            let mut s: usize = 0;
            while s < rule.selectors.len() && !matched
                invariant
                    selviews == rules[i as int].selectors,
                    selviews.len() == rule.selectors@.len(),
                    forall|j: int| 0 <= j < selviews.len() ==> selviews[j]
                        == rule.selectors@[j].deep_view(),
                    s <= selviews.len(),
                    matched ==> spec_rule_matches(element@, rules[i as int]),
                    !matched ==> forall|j: int| 0 <= j < s ==> !spec_selector_matches(
                        element@,
                        selviews[j],
                    ),
                decreases selviews.len() - s,
            {
                if Self::selector_matches(element, &rule.selectors[s]) {
                    matched = true;
                    proof {
                        assert(spec_selector_matches(element@, selviews[s as int]));
                    }
                }
                s = s + 1;
            }
            if matched {
                let ghost declviews = rules[i as int].declarations;
                let ghost m0 = styles@;
                proof {
                    assert(declviews.take(0) =~= Seq::<DeclarationView>::empty());
                }
                let mut d: usize = 0;
                while d < rule.declarations.len()
                    invariant
                        declviews == rules[i as int].declarations,
                        declviews.len() == rule.declarations@.len(),
                        forall|j: int| 0 <= j < declviews.len() ==> declviews[j]
                            == rule.declarations@[j].deep_view(),
                        d <= declviews.len(),
                        styles@ == insert_all(m0, declviews.take(d as int)),
                    decreases declviews.len() - d,
                {
                    proof {
                        assert(declviews.take(d + 1).drop_last() =~= declviews.take(d as int));
                        assert(declviews.take(d + 1).last() == declviews[d as int]);
                    }
                    let decl = &rule.declarations[d];
                    styles.insert(decl.property.clone(), decl.value.duplicate());
                    d = d + 1;
                }
                proof {
                    assert(declviews.take(d as int) =~= declviews);
                }
            } else {
                proof {
                    assert(forall|j: int| 0 <= j < selviews.len() ==> !spec_selector_matches(
                        element@,
                        selviews[j],
                    ));
                    assert(!spec_rule_matches(element@, rules[i as int]));
                }
            }
            i = i + 1;
        }
        proof {
            assert(rules.take(i as int) =~= rules);
        }
        styles
    }

    /// Whether the selector matches the element.
    pub fn selector_matches(element: &ElementData, selector: &Selector) -> (r: bool)
        ensures
            r == spec_selector_matches(element@, selector@),
    {
        let ghost simples = selector@.simple;
        let mut i: usize = 0;
        while i < selector.simple.len()
            invariant
                simples == selector@.simple,
                simples.len() == selector.simple@.len(),
                forall|j: int| 0 <= j < simples.len() ==> simples[j]
                    == selector.simple@[j].deep_view(),
                i <= simples.len(),
                forall|j: int| 0 <= j < i ==> !spec_simple_matches(element@, simples[j]),
            decreases simples.len() - i,
        {
            let simple = &selector.simple[i];
            let tag_ok: bool = match &simple.tag_name {
                Some(t) => str_eq(t.as_str(), element.tag_name.as_str()),
                None => true,
            };
            let id_ok: bool = match element.get_id() {
                Some(id_val) => match &simple.id {
                    Some(id) => str_eq(id.as_str(), id_val.as_str()),
                    None => true,
                },
                None => simple.id.is_none(),
            };
            proof {
                assert(tag_ok == match simples[i as int].tag_name {
                    Some(t) => t == element@.tag_name,
                    None => true,
                });
                assert(id_ok == match simples[i as int].id {
                    Some(id) => attr_lookup(element@.attributes, "id"@) == Some(id),
                    None => true,
                });
            }
            if tag_ok && id_ok {
                let element_classes = element.get_classes();
                let ghost clviews = simples[i as int].classes;
                let mut all_classes: bool = true;
                let mut c: usize = 0;
                while c < simple.classes.len() && all_classes
                    invariant
                        clviews == simples[i as int].classes,
                        clviews.len() == simple.classes@.len(),
                        forall|j: int| 0 <= j < clviews.len() ==> clviews[j]
                            == simple.classes@[j]@,
                        c <= clviews.len(),
                        element_classes.deep_view() == spec_classes(element@),
                        all_classes <==> forall|j: int|
                            0 <= j < c ==> spec_classes(element@).contains(#[trigger] clviews[j]),
                    decreases clviews.len() - c,
                {
                    let present = vec_contains_str(&element_classes, simple.classes[c].as_str());
                    if !present {
                        all_classes = false;
                        proof {
                            assert(!spec_classes(element@).contains(clviews[c as int]));
                        }
                    }
                    c = c + 1;
                }
                if all_classes {
                    proof {
                        assert(spec_simple_matches(element@, simples[i as int]));
                    }
                    return true;
                }
                proof {
                    assert(!spec_simple_matches(element@, simples[i as int]));
                }
            } else {
                proof {
                    assert(!spec_simple_matches(element@, simples[i as int]));
                }
            }
            i = i + 1;
        }
        false
    }

    /// The value bound to `name` on this node, if any.
    pub fn value(&self, name: &str) -> (r: Option<&Value>)
        ensures
            match r {
                Some(v) => self@.styles.contains_key(name@) && v@ == self@.styles[name@],
                None => !self@.styles.contains_key(name@),
            },
    {
        self.styles.get(name)
    }

    /// The node's display mode, `Inline` by default.
    pub fn get_display(&self) -> (d: Display)
        ensures
            d == spec_display(self@.styles),
    {
        match self.value("display") {
            Some(Value::Other(v)) => {
                if str_eq(v.as_str(), "block") {
                    Display::Block
                } else if str_eq(v.as_str(), "inline") {
                    Display::Inline
                } else if str_eq(v.as_str(), "none") {
                    Display::Suppressed
                } else if str_eq(v.as_str(), "inline-block") {
                    Display::InlineBlock
                } else {
                    Display::Inline
                }
            },
            _ => Display::Inline,
        }
    }

    /// The pixel number of property `name` when it resolves to a
    /// length, `default` otherwise.
    pub fn num_or(&self, name: &str, default: i64) -> (r: i64)
        ensures
            r == spec_num_or(self@.styles, name@, default),
    {
        match self.value(name) {
            Some(Value::Length(n, _)) => *n,
            _ => default,
        }
    }
}

/// A simple selector is a conjunction: when it carries an id that the
/// element does not bear, it fails to match even if the tag name and
/// every class constraint agree; and when it requires a class the
/// element lacks, it fails even if tag name and id agree.
pub proof fn lemma_selector_conjunction(e: ElementDataView, s: SimpleSelectorView)
    ensures
        (match s.id {
            Some(id) => attr_lookup(e.attributes, "id"@) != Some(id),
            None => false,
        }) ==> !spec_simple_matches(e, s),
        (exists|i: int|
            0 <= i < s.classes.len() && !spec_classes(e).contains(#[trigger] s.classes[i]))
            ==> !spec_simple_matches(e, s),
{
}

/// Cascade order: when two rules both match the element and both bind
/// the same property, the later rule in stylesheet order wins — its
/// last binding of the property is the resolved value, whatever the
/// earlier rule said and whatever shape its selectors had.
pub proof fn lemma_cascade_later_wins(
    e: ElementDataView,
    rules: Seq<RuleView>,
    j: int,
    d: int,
    p: Seq<char>,
)
    requires
        0 <= j < rules.len(),
        spec_rule_matches(e, rules[j]),
        0 <= d < rules[j].declarations.len(),
        rules[j].declarations[d].property == p,
        // the chosen binding is the rule's last one for `p`
        forall|d2: int| d < d2 < rules[j].declarations.len() ==> rules[j].declarations[d2].property
            != p,
        // no later matching rule binds `p` again
        forall|j2: int, d2: int|
            j < j2 < rules.len() && spec_rule_matches(e, #[trigger] rules[j2]) && 0 <= d2
                < rules[j2].declarations.len() ==> #[trigger] rules[j2].declarations[d2].property
                != p,
    ensures
        matched_styles(e, rules).contains_key(p),
        matched_styles(e, rules)[p] == rules[j].declarations[d].value,
    decreases rules.len(),
{
    let last = rules.len() - 1;
    if j == last {
        lemma_insert_all_last(matched_styles(e, rules.drop_last()), rules[j].declarations, d, p);
    } else {
        if spec_rule_matches(e, rules.last()) {
            lemma_insert_all_absent(
                matched_styles(e, rules.drop_last()),
                rules.last().declarations,
                p,
            );
        }
        lemma_cascade_later_wins(e, rules.drop_last(), j, d, p);
    }
}

/// The cascade resolves exactly the declared properties: `p` is bound
/// in the resolved mapping if and only if some rule that matches the
/// element declares `p`.
pub proof fn lemma_cascade_domain(e: ElementDataView, rules: Seq<RuleView>, p: Seq<char>)
    ensures
        matched_styles(e, rules).contains_key(p) <==> exists|j: int, d: int|
            0 <= j < rules.len() && spec_rule_matches(e, #[trigger] rules[j]) && 0 <= d
                < rules[j].declarations.len() && #[trigger] rules[j].declarations[d].property
                == p,
    decreases rules.len(),
{
    if rules.len() > 0 {
        let prefix = rules.drop_last();
        lemma_cascade_domain(e, prefix, p);
        if spec_rule_matches(e, rules.last()) {
            lemma_insert_all_domain(matched_styles(e, prefix), rules.last().declarations, p);
        }
        if matched_styles(e, rules).contains_key(p) {
            if matched_styles(e, prefix).contains_key(p) {
                let (j, d) = choose|j: int, d: int|
                    0 <= j < prefix.len() && spec_rule_matches(e, #[trigger] prefix[j]) && 0 <= d
                        < prefix[j].declarations.len()
                        && #[trigger] prefix[j].declarations[d].property == p;
                assert(rules[j] == prefix[j]);
                assert(spec_rule_matches(e, rules[j]) && rules[j].declarations[d].property == p);
            } else {
                let d = choose|d: int|
                    0 <= d < rules.last().declarations.len()
                        && #[trigger] rules.last().declarations[d].property == p;
                let j = rules.len() - 1;
                assert(spec_rule_matches(e, rules[j]) && rules[j].declarations[d].property == p);
            }
        }
        if exists|j: int, d: int|
            0 <= j < rules.len() && spec_rule_matches(e, #[trigger] rules[j]) && 0 <= d
                < rules[j].declarations.len() && #[trigger] rules[j].declarations[d].property
                == p {
            let (j, d) = choose|j: int, d: int|
                0 <= j < rules.len() && spec_rule_matches(e, #[trigger] rules[j]) && 0 <= d
                    < rules[j].declarations.len()
                    && #[trigger] rules[j].declarations[d].property == p;
            if j < rules.len() - 1 {
                assert(prefix[j] == rules[j]);
                assert(spec_rule_matches(e, prefix[j]) && prefix[j].declarations[d].property
                    == p);
                assert(matched_styles(e, prefix).contains_key(p));
                if spec_rule_matches(e, rules.last()) {
                    lemma_insert_all_monotone(
                        matched_styles(e, prefix),
                        rules.last().declarations,
                        p,
                    );
                }
            } else {
                assert(matched_styles(e, rules).contains_key(p));
            }
        }
    }
}

/// Applying a declaration list binds exactly the old keys and the
/// listed properties.
proof fn lemma_insert_all_domain(m: Map<Seq<char>, ValueView>, ds: Seq<DeclarationView>,
    p: Seq<char>)
    ensures
        insert_all(m, ds).contains_key(p) <==> (m.contains_key(p) || exists|d: int|
            0 <= d < ds.len() && #[trigger] ds[d].property == p),
    decreases ds.len(),
{
    if ds.len() > 0 {
        lemma_insert_all_domain(m, ds.drop_last(), p);
        if insert_all(m, ds).contains_key(p) && ds.last().property != p {
            if !m.contains_key(p) {
                let d = choose|d: int|
                    0 <= d < ds.drop_last().len() && #[trigger] ds.drop_last()[d].property == p;
                assert(ds[d].property == p);
            }
        }
        if exists|d: int| 0 <= d < ds.len() && #[trigger] ds[d].property == p {
            let d = choose|d: int| 0 <= d < ds.len() && #[trigger] ds[d].property == p;
            if d < ds.len() - 1 {
                assert(ds.drop_last()[d].property == p);
            }
        }
    }
}

/// Applying declarations never unbinds a property.
proof fn lemma_insert_all_monotone(m: Map<Seq<char>, ValueView>, ds: Seq<DeclarationView>,
    p: Seq<char>)
    requires
        m.contains_key(p),
    ensures
        insert_all(m, ds).contains_key(p),
    decreases ds.len(),
{
    if ds.len() > 0 {
        lemma_insert_all_monotone(m, ds.drop_last(), p);
    }
}

/// After applying a declaration list whose last binding of `p` stands at
/// index `d`, the mapping binds `p` to that value.
proof fn lemma_insert_all_last(m: Map<Seq<char>, ValueView>, ds: Seq<DeclarationView>, d: int,
    p: Seq<char>)
    requires
        0 <= d < ds.len(),
        ds[d].property == p,
        forall|d2: int| d < d2 < ds.len() ==> ds[d2].property != p,
    ensures
        insert_all(m, ds).contains_key(p),
        insert_all(m, ds)[p] == ds[d].value,
    decreases ds.len(),
{
    if d == ds.len() - 1 {
    } else {
        lemma_insert_all_last(m, ds.drop_last(), d, p);
    }
}

/// Applying a declaration list that never binds `p` leaves `p` alone.
proof fn lemma_insert_all_absent(m: Map<Seq<char>, ValueView>, ds: Seq<DeclarationView>,
    p: Seq<char>)
    requires
        forall|d2: int| 0 <= d2 < ds.len() ==> ds[d2].property != p,
    ensures
        insert_all(m, ds).contains_key(p) <==> m.contains_key(p),
        insert_all(m, ds).contains_key(p) ==> insert_all(m, ds)[p] == m[p],
    decreases ds.len(),
{
    if ds.len() > 0 {
        lemma_insert_all_absent(m, ds.drop_last(), p);
    }
}

} // verus!
