//! Document tree: element, text and comment nodes, with tag names and
//! attribute maps.  The tree is built by an external producer and is
//! immutable once built.

use vstd::prelude::*;

use crate::text::{chars_of, str_eq, string_from_chars};

verus! {

/// One `name="value"` pair on an element.
pub struct Attribute {
    pub name: String,
    pub value: String,
}

pub struct AttributeView {
    pub name: Seq<char>,
    pub value: Seq<char>,
}

impl View for Attribute {
    type V = AttributeView;

    open spec fn view(&self) -> AttributeView {
        AttributeView { name: self.name@, value: self.value@ }
    }
}

impl DeepView for Attribute {
    type V = AttributeView;

    open spec fn deep_view(&self) -> AttributeView {
        self.view()
    }
}

/// The value bound to `name` in an attribute list: the first entry with
/// that name, if any.
pub open spec fn attr_lookup(attrs: Seq<AttributeView>, name: Seq<char>) -> Option<Seq<char>>
    decreases attrs.len(),
{
    if attrs.len() == 0 {
        None
    } else if attrs[0].name == name {
        Some(attrs[0].value)
    } else {
        attr_lookup(attrs.drop_first(), name)
    }
}

/// An element's attributes.  Names are expected to be unique, as a map
/// producer would deliver them; lookup takes the first match either way.
pub struct AttrMap {
    pub entries: Vec<Attribute>,
}

impl View for AttrMap {
    type V = Seq<AttributeView>;

    open spec fn view(&self) -> Seq<AttributeView> {
        self.entries.deep_view()
    }
}

impl AttrMap {
    pub fn new() -> (m: AttrMap)
        ensures
            m@ == Seq::<AttributeView>::empty(),
    {
        let m = AttrMap { entries: Vec::new() };
        assert(m@ =~= Seq::<AttributeView>::empty());
        m
    }

    /// Appends an attribute.  Callers building a well-formed map do not
    /// repeat names; a repeated name leaves the earlier binding in force.
    pub fn push(&mut self, name: String, value: String)
        ensures
            final(self)@ == old(self)@.push(AttributeView { name: name@, value: value@ }),
    {
        let ghost before = self@;
        self.entries.push(Attribute { name, value });
        assert(self@ =~= before.push(self.entries@.last()@));
    }

    /// The value bound to `name`, if any.
    pub fn get(&self, name: &str) -> (r: Option<&String>)
        ensures
            match r {
                Some(v) => attr_lookup(self@, name@) == Some(v@),
                None => attr_lookup(self@, name@) is None,
            },
    {
        let mut i: usize = 0;
        assert(self@.skip(0) =~= self@);
        while i < self.entries.len()
            invariant
                i <= self.entries@.len(),
                attr_lookup(self@, name@) == attr_lookup(self@.skip(i as int), name@),
            decreases self.entries@.len() - i,
        {
            assert(self@.skip(i as int)[0] == self@[i as int]);
            if str_eq(self.entries[i].name.as_str(), name) {
                return Some(&self.entries[i].value);
            }
            assert(self@.skip(i as int).drop_first() =~= self@.skip(i + 1));
            i = i + 1;
        }
        assert(self@.skip(i as int).len() == 0);
        None
    }
}

/// Element payload: tag name plus attributes.
pub struct ElementData {
    pub tag_name: String,
    pub attributes: AttrMap,
}

pub struct ElementDataView {
    pub tag_name: Seq<char>,
    pub attributes: Seq<AttributeView>,
}

impl View for ElementData {
    type V = ElementDataView;

    open spec fn view(&self) -> ElementDataView {
        ElementDataView { tag_name: self.tag_name@, attributes: self.attributes@ }
    }
}

/// Where the first separator stands in `s`, or `s.len()` if none occurs.
pub open spec fn first_sep(s: Seq<char>, sep: char) -> int
    decreases s.len(),
{
    if s.len() == 0 {
        0
    } else if s[0] == sep {
        0
    } else {
        1 + first_sep(s.drop_first(), sep)
    }
}

pub proof fn lemma_first_sep(s: Seq<char>, sep: char)
    ensures
        0 <= first_sep(s, sep) <= s.len(),
        first_sep(s, sep) < s.len() ==> s[first_sep(s, sep)] == sep,
        forall|j: int| 0 <= j < first_sep(s, sep) ==> s[j] != sep,
    decreases s.len(),
{
    if s.len() > 0 && s[0] != sep {
        lemma_first_sep(s.drop_first(), sep);
        assert forall|j: int| 0 <= j < first_sep(s, sep) implies s[j] != sep by {
            if j > 0 {
                assert(s.drop_first()[j - 1] == s[j]);
            }
        }
    }
}

/// The fields of `s` separated by `sep`, empties included, as
/// `str::split` would yield them.
pub open spec fn spec_split(s: Seq<char>, sep: char) -> Seq<Seq<char>>
    decreases s.len(),
    via spec_split_decreases
{
    let i = first_sep(s, sep);
    if i >= s.len() {
        seq![s]
    } else {
        seq![s.subrange(0, i)] + spec_split(s.subrange(i + 1, s.len() as int), sep)
    }
}

#[via_fn]
proof fn spec_split_decreases(s: Seq<char>, sep: char) {
    lemma_first_sep(s, sep);
}

proof fn lemma_split_no_sep(t: Seq<char>, sep: char)
    requires
        forall|j: int| 0 <= j < t.len() ==> t[j] != sep,
    ensures
        spec_split(t, sep) == seq![t],
{
    lemma_first_sep(t, sep);
    if first_sep(t, sep) < t.len() {
        assert(t[first_sep(t, sep)] == sep);
    }
}

proof fn lemma_split_head(t: Seq<char>, sep: char, rest: Seq<char>)
    requires
        forall|j: int| 0 <= j < t.len() ==> t[j] != sep,
    ensures
        spec_split(t + seq![sep] + rest, sep) == seq![t] + spec_split(rest, sep),
{
    let s = t + seq![sep] + rest;
    lemma_first_sep(s, sep);
    let i = first_sep(s, sep);
    assert(s[t.len() as int] == sep);
    assert(i <= t.len());
    if i < t.len() {
        assert(s[i] == t[i]);
    }
    assert(i == t.len());
    assert(s.subrange(0, i) =~= t);
    assert(s.subrange(i + 1, s.len() as int) =~= rest);
}

/// Splits a string on a separator character; empty fields are kept.
pub fn split_on(s: &str, sep: char) -> (r: Vec<String>)
    ensures
        r.deep_view() == spec_split(s@, sep),
{
    let cs = chars_of(s);
    let mut out: Vec<String> = Vec::new();
    let mut cur: Vec<char> = Vec::new();
    let mut i: usize = 0;
    proof {
        assert(cur@ + s@.skip(0) =~= s@);
        assert(out.deep_view() + spec_split(s@, sep) =~= spec_split(s@, sep));
    }
    while i < cs.len()
        invariant
            cs@ == s@,
            i <= cs@.len(),
            forall|j: int| 0 <= j < cur@.len() ==> cur@[j] != sep,
            spec_split(s@, sep) == out.deep_view() + spec_split(
                cur@ + s@.skip(i as int),
                sep,
            ),
        decreases cs@.len() - i,
    {
        let c = cs[i];
        let ghost prev_cur = cur@;
        let ghost prev_out = out.deep_view();
        if c == sep {
            proof {
                lemma_split_head(prev_cur, sep, s@.skip(i + 1));
                assert(prev_cur + s@.skip(i as int) =~= prev_cur + seq![sep] + s@.skip(i + 1));
            }
            let tok = string_from_chars(&cur);
            out.push(tok);
            cur = Vec::new();
            proof {
                assert(out.deep_view() =~= prev_out.push(prev_cur));
                assert(cur@ + s@.skip(i + 1) =~= s@.skip(i + 1));
                assert(out.deep_view() + spec_split(s@.skip(i + 1), sep) =~= prev_out + (seq![
                    prev_cur,
                ] + spec_split(s@.skip(i + 1), sep)));
            }
        } else {
            cur.push(c);
            proof {
                assert(cur@ + s@.skip(i + 1) =~= prev_cur + s@.skip(i as int));
            }
        }
        i = i + 1;
    }
    proof {
        assert(cur@ + s@.skip(i as int) =~= cur@);
        lemma_split_no_sep(cur@, sep);
    }
    let ghost prev_out = out.deep_view();
    let tok = string_from_chars(&cur);
    out.push(tok);
    proof {
        assert(out.deep_view() =~= prev_out.push(cur@));
        assert(spec_split(s@, sep) =~= prev_out.push(cur@));
    }
    out
}

impl ElementData {
    pub fn new(tag_name: String, attributes: AttrMap) -> (e: ElementData)
        ensures
            e@.tag_name == tag_name@,
            e@.attributes == attributes@,
    {
        ElementData { tag_name, attributes }
    }

    /// The element's `id` attribute, if any.
    pub fn get_id(&self) -> (r: Option<&String>)
        ensures
            match r {
                Some(v) => attr_lookup(self@.attributes, "id"@) == Some(v@),
                None => attr_lookup(self@.attributes, "id"@) is None,
            },
    {
        self.attributes.get("id")
    }

    /// The class names of the element: the space-separated fields of its
    /// `class` attribute, or nothing when the attribute is absent.
    pub fn get_classes(&self) -> (r: Vec<String>)
        ensures
            r.deep_view() == spec_classes(self@),
    {
        match self.attributes.get("class") {
            None => Vec::new(),
            Some(s) => split_on(s.as_str(), ' '),
        }
    }
}

/// The class-name fields of an element, per its `class` attribute.
pub open spec fn spec_classes(e: ElementDataView) -> Seq<Seq<char>> {
    match attr_lookup(e.attributes, "class"@) {
        None => Seq::empty(),
        Some(s) => spec_split(s, ' '),
    }
}

/// A document node: its payload and its children, in document order.
pub struct Node {
    pub children: Vec<Node>,
    pub node_type: NodeType,
}

pub enum NodeType {
    Text(String),
    Element(ElementData),
    Comment(String),
}

pub enum NodeTypeView {
    Text(Seq<char>),
    Element(ElementDataView),
    Comment(Seq<char>),
}

pub struct NodeView {
    pub children: Seq<NodeView>,
    pub node_type: NodeTypeView,
}

impl View for NodeType {
    type V = NodeTypeView;

    open spec fn view(&self) -> NodeTypeView {
        match self {
            NodeType::Text(s) => NodeTypeView::Text(s@),
            NodeType::Element(e) => NodeTypeView::Element(e@),
            NodeType::Comment(s) => NodeTypeView::Comment(s@),
        }
    }
}

pub open spec fn node_view(n: Node) -> NodeView
    decreases n,
{
    NodeView { children: nodes_view(n.children@), node_type: n.node_type@ }
}

pub open spec fn nodes_view(s: Seq<Node>) -> Seq<NodeView>
    decreases s,
{
    if s.len() == 0 {
        Seq::empty()
    } else {
        nodes_view(s.drop_last()).push(node_view(s.last()))
    }
}

impl View for Node {
    type V = NodeView;

    open spec fn view(&self) -> NodeView {
        node_view(*self)
    }
}

/// `nodes_view` maps the sequence elementwise.
pub proof fn lemma_nodes_view(s: Seq<Node>)
    ensures
        nodes_view(s).len() == s.len(),
        forall|i: int| 0 <= i < s.len() ==> nodes_view(s)[i] == node_view(s[i]),
    decreases s,
{
    if s.len() > 0 {
        lemma_nodes_view(s.drop_last());
    }
}

impl Node {
    pub fn new(node_type: NodeType, children: Vec<Node>) -> (n: Node)
        ensures
            n@.node_type == node_type@,
            n@.children == nodes_view(children@),
    {
        Node { node_type, children }
    }

    /// The `href` of the stylesheet link that a scan of this subtree
    /// finds, if any.  Fetching and parsing what the reference names is
    /// the caller's business.
    pub fn stylesheet_href(&self) -> (r: Option<String>)
        ensures
            match r {
                Some(h) => spec_stylesheet_href(self@) == Some(h@),
                None => spec_stylesheet_href(self@) is None,
            },
        decreases self,
    {
        match &self.node_type {
            NodeType::Element(e) => {
                if str_eq(e.tag_name.as_str(), "link") {
                    match e.attributes.get("rel") {
                        Some(rel) => {
                            if str_eq(rel.as_str(), "stylesheet") {
                                return match e.attributes.get("href") {
                                    Some(h) => Some(h.clone()),
                                    None => None,
                                };
                            }
                        },
                        None => {},
                    }
                }
            },
            _ => {},
        }
        let ghost cviews = self@.children;
        proof {
            lemma_nodes_view(self.children@);
            assert(cviews.take(cviews.len() as int) =~= cviews);
            assert(spec_stylesheet_href(self@) == spec_children_href(cviews));
        }
        let mut i: usize = self.children.len();
        while i > 0
            invariant
                cviews == self@.children,
                cviews.len() == self.children@.len(),
                forall|j: int| 0 <= j < cviews.len() ==> cviews[j] == node_view(
                    self.children@[j],
                ),
                i <= cviews.len(),
                spec_children_href(cviews) == spec_children_href(cviews.take(i as int)),
                spec_stylesheet_href(self@) == spec_children_href(cviews),
            decreases i,
        {
            proof {
                assert(cviews.take(i as int).drop_last() =~= cviews.take(i - 1));
                assert(cviews.take(i as int).last() == cviews[i - 1]);
            }
            match self.children[i - 1].stylesheet_href() {
                Some(h) => {
                    return Some(h);
                },
                None => {},
            }
            i = i - 1;
        }
        proof {
            assert(cviews.take(0) =~= Seq::<NodeView>::empty());
        }
        None
    }
}

/// Whether a node is a stylesheet link: a `link` element whose `rel`
/// attribute is `stylesheet`.
pub open spec fn spec_is_sheet_link(e: ElementDataView) -> bool {
    e.tag_name == "link"@ && attr_lookup(e.attributes, "rel"@) == Some("stylesheet"@)
}

/// The `href` of the effective stylesheet link of a subtree: the node
/// itself when it is a stylesheet link, otherwise the link that the
/// last child subtree bearing one yields.
pub open spec fn spec_stylesheet_href(n: NodeView) -> Option<Seq<char>>
    decreases n,
{
    match n.node_type {
        NodeTypeView::Element(e) => {
            if spec_is_sheet_link(e) {
                attr_lookup(e.attributes, "href"@)
            } else {
                spec_children_href(n.children)
            }
        },
        _ => spec_children_href(n.children),
    }
}

pub open spec fn spec_children_href(s: Seq<NodeView>) -> Option<Seq<char>>
    decreases s,
{
    if s.len() == 0 {
        None
    } else {
        match spec_stylesheet_href(s.last()) {
            Some(h) => Some(h),
            None => spec_children_href(s.drop_last()),
        }
    }
}

} // verus!
