//! Stylesheet data model: rules, selectors, declarations and values.
//!
//! A stylesheet is an ordered list of rules; each rule pairs an ordered
//! list of selectors with an ordered list of declarations.  Lengths are
//! integral pixel counts; colors are 8-bit RGBA channels.

use vstd::prelude::*;

verus! {

/// Length units accepted by the stylesheet grammar.  Only `Px` and `Pct`
/// are given numeric meaning by layout; the others are recognized but
/// unimplemented downstream.
#[derive(Clone, Copy, PartialEq, Eq, Structural, Debug)]
pub enum Unit {
    Em,
    Ex,
    Ch,
    Rem,
    Vh,
    Vw,
    Vmin,
    Vmax,
    Px,
    Mm,
    Q,
    Cm,
    In,
    Pt,
    Pc,
    Pct,
}

/// An RGBA color; each channel ranges over 0..=255.
#[derive(Clone, Copy, PartialEq, Eq, Structural, Debug)]
pub struct Color {
    pub r: u8,
    pub g: u8,
    pub b: u8,
    pub a: u8,
}

impl Color {
    pub fn new(r: u8, g: u8, b: u8, a: u8) -> (c: Color)
        ensures
            c == (Color { r, g, b, a }),
    {
        Color { r, g, b, a }
    }
}

/// The value of a declaration: a color, a length with a unit, or an
/// uninterpreted keyword string.
#[derive(Debug, PartialEq)]
pub enum Value {
    Color(Color),
    Length(i64, Unit),
    Other(String),
}

/// Mathematical model of a `Value`: strings are viewed as character
/// sequences.
pub enum ValueView {
    Color(Color),
    Length(i64, Unit),
    Other(Seq<char>),
}

impl View for Value {
    type V = ValueView;

    open spec fn view(&self) -> ValueView {
        match self {
            Value::Color(c) => ValueView::Color(*c),
            Value::Length(n, u) => ValueView::Length(*n, *u),
            Value::Other(s) => ValueView::Other(s@),
        }
    }
}

impl DeepView for Value {
    type V = ValueView;

    open spec fn deep_view(&self) -> ValueView {
        self.view()
    }
}

/// One `property: value` pair.
#[derive(Debug, PartialEq)]
pub struct Declaration {
    pub property: String,
    pub value: Value,
}

pub struct DeclarationView {
    pub property: Seq<char>,
    pub value: ValueView,
}

impl View for Declaration {
    type V = DeclarationView;

    open spec fn view(&self) -> DeclarationView {
        DeclarationView { property: self.property@, value: self.value@ }
    }
}

impl DeepView for Declaration {
    type V = DeclarationView;

    open spec fn deep_view(&self) -> DeclarationView {
        self.view()
    }
}

impl Value {
    /// A deep copy with the same view.
    pub fn duplicate(&self) -> (r: Value)
        ensures
            r@ == self@,
    {
        match self {
            Value::Color(c) => Value::Color(*c),
            Value::Length(n, u) => Value::Length(*n, *u),
            Value::Other(s) => Value::Other(s.clone()),
        }
    }
}

impl Declaration {
    /// A deep copy with the same view.
    pub fn duplicate(&self) -> (r: Declaration)
        ensures
            r@ == self@,
    {
        Declaration { property: self.property.clone(), value: self.value.duplicate() }
    }

    pub fn new(property: String, value: Value) -> (d: Declaration)
        ensures
            d@.property == property@,
            d@.value == value@,
    {
        Declaration { property, value }
    }
}

impl Default for Declaration {
    /// The empty declaration: empty property name, empty keyword value.
    fn default() -> (d: Declaration)
        ensures
            d@.property == Seq::<char>::empty(),
            d@.value == ValueView::Other(Seq::<char>::empty()),
    {
        Declaration { property: String::new(), value: Value::Other(String::new()) }
    }
}

/// A simple selector: an optional tag name, an optional id, and a set of
/// required class names.
#[derive(Debug, PartialEq)]
pub struct SimpleSelector {
    pub tag_name: Option<String>,
    pub id: Option<String>,
    pub classes: Vec<String>,
}

pub struct SimpleSelectorView {
    pub tag_name: Option<Seq<char>>,
    pub id: Option<Seq<char>>,
    pub classes: Seq<Seq<char>>,
}

impl View for SimpleSelector {
    type V = SimpleSelectorView;

    open spec fn view(&self) -> SimpleSelectorView {
        SimpleSelectorView {
            tag_name: match self.tag_name {
                Some(ref t) => Some(t@),
                None => None,
            },
            id: match self.id {
                Some(ref i) => Some(i@),
                None => None,
            },
            classes: self.classes.deep_view(),
        }
    }
}

impl DeepView for SimpleSelector {
    type V = SimpleSelectorView;

    open spec fn deep_view(&self) -> SimpleSelectorView {
        self.view()
    }
}

impl SimpleSelector {
    pub fn new(tag_name: Option<String>, id: Option<String>, classes: Vec<String>) -> (s:
        SimpleSelector)
        ensures
            s@ == (SimpleSelector { tag_name, id, classes })@,
    {
        SimpleSelector { tag_name, id, classes }
    }

    /// True when no constraint at all is recorded: no tag name, no id,
    /// no required classes.
    pub fn is_empty(&self) -> (r: bool)
        ensures
            r == (self@.tag_name is None && self@.id is None && self@.classes.len() == 0),
    {
        self.tag_name.is_none() && self.id.is_none() && self.classes.len() == 0
    }
}

impl Default for SimpleSelector {
    /// The unconstrained simple selector.
    fn default() -> (s: SimpleSelector)
        ensures
            s@.tag_name is None,
            s@.id is None,
            s@.classes == Seq::<Seq<char>>::empty(),
    {
        let s = SimpleSelector { tag_name: None, id: None, classes: Vec::new() };
        assert(s@.classes =~= Seq::<Seq<char>>::empty());
        s
    }
}

/// A selector: a list of simple selectors (the grammar accepts
/// combinator characters between them, but only the simple selectors are
/// evaluated by matching).
#[derive(Debug, PartialEq)]
pub struct Selector {
    pub simple: Vec<SimpleSelector>,
    pub combinations: Vec<char>,
}

pub struct SelectorView {
    pub simple: Seq<SimpleSelectorView>,
    pub combinations: Seq<char>,
}

impl View for Selector {
    type V = SelectorView;

    open spec fn view(&self) -> SelectorView {
        SelectorView { simple: self.simple.deep_view(), combinations: self.combinations@ }
    }
}

impl DeepView for Selector {
    type V = SelectorView;

    open spec fn deep_view(&self) -> SelectorView {
        self.view()
    }
}

impl Selector {
    pub fn new(simple: Vec<SimpleSelector>, combinations: Vec<char>) -> (s: Selector)
        ensures
            s@ == (Selector { simple, combinations })@,
    {
        Selector { simple, combinations }
    }

    /// True when the selector holds no simple selector and no combinator.
    pub fn is_empty(&self) -> (r: bool)
        ensures
            r == (self@.simple.len() == 0 && self@.combinations.len() == 0),
    {
        self.simple.len() == 0 && self.combinations.len() == 0
    }
}

impl Default for Selector {
    /// The empty selector.
    fn default() -> (s: Selector)
        ensures
            s@.simple == Seq::<SimpleSelectorView>::empty(),
            s@.combinations == Seq::<char>::empty(),
    {
        let s = Selector { simple: Vec::new(), combinations: Vec::new() };
        assert(s@.simple =~= Seq::<SimpleSelectorView>::empty());
        assert(s@.combinations =~= Seq::<char>::empty());
        s
    }
}

/// A rule: selectors on the left of the brace, declarations inside it.
pub struct Rule {
    pub selectors: Vec<Selector>,
    pub declarations: Vec<Declaration>,
}

pub struct RuleView {
    pub selectors: Seq<SelectorView>,
    pub declarations: Seq<DeclarationView>,
}

impl View for Rule {
    type V = RuleView;

    open spec fn view(&self) -> RuleView {
        RuleView {
            selectors: self.selectors.deep_view(),
            declarations: self.declarations.deep_view(),
        }
    }
}

impl DeepView for Rule {
    type V = RuleView;

    open spec fn deep_view(&self) -> RuleView {
        self.view()
    }
}

impl Rule {
    pub fn new(selectors: Vec<Selector>, declarations: Vec<Declaration>) -> (r: Rule)
        ensures
            r@ == (Rule { selectors, declarations })@,
    {
        Rule { selectors, declarations }
    }
}

/// An ordered list of rules; order decides the cascade.
pub struct StyleSheet {
    pub rules: Vec<Rule>,
}

impl View for StyleSheet {
    type V = Seq<RuleView>;

    open spec fn view(&self) -> Seq<RuleView> {
        self.rules.deep_view()
    }
}

impl StyleSheet {
    pub fn new(rules: Vec<Rule>) -> (s: StyleSheet)
        ensures
            s@ == rules.deep_view(),
    {
        StyleSheet { rules }
    }
}

impl Default for StyleSheet {
    /// The stylesheet with no rules.
    fn default() -> (s: StyleSheet)
        ensures
            s@ == Seq::<RuleView>::empty(),
    {
        let s = StyleSheet { rules: Vec::new() };
        assert(s@ =~= Seq::<RuleView>::empty());
        s
    }
}

} // verus!
