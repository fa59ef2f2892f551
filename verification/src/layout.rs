//! Layout engine: builds a layout tree (one box per visible styled
//! node) and computes absolute box-model geometry for every box in
//! block and inline-block flow.
//!
//! All pixel quantities are `i64`.  Geometry is computed exactly over
//! unbounded integers; whenever a computed value is stored into a box it
//! is range-checked, and a value outside the `i64` range aborts the
//! whole pass with [`LayoutError::Overflow`].  A resolved `width` whose
//! unit is neither `px` nor `%` aborts the pass with
//! [`LayoutError::UnsupportedUnit`], as computing with it would silently
//! mis-measure.

use vstd::prelude::*;

use crate::css::{Unit, Value, ValueView};
use crate::style::{spec_num_or, PropertyMap, StyledNode, StyledNodeView, Display, spec_display};

verus! {

/// A fatal condition that aborts a layout pass; no partial geometry is
/// ever surfaced.
#[derive(Clone, Copy, PartialEq, Eq, Structural, Debug)]
pub enum LayoutError {
    /// A resolved length uses a unit other than `px` or `%`.
    UnsupportedUnit,
    /// A computed coordinate or size does not fit in an `i64`.
    Overflow,
}

/// An axis-aligned rectangle: origin top-left, y grows downward.
#[derive(Clone, Copy, PartialEq, Eq, Structural, Debug)]
pub struct Rectangle {
    pub x: i64,
    pub y: i64,
    pub width: i64,
    pub height: i64,
}

/// Edge thicknesses around a rectangle.
#[derive(Clone, Copy, PartialEq, Eq, Structural, Debug)]
pub struct EdgeSizes {
    pub left: i64,
    pub right: i64,
    pub top: i64,
    pub bottom: i64,
}

/// The box model of one layout box: content rectangle, edge sizes, and
/// the transient in-row cursor used while laying out children.
#[derive(Clone, Copy, PartialEq, Eq, Structural, Debug)]
pub struct Dimensions {
    pub content: Rectangle,
    pub padding: EdgeSizes,
    pub border: EdgeSizes,
    pub margin: EdgeSizes,
    pub current: Rectangle,
}

/// How a box participates in flow.
#[derive(Clone, Copy, PartialEq, Eq, Structural, Debug)]
pub enum BoxType {
    Block,
    Inline,
    InlineBlock,
    /// `display: none`: the box takes no part in layout.
    Suppressed,
}

pub open spec fn zero_rect() -> Rectangle {
    Rectangle { x: 0, y: 0, width: 0, height: 0 }
}

pub open spec fn zero_edges() -> EdgeSizes {
    EdgeSizes { left: 0, right: 0, top: 0, bottom: 0 }
}

pub open spec fn zero_dims() -> Dimensions {
    Dimensions {
        content: zero_rect(),
        padding: zero_edges(),
        border: zero_edges(),
        margin: zero_edges(),
        current: zero_rect(),
    }
}

impl Default for Rectangle {
    /// The rectangle at the origin with no extent.
    fn default() -> (r: Rectangle)
        ensures
            r == zero_rect(),
    {
        Rectangle { x: 0, y: 0, width: 0, height: 0 }
    }
}

impl Default for EdgeSizes {
    /// All four edges of thickness zero.
    fn default() -> (e: EdgeSizes)
        ensures
            e == zero_edges(),
    {
        EdgeSizes { left: 0, right: 0, top: 0, bottom: 0 }
    }
}

impl Default for Dimensions {
    /// The all-zero box model.
    fn default() -> (d: Dimensions)
        ensures
            d == zero_dims(),
    {
        Dimensions {
            content: Rectangle::default(),
            padding: EdgeSizes::default(),
            border: EdgeSizes::default(),
            margin: EdgeSizes::default(),
            current: Rectangle::default(),
        }
    }
}

/// Whether an exact value fits in the stored pixel type.
pub open spec fn in_px(v: int) -> bool {
    i64::MIN <= v <= i64::MAX
}

/// Range-checked store of an exact value into the pixel type.
pub open spec fn to_px(v: int) -> Result<i64, LayoutError> {
    if in_px(v) {
        Ok(v as i64)
    } else {
        Err(LayoutError::Overflow)
    }
}

/// Range-checks a computed value before it is stored.
fn px_of(v: i128) -> (r: Result<i64, LayoutError>)
    ensures
        r == to_px(v as int),
{
    if v >= i64::MIN as i128 && v <= i64::MAX as i128 {
        Ok(v as i64)
    } else {
        Err(LayoutError::Overflow)
    }
}

/// Integer division rounding toward zero, as pixel arithmetic divides.
pub open spec fn div_to_zero(a: int, b: int) -> int
    recommends
        b > 0,
{
    if a >= 0 {
        a / b
    } else {
        -((-a) / b)
    }
}

proof fn lemma_udiv_le(x: u128, y: u128)
    requires
        y >= 1,
    ensures
        x / y <= x,
{
    assert(x / y <= x) by (nonlinear_arith)
        requires
            y >= 1,
    ;
}

/// Division toward zero on exact values.
fn div_trunc(a: i128, b: i128) -> (r: i128)
    requires
        b > 0,
        a > i128::MIN,
    ensures
        r as int == div_to_zero(a as int, b as int),
        a >= 0 ==> 0 <= r <= a,
        a < 0 ==> a <= r <= 0,
{
    if a >= 0 {
        let q = (a as u128) / (b as u128);
        proof {
            lemma_udiv_le(a as u128, b as u128);
        }
        q as i128
    } else {
        let n = -a;
        let q = (n as u128) / (b as u128);
        proof {
            lemma_udiv_le(n as u128, b as u128);
        }
        -(q as i128)
    }
}

/// The exact product of two stored pixel values.
fn mul_px(a: i64, b: i64) -> (r: i128)
    ensures
        r as int == (a as int) * (b as int),
        -0x40000000000000000000000000000000 <= r
            <= 0x40000000000000000000000000000000,
{
    proof {
        lemma_mul_px_bound(a as int, b as int);
    }
    (a as i128) * (b as i128)
}

proof fn lemma_mul_px_bound(a: int, b: int)
    requires
        -0x8000000000000000 <= a <= 0x7fffffffffffffff,
        -0x8000000000000000 <= b <= 0x7fffffffffffffff,
    ensures
        -0x40000000000000000000000000000000 <= a * b
            <= 0x40000000000000000000000000000000,
{
    assert(-0x40000000000000000000000000000000 <= a * b
        <= 0x40000000000000000000000000000000) by (nonlinear_arith)
        requires
            -0x8000000000000000 <= a <= 0x7fffffffffffffff,
            -0x8000000000000000 <= b <= 0x7fffffffffffffff,
    ;
}

/// A rectangle over exact values, for stating geometry that may exceed
/// the stored range.
pub struct RectModel {
    pub x: int,
    pub y: int,
    pub width: int,
    pub height: int,
}

pub open spec fn rect_model(r: Rectangle) -> RectModel {
    RectModel { x: r.x as int, y: r.y as int, width: r.width as int, height: r.height as int }
}

/// A rectangle grown outward by edge sizes.
pub open spec fn spec_expanded(r: RectModel, e: EdgeSizes) -> RectModel {
    RectModel {
        x: r.x - e.left,
        y: r.y - e.top,
        width: r.width + e.left + e.right,
        height: r.height + e.top + e.bottom,
    }
}

/// The content rectangle grown by the padding.
pub open spec fn spec_padding_box(d: Dimensions) -> RectModel {
    spec_expanded(rect_model(d.content), d.padding)
}

/// The padding box grown by the border.
pub open spec fn spec_border_box(d: Dimensions) -> RectModel {
    spec_expanded(spec_padding_box(d), d.border)
}

/// The border box grown by the margin.
pub open spec fn spec_margin_box(d: Dimensions) -> RectModel {
    spec_expanded(spec_border_box(d), d.margin)
}

/// The height of the margin box, exactly.
pub open spec fn spec_margin_box_height(d: Dimensions) -> int {
    d.content.height + d.padding.top + d.padding.bottom + d.border.top + d.border.bottom
        + d.margin.top + d.margin.bottom
}

/// The width of the margin box, exactly.
pub open spec fn spec_margin_box_width(d: Dimensions) -> int {
    d.content.width + d.padding.left + d.padding.right + d.border.left + d.border.right
        + d.margin.left + d.margin.right
}

pub open spec fn rect_in_px(r: RectModel) -> bool {
    in_px(r.x) && in_px(r.y) && in_px(r.width) && in_px(r.height)
}

impl Rectangle {
    /// The rectangle grown outward by the edge sizes.
    pub fn expanded(&self, e: EdgeSizes) -> (r: Rectangle)
        requires
            rect_in_px(spec_expanded(rect_model(*self), e)),
        ensures
            rect_model(r) == spec_expanded(rect_model(*self), e),
    {
        Rectangle {
            x: ((self.x as i128) - (e.left as i128)) as i64,
            y: ((self.y as i128) - (e.top as i128)) as i64,
            width: ((self.width as i128) + (e.left as i128) + (e.right as i128)) as i64,
            height: ((self.height as i128) + (e.top as i128) + (e.bottom as i128)) as i64,
        }
    }
}

impl Dimensions {
    /// The padding box as a stored rectangle.
    pub fn padding_box(&self) -> (r: Rectangle)
        requires
            rect_in_px(spec_padding_box(*self)),
        ensures
            rect_model(r) == spec_padding_box(*self),
    {
        Rectangle {
            x: ((self.content.x as i128) - (self.padding.left as i128)) as i64,
            y: ((self.content.y as i128) - (self.padding.top as i128)) as i64,
            width: ((self.content.width as i128) + (self.padding.left as i128)
                + (self.padding.right as i128)) as i64,
            height: ((self.content.height as i128) + (self.padding.top as i128)
                + (self.padding.bottom as i128)) as i64,
        }
    }

    /// The border box as a stored rectangle.
    pub fn border_box(&self) -> (r: Rectangle)
        requires
            rect_in_px(spec_padding_box(*self)),
            rect_in_px(spec_border_box(*self)),
        ensures
            rect_model(r) == spec_border_box(*self),
    {
        let p = self.padding_box();
        Rectangle {
            x: ((p.x as i128) - (self.border.left as i128)) as i64,
            y: ((p.y as i128) - (self.border.top as i128)) as i64,
            width: ((p.width as i128) + (self.border.left as i128) + (self.border.right as i128))
                as i64,
            height: ((p.height as i128) + (self.border.top as i128) + (self.border.bottom as i128))
                as i64,
        }
    }

    /// The margin box as a stored rectangle.
    pub fn margin_box(&self) -> (r: Rectangle)
        requires
            rect_in_px(spec_padding_box(*self)),
            rect_in_px(spec_border_box(*self)),
            rect_in_px(spec_margin_box(*self)),
        ensures
            rect_model(r) == spec_margin_box(*self),
    {
        let b = self.border_box();
        Rectangle {
            x: ((b.x as i128) - (self.margin.left as i128)) as i64,
            y: ((b.y as i128) - (self.margin.top as i128)) as i64,
            width: ((b.width as i128) + (self.margin.left as i128) + (self.margin.right as i128))
                as i64,
            height: ((b.height as i128) + (self.margin.top as i128) + (self.margin.bottom as i128))
                as i64,
        }
    }
}

/// Whether `outer` fully contains `inner`.
pub open spec fn rect_contains(outer: RectModel, inner: RectModel) -> bool {
    &&& outer.x <= inner.x
    &&& outer.y <= inner.y
    &&& inner.x + inner.width <= outer.x + outer.width
    &&& inner.y + inner.height <= outer.y + outer.height
}

/// Margin-box containment: with non-negative edge sizes, the border box
/// contains the content rectangle, and the margin box contains the
/// border box, for every box.
pub proof fn lemma_box_containment(d: Dimensions)
    requires
        d.padding.left >= 0 && d.padding.right >= 0 && d.padding.top >= 0 && d.padding.bottom >= 0,
        d.border.left >= 0 && d.border.right >= 0 && d.border.top >= 0 && d.border.bottom >= 0,
        d.margin.left >= 0 && d.margin.right >= 0 && d.margin.top >= 0 && d.margin.bottom >= 0,
    ensures
        rect_contains(spec_border_box(d), rect_model(d.content)),
        rect_contains(spec_margin_box(d), spec_border_box(d)),
{
}

/// One box of the layout tree: its geometry, its flow class, its
/// resolved style properties, and its children in document order.
pub struct LayoutBox {
    pub dimensions: Dimensions,
    pub box_type: BoxType,
    pub styles: PropertyMap,
    pub children: Vec<LayoutBox>,
}

#[verifier::ext_equal]
pub struct LayoutBoxView {
    pub dimensions: Dimensions,
    pub box_type: BoxType,
    pub styles: Map<Seq<char>, ValueView>,
    pub children: Seq<LayoutBoxView>,
}

pub open spec fn box_view(b: LayoutBox) -> LayoutBoxView
    decreases b,
{
    LayoutBoxView {
        dimensions: b.dimensions,
        box_type: b.box_type,
        styles: b.styles@,
        children: boxes_view(b.children@),
    }
}

pub open spec fn boxes_view(s: Seq<LayoutBox>) -> Seq<LayoutBoxView>
    decreases s,
{
    if s.len() == 0 {
        Seq::empty()
    } else {
        boxes_view(s.drop_last()).push(box_view(s.last()))
    }
}

impl View for LayoutBox {
    type V = LayoutBoxView;

    open spec fn view(&self) -> LayoutBoxView {
        box_view(*self)
    }
}

/// `boxes_view` maps the sequence elementwise.
pub proof fn lemma_boxes_view(s: Seq<LayoutBox>)
    ensures
        boxes_view(s).len() == s.len(),
        forall|i: int| 0 <= i < s.len() ==> boxes_view(s)[i] == box_view(s[i]),
    decreases s,
{
    if s.len() > 0 {
        lemma_boxes_view(s.drop_last());
    }
}

/// The structure of a box tree: everything layout reads, with the
/// stored geometry left out.  Layout output is a function of this
/// structure and the containing block alone.
#[verifier::ext_equal]
pub struct BoxStruct {
    pub box_type: BoxType,
    pub styles: Map<Seq<char>, ValueView>,
    pub children: Seq<BoxStruct>,
}

pub open spec fn strip(b: LayoutBoxView) -> BoxStruct
    decreases b,
{
    BoxStruct { box_type: b.box_type, styles: b.styles, children: strip_all(b.children) }
}

pub open spec fn strip_all(s: Seq<LayoutBoxView>) -> Seq<BoxStruct>
    decreases s,
{
    if s.len() == 0 {
        Seq::empty()
    } else {
        strip_all(s.drop_last()).push(strip(s.last()))
    }
}

/// `strip_all` maps the sequence elementwise.
pub proof fn lemma_strip_all(s: Seq<LayoutBoxView>)
    ensures
        strip_all(s).len() == s.len(),
        forall|i: int| 0 <= i < s.len() ==> strip_all(s)[i] == strip(s[i]),
    decreases s,
{
    if s.len() > 0 {
        lemma_strip_all(s.drop_last());
    }
}

/// The box tree of a structure before any layout pass: all geometry
/// zero.
pub open spec fn zero_view(s: BoxStruct) -> LayoutBoxView
    decreases s,
{
    LayoutBoxView {
        dimensions: zero_dims(),
        box_type: s.box_type,
        styles: s.styles,
        children: zero_views(s.children),
    }
}

pub open spec fn zero_views(s: Seq<BoxStruct>) -> Seq<LayoutBoxView>
    decreases s,
{
    if s.len() == 0 {
        Seq::empty()
    } else {
        zero_views(s.drop_last()).push(zero_view(s.last()))
    }
}

/// Stripping the zero view gives the structure back.
pub proof fn lemma_strip_zero(s: BoxStruct)
    ensures
        strip(zero_view(s)) == s,
    decreases s,
{
    lemma_strip_zeros(s.children);
    assert(strip(zero_view(s)) =~= s);
}

pub proof fn lemma_strip_zeros(s: Seq<BoxStruct>)
    ensures
        strip_all(zero_views(s)) == s,
    decreases s,
{
    if s.len() == 0 {
        assert(strip_all(zero_views(s)) =~= s);
    } else {
        lemma_strip_zeros(s.drop_last());
        lemma_strip_zero(s.last());
        assert(zero_views(s).drop_last() =~= zero_views(s.drop_last()));
        assert(strip_all(zero_views(s)) =~= s);
    }
}

/// The number of boxes in a structure.
pub open spec fn ssize(s: BoxStruct) -> nat
    decreases s,
{
    1 + ssizes(s.children)
}

pub open spec fn ssizes(s: Seq<BoxStruct>) -> nat
    decreases s,
{
    if s.len() == 0 {
        0
    } else {
        ssizes(s.drop_last()) + ssize(s.last())
    }
}

/// Splitting off the first element splits the total.
pub proof fn lemma_ssizes_first(s: Seq<BoxStruct>)
    requires
        s.len() > 0,
    ensures
        ssizes(s) == ssize(s[0]) + ssizes(s.drop_first()),
    decreases s,
{
    if s.len() == 1 {
        assert(s.drop_first() =~= Seq::<BoxStruct>::empty());
        assert(s.drop_last() =~= Seq::<BoxStruct>::empty());
    } else {
        lemma_ssizes_first(s.drop_last());
        assert(s.drop_last()[0] == s[0]);
        assert(s.drop_first().drop_last() =~= s.drop_last().drop_first());
        assert(s.drop_first().last() == s.last());
    }
}

/// No box in the tree is suppressed; layout is only ever run on such
/// trees, since suppressed nodes are excluded when the tree is built.
pub open spec fn no_suppressed(s: BoxStruct) -> bool
    decreases s,
{
    &&& !(s.box_type is Suppressed)
    &&& no_suppressed_all(s.children)
}

pub open spec fn no_suppressed_all(s: Seq<BoxStruct>) -> bool
    decreases s,
{
    if s.len() == 0 {
        true
    } else {
        no_suppressed_all(s.drop_last()) && no_suppressed(s.last())
    }
}

pub proof fn lemma_no_suppressed_all(s: Seq<BoxStruct>)
    requires
        no_suppressed_all(s),
    ensures
        forall|i: int| 0 <= i < s.len() ==> no_suppressed(#[trigger] s[i]),
    decreases s,
{
    if s.len() > 0 {
        lemma_no_suppressed_all(s.drop_last());
        assert forall|i: int| 0 <= i < s.len() implies no_suppressed(s[i]) by {
            if i < s.len() - 1 {
                assert(s.drop_last()[i] == s[i]);
            }
        }
    }
}

/// The pixel value that a `width`-like property resolves to against a
/// containing block: the stored number for `px`, a proportion of the
/// containing content width for `%`, nothing when the property is
/// absent or not a length, and a fatal error for any other unit.
pub open spec fn spec_absolute_num(
    styles: Map<Seq<char>, ValueView>,
    b: Dimensions,
    name: Seq<char>,
) -> Result<Option<int>, LayoutError> {
    if styles.contains_key(name) {
        match styles[name] {
            ValueView::Length(l, u) => match u {
                Unit::Px => Ok(Some(l as int)),
                Unit::Pct => Ok(Some(div_to_zero((l as int) * (b.content.width as int), 100))),
                _ => Err(LayoutError::UnsupportedUnit),
            },
            _ => Ok(None),
        }
    } else {
        Ok(None)
    }
}

/// A resolved width value is bounded by the product of two stored
/// pixel values.
pub proof fn lemma_absolute_num_bound(
    styles: Map<Seq<char>, ValueView>,
    b: Dimensions,
    name: Seq<char>,
)
    ensures
        match spec_absolute_num(styles, b, name) {
            Ok(Some(v)) => -0x40000000000000000000000000000000 <= v
                <= 0x40000000000000000000000000000000,
            _ => true,
        },
{
    if styles.contains_key(name) {
        match styles[name] {
            ValueView::Length(l, u) => match u {
                Unit::Pct => {
                    lemma_mul_px_bound(l as int, b.content.width as int);
                    let p = (l as int) * (b.content.width as int);
                    if p >= 0 {
                        assert(p / 100 <= p) by (nonlinear_arith)
                            requires
                                p >= 0,
                        ;
                        assert(p / 100 >= 0) by (nonlinear_arith)
                            requires
                                p >= 0,
                        ;
                    } else {
                        assert((-p) / 100 <= -p) by (nonlinear_arith)
                            requires
                                -p >= 0,
                        ;
                        assert((-p) / 100 >= 0) by (nonlinear_arith)
                            requires
                                -p >= 0,
                        ;
                    }
                },
                _ => {},
            },
            _ => {},
        }
    }
}

pub open spec fn dims_with_height(d: Dimensions, h: i64) -> Dimensions {
    Dimensions {
        content: Rectangle { x: d.content.x, y: d.content.y, width: d.content.width, height: h },
        padding: d.padding,
        border: d.border,
        margin: d.margin,
        current: d.current,
    }
}

pub open spec fn dims_with_cur_x(d: Dimensions, x: i64) -> Dimensions {
    Dimensions {
        content: d.content,
        padding: d.padding,
        border: d.border,
        margin: d.margin,
        current: Rectangle { x, y: d.current.y, width: d.current.width, height: d.current.height },
    }
}

/// Width resolution for a block-flow box against containing block `b`,
/// per the underflow-distribution rules.  The result holds only the
/// horizontal fields; position fills in the rest.
pub open spec fn spec_calculate_width(
    styles: Map<Seq<char>, ValueView>,
    b: Dimensions,
) -> Result<Dimensions, LayoutError> {
    match spec_absolute_num(styles, b, "width"@) {
        Err(e) => Err(e),
        Ok(wopt) => {
            let width: int = match wopt {
                Some(w) => w,
                None => 0,
            };
            let ml_set = styles.contains_key("margin-left"@);
            let mr_set = styles.contains_key("margin-right"@);
            let ml_px = spec_num_or(styles, "margin-left"@, 0);
            let mr_px = spec_num_or(styles, "margin-right"@, 0);
            let bl = spec_num_or(styles, "border-left-width"@, 0);
            let br = spec_num_or(styles, "border-right-width"@, 0);
            let pl = spec_num_or(styles, "padding-left"@, 0);
            let pr = spec_num_or(styles, "padding-right"@, 0);
            let total = width + ml_px + mr_px + bl + br + pl + pr;
            let underflow = b.content.width - total;
            if width != 0 && !ml_set && mr_set {
                if in_px(underflow) && in_px(width) {
                    Ok(width_dims(width as i64, underflow as i64, mr_px, bl, br, pl, pr))
                } else {
                    Err(LayoutError::Overflow)
                }
            } else if width != 0 && ml_set && !mr_set {
                if in_px(underflow) && in_px(width) {
                    Ok(width_dims(width as i64, ml_px, underflow as i64, bl, br, pl, pr))
                } else {
                    Err(LayoutError::Overflow)
                }
            } else if width != 0 && !ml_set && !mr_set {
                let half = div_to_zero(underflow, 2);
                if in_px(half) && in_px(width) {
                    Ok(width_dims(width as i64, half as i64, half as i64, bl, br, pl, pr))
                } else {
                    Err(LayoutError::Overflow)
                }
            } else if width == 0 {
                if underflow >= 0 {
                    if in_px(underflow) {
                        Ok(width_dims(underflow as i64, 0, mr_px, bl, br, pl, pr))
                    } else {
                        Err(LayoutError::Overflow)
                    }
                } else {
                    if in_px(mr_px + underflow) {
                        Ok(width_dims(0, 0, (mr_px + underflow) as i64, bl, br, pl, pr))
                    } else {
                        Err(LayoutError::Overflow)
                    }
                }
            } else {
                if in_px(mr_px + underflow) && in_px(width) {
                    Ok(width_dims(width as i64, ml_px, (mr_px + underflow) as i64, bl, br, pl, pr))
                } else {
                    Err(LayoutError::Overflow)
                }
            }
        },
    }
}

/// A box model holding only the horizontal fields.
pub open spec fn width_dims(
    w: i64,
    ml: i64,
    mr: i64,
    bl: i64,
    br: i64,
    pl: i64,
    pr: i64,
) -> Dimensions {
    Dimensions {
        content: Rectangle { x: 0, y: 0, width: w, height: 0 },
        padding: EdgeSizes { left: pl, right: pr, top: 0, bottom: 0 },
        border: EdgeSizes { left: bl, right: br, top: 0, bottom: 0 },
        margin: EdgeSizes { left: ml, right: mr, top: 0, bottom: 0 },
        current: zero_rect(),
    }
}

/// Vertical edges and position for a block-flow box: the box is placed
/// below all content already accumulated in the container.
pub open spec fn spec_calculate_position(
    styles: Map<Seq<char>, ValueView>,
    d: Dimensions,
    b: Dimensions,
) -> Result<Dimensions, LayoutError> {
    let mt = spec_num_or(styles, "margin-top"@, 0);
    let mb = spec_num_or(styles, "margin-bottom"@, 0);
    let bt = spec_num_or(styles, "border-top-width"@, 0);
    let bb = spec_num_or(styles, "border-bottom-width"@, 0);
    let pt = spec_num_or(styles, "padding-top"@, 0);
    let pb = spec_num_or(styles, "padding-bottom"@, 0);
    let x = b.content.x + d.margin.left + d.border.left + d.padding.left;
    let y = b.content.height + b.content.y + mt + bt + pt;
    if in_px(x) && in_px(y) {
        Ok(Dimensions {
            content: Rectangle {
                x: x as i64,
                y: y as i64,
                width: d.content.width,
                height: d.content.height,
            },
            padding: EdgeSizes { left: d.padding.left, right: d.padding.right, top: pt, bottom: pb },
            border: EdgeSizes { left: d.border.left, right: d.border.right, top: bt, bottom: bb },
            margin: EdgeSizes { left: d.margin.left, right: d.margin.right, top: mt, bottom: mb },
            current: d.current,
        })
    } else {
        Err(LayoutError::Overflow)
    }
}

/// An explicit `height` length overrides whatever accumulated from the
/// children; any other value, or none, leaves the accumulated height.
pub open spec fn spec_calculate_height(
    styles: Map<Seq<char>, ValueView>,
    d: Dimensions,
) -> Dimensions {
    if styles.contains_key("height"@) {
        match styles["height"@] {
            ValueView::Length(n, _) => dims_with_height(d, n),
            _ => d,
        }
    } else {
        d
    }
}

/// Width resolution for an inline-block box: declared values are taken
/// verbatim, with no underflow distribution.
pub open spec fn spec_calculate_inline_width(
    styles: Map<Seq<char>, ValueView>,
    b: Dimensions,
) -> Result<Dimensions, LayoutError> {
    match spec_absolute_num(styles, b, "width"@) {
        Err(e) => Err(e),
        Ok(wopt) => {
            let width: int = match wopt {
                Some(w) => w,
                None => 0,
            };
            if in_px(width) {
                Ok(width_dims(
                    width as i64,
                    spec_num_or(styles, "margin-left"@, 0),
                    spec_num_or(styles, "margin-right"@, 0),
                    spec_num_or(styles, "border-left-width"@, 0),
                    spec_num_or(styles, "border-right-width"@, 0),
                    spec_num_or(styles, "padding-left"@, 0),
                    spec_num_or(styles, "padding-right"@, 0),
                ))
            } else {
                Err(LayoutError::Overflow)
            }
        },
    }
}

/// Vertical edges and position for an inline-block box: as the block
/// case, with the horizontal position additionally offset by the
/// container's in-row cursor.
pub open spec fn spec_calculate_inline_position(
    styles: Map<Seq<char>, ValueView>,
    d: Dimensions,
    b: Dimensions,
) -> Result<Dimensions, LayoutError> {
    let mt = spec_num_or(styles, "margin-top"@, 0);
    let mb = spec_num_or(styles, "margin-bottom"@, 0);
    let bt = spec_num_or(styles, "border-top-width"@, 0);
    let bb = spec_num_or(styles, "border-bottom-width"@, 0);
    let pt = spec_num_or(styles, "padding-top"@, 0);
    let pb = spec_num_or(styles, "padding-bottom"@, 0);
    let x = b.content.x + b.current.x + d.margin.left + d.border.left + d.padding.left;
    let y = b.content.height + b.content.y + mt + bt + pt;
    if in_px(x) && in_px(y) {
        Ok(Dimensions {
            content: Rectangle {
                x: x as i64,
                y: y as i64,
                width: d.content.width,
                height: d.content.height,
            },
            padding: EdgeSizes { left: d.padding.left, right: d.padding.right, top: pt, bottom: pb },
            border: EdgeSizes { left: d.border.left, right: d.border.right, top: bt, bottom: bb },
            margin: EdgeSizes { left: d.margin.left, right: d.margin.right, top: mt, bottom: mb },
            current: d.current,
        })
    } else {
        Err(LayoutError::Overflow)
    }
}

/// Lays out one box against containing block `b` and yields the box
/// with its geometry and its laid-out children.  The result depends on
/// the box structure and `b` alone.
pub open spec fn interp_box(s: BoxStruct, b: Dimensions) -> Result<LayoutBoxView, LayoutError>
    decreases s, 0int,
{
    if s.box_type is Suppressed {
        Ok(zero_view(s))
    } else {
        let step1 = if s.box_type is InlineBlock {
            spec_calculate_inline_width(s.styles, b)
        } else {
            spec_calculate_width(s.styles, b)
        };
        match step1 {
            Err(e) => Err(e),
            Ok(d1) => {
                let step2 = if s.box_type is InlineBlock {
                    spec_calculate_inline_position(s.styles, d1, b)
                } else {
                    spec_calculate_position(s.styles, d1, b)
                };
                match step2 {
                    Err(e) => Err(e),
                    Ok(d2) => match interp_children(
                        d2,
                        s.children,
                        0,
                        BoxType::Block,
                        Seq::empty(),
                    ) {
                        Err(e) => Err(e),
                        Ok((d3, kids)) => Ok(LayoutBoxView {
                            dimensions: spec_calculate_height(s.styles, d3),
                            box_type: s.box_type,
                            styles: s.styles,
                            children: kids,
                        }),
                    },
                }
            },
        }
    }
}

/// Lays out one child against the evolving parent dimensions `d`,
/// given the tallest margin box of the current inline row (`max_h`)
/// and the previous sibling's flow class.  A block child following an
/// inline-block run first flushes the pending row.  A block child
/// stacks below accumulated content; an inline-block child advances
/// the in-row cursor, and wraps to a new row on overflow, where it is
/// laid out again at the new offset.  Yields the updated parent
/// dimensions, the updated row height, and the laid-out child.
pub open spec fn spec_child_step(
    d: Dimensions,
    child: BoxStruct,
    max_h: int,
    prev: BoxType,
) -> Result<(Dimensions, int, LayoutBoxView), LayoutError>
    decreases child, 1int,
{
    let flush = prev is InlineBlock && child.box_type is Block;
    let h0 = d.content.height + max_h;
    if flush && !in_px(h0) {
        Err(LayoutError::Overflow)
    } else {
        let d0 = if flush {
            dims_with_cur_x(dims_with_height(d, h0 as i64), 0)
        } else {
            d
        };
        match interp_box(child, d0) {
            Err(e) => Err(e),
            Ok(cb) => {
                let nh = spec_margin_box_height(cb.dimensions);
                let max2 = if nh > max_h {
                    nh
                } else {
                    max_h
                };
                match child.box_type {
                    BoxType::Block => {
                        let h2 = d0.content.height + nh;
                        if in_px(h2) {
                            Ok((dims_with_height(d0, h2 as i64), max2, cb))
                        } else {
                            Err(LayoutError::Overflow)
                        }
                    },
                    BoxType::InlineBlock => {
                        let x2 = d0.current.x + spec_margin_box_width(cb.dimensions);
                        if !in_px(x2) {
                            Err(LayoutError::Overflow)
                        } else {
                            let d1 = dims_with_cur_x(d0, x2 as i64);
                            if x2 > d1.content.width {
                                let h3 = d1.content.height + max2;
                                if !in_px(h3) {
                                    Err(LayoutError::Overflow)
                                } else {
                                    let d2 = dims_with_cur_x(dims_with_height(d1, h3 as i64), 0);
                                    match interp_box(child, d2) {
                                        Err(e) => Err(e),
                                        Ok(cb2) => {
                                            let x3 = d2.current.x + spec_margin_box_width(
                                                cb2.dimensions,
                                            );
                                            if in_px(x3) {
                                                Ok((dims_with_cur_x(d2, x3 as i64), max2, cb2))
                                            } else {
                                                Err(LayoutError::Overflow)
                                            }
                                        },
                                    }
                                }
                            } else {
                                Ok((d1, max2, cb))
                            }
                        }
                    },
                    _ => Ok((d0, max2, cb)),
                }
            },
        }
    }
}

/// Lays out the remaining children in document order, threading the
/// parent dimensions, the row height, and the previous sibling's flow
/// class through `spec_child_step`.
pub open spec fn interp_children(
    d: Dimensions,
    rem: Seq<BoxStruct>,
    max_h: int,
    prev: BoxType,
    out: Seq<LayoutBoxView>,
) -> Result<(Dimensions, Seq<LayoutBoxView>), LayoutError>
    decreases rem, 2int,
{
    if rem.len() == 0 {
        Ok((d, out))
    } else {
        match spec_child_step(d, rem[0], max_h, prev) {
            Err(e) => Err(e),
            Ok(t) => interp_children(t.0, rem.drop_first(), t.1, rem[0].box_type, out.push(t.2)),
        }
    }
}

/// Elementwise truth of `no_suppressed` gives the sequence predicate.
pub proof fn lemma_no_suppressed_all_intro(s: Seq<BoxStruct>)
    requires
        forall|i: int| 0 <= i < s.len() ==> no_suppressed(#[trigger] s[i]),
    ensures
        no_suppressed_all(s),
    decreases s,
{
    if s.len() > 0 {
        assert(forall|i: int| 0 <= i < s.drop_last().len() ==> s.drop_last()[i] == s[i]);
        lemma_no_suppressed_all_intro(s.drop_last());
    }
}

/// Laying out preserves the structure: the output strips back to the
/// input.
pub proof fn lemma_interp_strip(s: BoxStruct, b: Dimensions)
    ensures
        match interp_box(s, b) {
            Ok(nb) => strip(nb) == s,
            Err(_) => true,
        },
    decreases s, 0int,
{
    if s.box_type is Suppressed {
        lemma_strip_zero(s);
    } else {
        match interp_box(s, b) {
            Ok(nb) => {
                let step1 = if s.box_type is InlineBlock {
                    spec_calculate_inline_width(s.styles, b)
                } else {
                    spec_calculate_width(s.styles, b)
                };
                match step1 {
                    Err(_) => {},
                    Ok(d1) => {
                        let step2 = if s.box_type is InlineBlock {
                            spec_calculate_inline_position(s.styles, d1, b)
                        } else {
                            spec_calculate_position(s.styles, d1, b)
                        };
                        match step2 {
                            Err(_) => {},
                            Ok(d2) => {
                                lemma_interp_children_strip(
                                    d2,
                                    s.children,
                                    0,
                                    BoxType::Block,
                                    Seq::empty(),
                                );
                                match interp_children(
                                    d2,
                                    s.children,
                                    0,
                                    BoxType::Block,
                                    Seq::empty(),
                                ) {
                                    Ok((d3, kids)) => {
                                        assert(strip_all(Seq::<LayoutBoxView>::empty())
                                            =~= Seq::<BoxStruct>::empty());
                                        assert(strip_all(kids) =~= s.children);
                                        assert(strip(nb) =~= s);
                                    },
                                    Err(_) => {},
                                }
                            },
                        }
                    },
                }
            },
            Err(_) => {},
        }
    }
}

/// One child step preserves the child's structure.
pub proof fn lemma_child_step_strip(d: Dimensions, child: BoxStruct, max_h: int, prev: BoxType)
    ensures
        match spec_child_step(d, child, max_h, prev) {
            Ok(t) => strip(t.2) == child,
            Err(_) => true,
        },
    decreases child, 1int,
{
    let flush = prev is InlineBlock && child.box_type is Block;
    let h0 = d.content.height + max_h;
    if flush && !in_px(h0) {
    } else {
        let d0 = if flush {
            dims_with_cur_x(dims_with_height(d, h0 as i64), 0)
        } else {
            d
        };
        lemma_interp_strip(child, d0);
        match interp_box(child, d0) {
            Err(_) => {},
            Ok(cb) => {
                let nh = spec_margin_box_height(cb.dimensions);
                let max2 = if nh > max_h {
                    nh
                } else {
                    max_h
                };
                if child.box_type is InlineBlock {
                    let x2 = d0.current.x + spec_margin_box_width(cb.dimensions);
                    if in_px(x2) {
                        let d1 = dims_with_cur_x(d0, x2 as i64);
                        if x2 > d1.content.width {
                            let h3 = d1.content.height + max2;
                            if in_px(h3) {
                                let d2 = dims_with_cur_x(dims_with_height(d1, h3 as i64), 0);
                                lemma_interp_strip(child, d2);
                            }
                        }
                    }
                }
            },
        }
    }
}

pub proof fn lemma_interp_children_strip(
    d: Dimensions,
    rem: Seq<BoxStruct>,
    max_h: int,
    prev: BoxType,
    out: Seq<LayoutBoxView>,
)
    ensures
        match interp_children(d, rem, max_h, prev, out) {
            Ok((nd, outs)) => outs.len() == out.len() + rem.len() && strip_all(outs) == strip_all(
                out,
            ) + rem,
            Err(_) => true,
        },
    decreases rem, 2int,
{
    if rem.len() == 0 {
        match interp_children(d, rem, max_h, prev, out) {
            Ok((nd, outs)) => {
                assert(strip_all(outs) =~= strip_all(out) + rem);
            },
            Err(_) => {},
        }
    } else {
        lemma_child_step_strip(d, rem[0], max_h, prev);
        match spec_child_step(d, rem[0], max_h, prev) {
            Err(_) => {},
            Ok(t) => {
                assert(out.push(t.2).drop_last() =~= out);
                assert(strip_all(out.push(t.2)) =~= strip_all(out).push(strip(t.2)));
                assert(strip_all(out) + rem =~= (strip_all(out).push(strip(t.2)))
                    + rem.drop_first());
                lemma_interp_children_strip(
                    t.0,
                    rem.drop_first(),
                    t.1,
                    rem[0].box_type,
                    out.push(t.2),
                );
            },
        }
    }
}

/// Every length bound in a property mapping is non-negative, as every
/// length the stylesheet parser can produce is.
pub open spec fn nonneg_styles_map(m: Map<Seq<char>, ValueView>) -> bool {
    forall|k: Seq<char>| m.contains_key(k) ==> match #[trigger] m[k] {
        ValueView::Length(n, _) => n >= 0,
        _ => true,
    }
}

pub open spec fn nonneg_styles(s: BoxStruct) -> bool
    decreases s,
{
    &&& nonneg_styles_map(s.styles)
    &&& nonneg_styles_all(s.children)
}

pub open spec fn nonneg_styles_all(s: Seq<BoxStruct>) -> bool
    decreases s,
{
    if s.len() == 0 {
        true
    } else {
        nonneg_styles_all(s.drop_last()) && nonneg_styles(s.last())
    }
}

pub proof fn lemma_nonneg_styles_all(s: Seq<BoxStruct>)
    requires
        nonneg_styles_all(s),
    ensures
        forall|i: int| 0 <= i < s.len() ==> nonneg_styles(#[trigger] s[i]),
    decreases s,
{
    if s.len() > 0 {
        lemma_nonneg_styles_all(s.drop_last());
        assert forall|i: int| 0 <= i < s.len() implies nonneg_styles(s[i]) by {
            if i < s.len() - 1 {
                assert(s.drop_last()[i] == s[i]);
            }
        }
    }
}

pub proof fn lemma_nonneg_styles_all_intro(s: Seq<BoxStruct>)
    requires
        forall|i: int| 0 <= i < s.len() ==> nonneg_styles(#[trigger] s[i]),
    ensures
        nonneg_styles_all(s),
    decreases s,
{
    if s.len() > 0 {
        assert(forall|i: int| 0 <= i < s.drop_last().len() ==> s.drop_last()[i] == s[i]);
        lemma_nonneg_styles_all_intro(s.drop_last());
    }
}

/// Non-negative content extents, vertical edges, and padding and
/// border widths; the horizontal margins are exempt, as underflow
/// distribution may drive them negative.
pub open spec fn nonneg_box(d: Dimensions) -> bool {
    &&& d.content.width >= 0
    &&& d.content.height >= 0
    &&& d.padding.left >= 0 && d.padding.right >= 0 && d.padding.top >= 0 && d.padding.bottom
        >= 0
    &&& d.border.left >= 0 && d.border.right >= 0 && d.border.top >= 0 && d.border.bottom >= 0
    &&& d.margin.top >= 0 && d.margin.bottom >= 0
}

pub open spec fn nonneg_boxes(b: LayoutBoxView) -> bool
    decreases b,
{
    &&& nonneg_box(b.dimensions)
    &&& nonneg_boxes_all(b.children)
}

pub open spec fn nonneg_boxes_all(s: Seq<LayoutBoxView>) -> bool
    decreases s,
{
    if s.len() == 0 {
        true
    } else {
        nonneg_boxes_all(s.drop_last()) && nonneg_boxes(s.last())
    }
}

proof fn lemma_zero_view_nonneg(s: BoxStruct)
    ensures
        nonneg_boxes(zero_view(s)),
    decreases s,
{
    lemma_zero_views_nonneg(s.children);
}

proof fn lemma_zero_views_nonneg(s: Seq<BoxStruct>)
    ensures
        nonneg_boxes_all(zero_views(s)),
    decreases s,
{
    if s.len() > 0 {
        lemma_zero_views_nonneg(s.drop_last());
        lemma_zero_view_nonneg(s.last());
        assert(zero_views(s).drop_last() =~= zero_views(s.drop_last()));
    }
}

proof fn lemma_pct_nonneg(l: int, w: int)
    requires
        l >= 0,
        w >= 0,
    ensures
        div_to_zero(l * w, 100) >= 0,
{
    assert(l * w >= 0) by (nonlinear_arith)
        requires
            l >= 0 && w >= 0,
    ;
    assert((l * w) / 100 >= 0) by (nonlinear_arith)
        requires
            l * w >= 0,
    ;
}

/// Content extents are never negative by construction: with a
/// non-negative containing width and non-negative style lengths
/// throughout, every box a layout pass yields has non-negative content
/// width and height (and non-negative padding, border and vertical
/// margin edges).
pub proof fn lemma_interp_nonneg(s: BoxStruct, b: Dimensions)
    requires
        nonneg_styles(s),
        b.content.width >= 0,
    ensures
        match interp_box(s, b) {
            Ok(nb) => nonneg_boxes(nb),
            Err(_) => true,
        },
    decreases s, 0int,
{
    if s.box_type is Suppressed {
        lemma_zero_view_nonneg(s);
    } else {
        let step1 = if s.box_type is InlineBlock {
            spec_calculate_inline_width(s.styles, b)
        } else {
            spec_calculate_width(s.styles, b)
        };
        match step1 {
            Err(_) => {},
            Ok(d1) => {
                proof_width_step_nonneg(s.styles, b, d1);
                let step2 = if s.box_type is InlineBlock {
                    spec_calculate_inline_position(s.styles, d1, b)
                } else {
                    spec_calculate_position(s.styles, d1, b)
                };
                match step2 {
                    Err(_) => {},
                    Ok(d2) => {
                        assert(nonneg_box(d2));
                        lemma_interp_children_nonneg(d2, s.children, 0, BoxType::Block,
                            Seq::empty());
                        match interp_children(d2, s.children, 0, BoxType::Block, Seq::empty()) {
                            Err(_) => {},
                            Ok((d3, kids)) => {
                                assert(nonneg_box(spec_calculate_height(s.styles, d3)));
                            },
                        }
                    },
                }
            },
        }
    }
}

/// The width step yields non-negative extents and edges.
proof fn proof_width_step_nonneg(styles: Map<Seq<char>, ValueView>, b: Dimensions, d1: Dimensions)
    requires
        nonneg_styles_map(styles),
        b.content.width >= 0,
        spec_calculate_width(styles, b) == Ok::<Dimensions, LayoutError>(d1)
            || spec_calculate_inline_width(styles, b) == Ok::<Dimensions, LayoutError>(d1),
    ensures
        nonneg_box(d1),
        d1.content.height == 0,
{
    match spec_absolute_num(styles, b, "width"@) {
        Err(_) => {},
        Ok(wopt) => match wopt {
            Some(v) => {
                if styles.contains_key("width"@) {
                    match styles["width"@] {
                        ValueView::Length(l, u) => match u {
                            Unit::Pct => {
                                lemma_pct_nonneg(l as int, b.content.width as int);
                            },
                            _ => {},
                        },
                        _ => {},
                    }
                }
            },
            None => {},
        },
    }
}

proof fn lemma_child_step_nonneg(d: Dimensions, child: BoxStruct, max_h: int, prev: BoxType)
    requires
        nonneg_styles(child),
        d.content.width >= 0,
        d.content.height >= 0,
        max_h >= 0,
    ensures
        match spec_child_step(d, child, max_h, prev) {
            Ok(t) => t.0.content.width == d.content.width && t.0.content.height
                >= 0 && t.1 >= 0 && nonneg_boxes(t.2) && t.0.padding == d.padding
                && t.0.border == d.border && t.0.margin == d.margin,
            Err(_) => true,
        },
    decreases child, 1int,
{
    let flush = prev is InlineBlock && child.box_type is Block;
    let h0 = d.content.height + max_h;
    if flush && !in_px(h0) {
    } else {
        let d0 = if flush {
            dims_with_cur_x(dims_with_height(d, h0 as i64), 0)
        } else {
            d
        };
        lemma_interp_nonneg(child, d0);
        match interp_box(child, d0) {
            Err(_) => {},
            Ok(cb) => {
                if child.box_type is InlineBlock {
                    let nh = spec_margin_box_height(cb.dimensions);
                    let max2 = if nh > max_h {
                        nh
                    } else {
                        max_h
                    };
                    let x2 = d0.current.x + spec_margin_box_width(cb.dimensions);
                    if in_px(x2) {
                        let d1 = dims_with_cur_x(d0, x2 as i64);
                        if x2 > d1.content.width {
                            let h3 = d1.content.height + max2;
                            if in_px(h3) {
                                let d2 = dims_with_cur_x(dims_with_height(d1, h3 as i64), 0);
                                lemma_interp_nonneg(child, d2);
                            }
                        }
                    }
                }
            },
        }
    }
}

proof fn lemma_interp_children_nonneg(
    d: Dimensions,
    rem: Seq<BoxStruct>,
    max_h: int,
    prev: BoxType,
    out: Seq<LayoutBoxView>,
)
    requires
        nonneg_styles_all(rem),
        d.content.width >= 0,
        d.content.height >= 0,
        max_h >= 0,
        nonneg_boxes_all(out),
    ensures
        match interp_children(d, rem, max_h, prev, out) {
            Ok((nd, outs)) => nd.content.width == d.content.width && nd.content.height >= 0
                && nonneg_boxes_all(outs) && nd.padding == d.padding && nd.border == d.border
                && nd.margin == d.margin,
            Err(_) => true,
        },
    decreases rem, 2int,
{
    if rem.len() == 0 {
    } else {
        lemma_nonneg_styles_all(rem);
        lemma_child_step_nonneg(d, rem[0], max_h, prev);
        match spec_child_step(d, rem[0], max_h, prev) {
            Err(_) => {},
            Ok(t) => {
                assert(out.push(t.2).drop_last() =~= out);
                assert(nonneg_boxes_all(out.push(t.2)));
                assert(forall|i: int| 0 <= i < rem.drop_first().len()
                    ==> rem.drop_first()[i] == rem[i + 1]);
                lemma_nonneg_styles_all_intro(rem.drop_first());
                lemma_interp_children_nonneg(
                    t.0,
                    rem.drop_first(),
                    t.1,
                    rem[0].box_type,
                    out.push(t.2),
                );
            },
        }
    }
}

/// The flow class that a display mode maps to.
pub open spec fn spec_box_type(d: Display) -> BoxType {
    match d {
        Display::Block => BoxType::Block,
        Display::Inline => BoxType::Inline,
        Display::InlineBlock => BoxType::InlineBlock,
        Display::Suppressed => BoxType::Suppressed,
    }
}

/// The box structure that a styled tree denotes: one box per styled
/// node whose display is not suppressed; a suppressed node and its
/// whole subtree are omitted.
pub open spec fn spec_build_struct(sn: StyledNodeView) -> BoxStruct
    decreases sn,
{
    BoxStruct {
        box_type: spec_box_type(spec_display(sn.styles)),
        styles: sn.styles,
        children: spec_build_children(sn.children),
    }
}

pub open spec fn spec_build_children(ns: Seq<StyledNodeView>) -> Seq<BoxStruct>
    decreases ns,
{
    if ns.len() == 0 {
        Seq::empty()
    } else {
        spec_build_children(ns.drop_last()) + (if spec_display(ns.last().styles)
            is Suppressed {
            Seq::empty()
        } else {
            seq![spec_build_struct(ns.last())]
        })
    }
}

/// A built tree whose root is not suppressed holds no suppressed box.
pub proof fn lemma_build_no_suppressed(sn: StyledNodeView)
    requires
        !(spec_display(sn.styles) is Suppressed),
    ensures
        no_suppressed(spec_build_struct(sn)),
    decreases sn,
{
    lemma_build_children_no_suppressed(sn.children);
}

pub proof fn lemma_build_children_no_suppressed(ns: Seq<StyledNodeView>)
    ensures
        no_suppressed_all(spec_build_children(ns)),
    decreases ns,
{
    if ns.len() > 0 {
        lemma_build_children_no_suppressed(ns.drop_last());
        let a = spec_build_children(ns.drop_last());
        if spec_display(ns.last().styles) is Suppressed {
            assert(spec_build_children(ns) =~= a);
        } else {
            lemma_build_no_suppressed(ns.last());
            let s = spec_build_children(ns);
            assert(s =~= a.push(spec_build_struct(ns.last())));
            assert(s.drop_last() =~= a);
        }
    }
}

/// The layout pass over a whole styled tree: build the box tree, then
/// lay it out against the containing block with its content height
/// forced to zero.
pub open spec fn spec_layout_tree(sn: StyledNodeView, cb: Dimensions) -> Result<
    LayoutBoxView,
    LayoutError,
> {
    interp_box(spec_build_struct(sn), dims_with_height(cb, 0))
}

/// At the whole-pass level: with non-negative style lengths throughout
/// the built box tree and a non-negative viewport width, every box the
/// pass yields has non-negative content width and height.
pub proof fn lemma_layout_tree_nonneg(sn: StyledNodeView, cb: Dimensions)
    requires
        nonneg_styles(spec_build_struct(sn)),
        cb.content.width >= 0,
    ensures
        match spec_layout_tree(sn, cb) {
            Ok(nb) => nonneg_boxes(nb),
            Err(_) => true,
        },
{
    lemma_interp_nonneg(spec_build_struct(sn), dims_with_height(cb, 0));
}

/// Layout is deterministic: the pass is a function of the styled tree
/// and the containing block alone, so re-running it with unchanged
/// inputs produces bit-identical geometry (every field of every
/// `Dimensions` in the tree), as `layout_tree` promises its result
/// equals this function of its inputs.
pub proof fn lemma_layout_deterministic(
    sn1: StyledNodeView,
    sn2: StyledNodeView,
    cb1: Dimensions,
    cb2: Dimensions,
)
    requires
        sn1 == sn2,
        cb1 == cb2,
    ensures
        spec_layout_tree(sn1, cb1) == spec_layout_tree(sn2, cb2),
{
}

/// The exact margin-box height of stored dimensions.
fn margin_box_height_px(d: &Dimensions) -> (r: i128)
    ensures
        r as int == spec_margin_box_height(*d),
        -0x38000000000000000 <= r <= 0x38000000000000000,
{
    d.content.height as i128 + d.padding.top as i128 + d.padding.bottom as i128
        + d.border.top as i128 + d.border.bottom as i128 + d.margin.top as i128
        + d.margin.bottom as i128
}

/// The exact margin-box width of stored dimensions.
fn margin_box_width_px(d: &Dimensions) -> (r: i128)
    ensures
        r as int == spec_margin_box_width(*d),
        -0x38000000000000000 <= r <= 0x38000000000000000,
{
    d.content.width as i128 + d.padding.left as i128 + d.padding.right as i128
        + d.border.left as i128 + d.border.right as i128 + d.margin.left as i128
        + d.margin.right as i128
}

fn width_dims_x(w: i64, ml: i64, mr: i64, bl: i64, br: i64, pl: i64, pr: i64) -> (d: Dimensions)
    ensures
        d == width_dims(w, ml, mr, bl, br, pl, pr),
{
    Dimensions {
        content: Rectangle { x: 0, y: 0, width: w, height: 0 },
        padding: EdgeSizes { left: pl, right: pr, top: 0, bottom: 0 },
        border: EdgeSizes { left: bl, right: br, top: 0, bottom: 0 },
        margin: EdgeSizes { left: ml, right: mr, top: 0, bottom: 0 },
        current: Rectangle { x: 0, y: 0, width: 0, height: 0 },
    }
}

impl LayoutBox {
    /// A fresh box over a styled node: zero geometry, a copy of the
    /// node's resolved styles, no children yet.
    pub fn new(box_type: BoxType, styled_node: &StyledNode) -> (r: LayoutBox)
        ensures
            r@ == (LayoutBoxView {
                dimensions: zero_dims(),
                box_type,
                styles: styled_node@.styles,
                children: Seq::empty(),
            }),
    {
        let r = LayoutBox {
            dimensions: Dimensions::default(),
            box_type,
            styles: styled_node.styles.duplicate(),
            children: Vec::new(),
        };
        proof {
            assert(boxes_view(r.children@) =~= Seq::<LayoutBoxView>::empty());
            assert(r@ =~= (LayoutBoxView {
                dimensions: zero_dims(),
                box_type,
                styles: styled_node@.styles,
                children: Seq::empty(),
            }));
        }
        r
    }

    /// Resolves a `width`-like property to pixels against the
    /// containing block.
    fn absolute_num(styles: &PropertyMap, b_box: Dimensions, prop: &str) -> (r: Result<
        Option<i128>,
        LayoutError,
    >)
        ensures
            match spec_absolute_num(styles@, b_box, prop@) {
                Ok(None) => r == Ok::<Option<i128>, LayoutError>(None),
                Ok(Some(v)) => r matches Ok(Some(w)) && w as int == v,
                Err(e) => r == Err::<Option<i128>, LayoutError>(e),
            },
    {
        match styles.get(prop) {
            Some(v) => match v {
                Value::Length(l, u) => match u {
                    Unit::Px => Ok(Some(*l as i128)),
                    Unit::Pct => {
                        let p = mul_px(*l, b_box.content.width);
                        Ok(Some(div_trunc(p, 100)))
                    },
                    _ => Err(LayoutError::UnsupportedUnit),
                },
                _ => Ok(None),
            },
            None => Ok(None),
        }
    }

    /// Block width resolution, distributing underflow per the rules.
    #[verifier::rlimit(100)]
    fn calculate_width(styles: &PropertyMap, b_box: Dimensions) -> (r: Result<
        Dimensions,
        LayoutError,
    >)
        ensures
            r == spec_calculate_width(styles@, b_box),
    {
        let wopt = match Self::absolute_num(styles, b_box, "width") {
            Ok(w) => w,
            Err(e) => { return Err(e) },
        };
        proof {
            lemma_absolute_num_bound(styles@, b_box, "width"@);
        }
        let width: i128 = match wopt {
            Some(w) => w,
            None => 0,
        };
        let ml_set = styles.get("margin-left").is_some();
        let mr_set = styles.get("margin-right").is_some();
        let ml_px = styles.num_or("margin-left", 0);
        let mr_px = styles.num_or("margin-right", 0);
        let bl = styles.num_or("border-left-width", 0);
        let br = styles.num_or("border-right-width", 0);
        let pl = styles.num_or("padding-left", 0);
        let pr = styles.num_or("padding-right", 0);
        let total: i128 = width + ml_px as i128 + mr_px as i128 + bl as i128 + br as i128
            + pl as i128 + pr as i128;
        let underflow: i128 = b_box.content.width as i128 - total;
        if width != 0 && !ml_set && mr_set {
            let ml_v = match px_of(underflow) {
                Ok(v) => v,
                Err(e) => { return Err(e) },
            };
            let w_v = match px_of(width) {
                Ok(v) => v,
                Err(e) => { return Err(e) },
            };
            Ok(width_dims_x(w_v, ml_v, mr_px, bl, br, pl, pr))
        } else if width != 0 && ml_set && !mr_set {
            let mr_v = match px_of(underflow) {
                Ok(v) => v,
                Err(e) => { return Err(e) },
            };
            let w_v = match px_of(width) {
                Ok(v) => v,
                Err(e) => { return Err(e) },
            };
            Ok(width_dims_x(w_v, ml_px, mr_v, bl, br, pl, pr))
        } else if width != 0 && !ml_set && !mr_set {
            let half = div_trunc(underflow, 2);
            let h_v = match px_of(half) {
                Ok(v) => v,
                Err(e) => { return Err(e) },
            };
            let w_v = match px_of(width) {
                Ok(v) => v,
                Err(e) => { return Err(e) },
            };
            Ok(width_dims_x(w_v, h_v, h_v, bl, br, pl, pr))
        } else if width == 0 {
            if underflow >= 0 {
                let w_v = match px_of(underflow) {
                    Ok(v) => v,
                    Err(e) => { return Err(e) },
                };
                Ok(width_dims_x(w_v, 0, mr_px, bl, br, pl, pr))
            } else {
                let mr_v = match px_of(mr_px as i128 + underflow) {
                    Ok(v) => v,
                    Err(e) => { return Err(e) },
                };
                Ok(width_dims_x(0, 0, mr_v, bl, br, pl, pr))
            }
        } else {
            let mr_v = match px_of(mr_px as i128 + underflow) {
                Ok(v) => v,
                Err(e) => { return Err(e) },
            };
            let w_v = match px_of(width) {
                Ok(v) => v,
                Err(e) => { return Err(e) },
            };
            Ok(width_dims_x(w_v, ml_px, mr_v, bl, br, pl, pr))
        }
    }

    /// Vertical edges and absolute position for a block-flow box.
    fn calculate_position(styles: &PropertyMap, d: Dimensions, b_box: Dimensions) -> (r: Result<
        Dimensions,
        LayoutError,
    >)
        ensures
            r == spec_calculate_position(styles@, d, b_box),
    {
        let mt = styles.num_or("margin-top", 0);
        let mb = styles.num_or("margin-bottom", 0);
        let bt = styles.num_or("border-top-width", 0);
        let bb = styles.num_or("border-bottom-width", 0);
        let pt = styles.num_or("padding-top", 0);
        let pb = styles.num_or("padding-bottom", 0);
        let x: i128 = b_box.content.x as i128 + d.margin.left as i128 + d.border.left as i128
            + d.padding.left as i128;
        let y: i128 = b_box.content.height as i128 + b_box.content.y as i128 + mt as i128
            + bt as i128 + pt as i128;
        let xv = match px_of(x) {
            Ok(v) => v,
            Err(e) => { return Err(e) },
        };
        let yv = match px_of(y) {
            Ok(v) => v,
            Err(e) => { return Err(e) },
        };
        Ok(Dimensions {
            content: Rectangle { x: xv, y: yv, width: d.content.width, height: d.content.height },
            padding: EdgeSizes { left: d.padding.left, right: d.padding.right, top: pt, bottom: pb },
            border: EdgeSizes { left: d.border.left, right: d.border.right, top: bt, bottom: bb },
            margin: EdgeSizes { left: d.margin.left, right: d.margin.right, top: mt, bottom: mb },
            current: d.current,
        })
    }

    /// Applies an explicit `height` length, if any.
    fn calculate_height(styles: &PropertyMap, d: Dimensions) -> (r: Dimensions)
        ensures
            r == spec_calculate_height(styles@, d),
    {
        match styles.get("height") {
            Some(Value::Length(n, _)) => {
                let mut d2 = d;
                d2.content.height = *n;
                d2
            },
            _ => d,
        }
    }

    /// Inline-block width: declared values taken verbatim.
    fn calculate_inline_width(styles: &PropertyMap, b_box: Dimensions) -> (r: Result<
        Dimensions,
        LayoutError,
    >)
        ensures
            r == spec_calculate_inline_width(styles@, b_box),
    {
        let wopt = match Self::absolute_num(styles, b_box, "width") {
            Ok(w) => w,
            Err(e) => { return Err(e) },
        };
        proof {
            lemma_absolute_num_bound(styles@, b_box, "width"@);
        }
        let width: i128 = match wopt {
            Some(w) => w,
            None => 0,
        };
        let w_v = match px_of(width) {
            Ok(v) => v,
            Err(e) => { return Err(e) },
        };
        Ok(width_dims_x(
            w_v,
            styles.num_or("margin-left", 0),
            styles.num_or("margin-right", 0),
            styles.num_or("border-left-width", 0),
            styles.num_or("border-right-width", 0),
            styles.num_or("padding-left", 0),
            styles.num_or("padding-right", 0),
        ))
    }

    /// Inline-block position: offset additionally by the in-row cursor.
    fn calculate_inline_position(styles: &PropertyMap, d: Dimensions, b_box: Dimensions) -> (r:
        Result<Dimensions, LayoutError>)
        ensures
            r == spec_calculate_inline_position(styles@, d, b_box),
    {
        let mt = styles.num_or("margin-top", 0);
        let mb = styles.num_or("margin-bottom", 0);
        let bt = styles.num_or("border-top-width", 0);
        let bb = styles.num_or("border-bottom-width", 0);
        let pt = styles.num_or("padding-top", 0);
        let pb = styles.num_or("padding-bottom", 0);
        let x: i128 = b_box.content.x as i128 + b_box.current.x as i128 + d.margin.left as i128
            + d.border.left as i128 + d.padding.left as i128;
        let y: i128 = b_box.content.height as i128 + b_box.content.y as i128 + mt as i128
            + bt as i128 + pt as i128;
        let xv = match px_of(x) {
            Ok(v) => v,
            Err(e) => { return Err(e) },
        };
        let yv = match px_of(y) {
            Ok(v) => v,
            Err(e) => { return Err(e) },
        };
        Ok(Dimensions {
            content: Rectangle { x: xv, y: yv, width: d.content.width, height: d.content.height },
            padding: EdgeSizes { left: d.padding.left, right: d.padding.right, top: pt, bottom: pb },
            border: EdgeSizes { left: d.border.left, right: d.border.right, top: bt, bottom: bb },
            margin: EdgeSizes { left: d.margin.left, right: d.margin.right, top: mt, bottom: mb },
            current: d.current,
        })
    }

    /// Lays out one child against the evolving parent dimensions,
    /// handling the pending-row flush and the row wrap.  Yields the
    /// updated parent dimensions and row height.
    fn child_step(d: Dimensions, max_h: i128, prev: BoxType, child: &mut LayoutBox) -> (r: Result<
        (Dimensions, i128),
        LayoutError,
    >)
        requires
            no_suppressed(strip(old(child)@)),
            -0x40000000000000000 <= max_h <= 0x40000000000000000,
        ensures
            match spec_child_step(d, strip(old(child)@), max_h as int, prev) {
                Ok(t) => r matches Ok(p) && p.0 == t.0 && p.1 as int == t.1 && final(child)@
                    == t.2 && -0x40000000000000000 <= p.1 <= 0x40000000000000000,
                Err(e) => r == Err::<(Dimensions, i128), LayoutError>(e),
            },
        decreases ssize(strip(child@)), 3int,
    {
        let ghost child_struct = strip(old(child)@);
        let mut d = d;
        let ghost d_at = d;
        let flush = matches!(prev, BoxType::InlineBlock) && matches!(
            child.box_type,
            BoxType::Block,
        );
        if flush {
            let h0: i128 = d.content.height as i128 + max_h;
            let hv = match px_of(h0) {
                Ok(v) => v,
                Err(e) => { return Err(e) },
            };
            d.content.height = hv;
            d.current.x = 0;
            proof {
                assert(d == dims_with_cur_x(dims_with_height(d_at, hv), 0));
            }
        }
        let ghost d0 = d;
        match child.layout(d) {
            Ok(()) => {},
            Err(e) => { return Err(e) },
        }
        proof {
            lemma_interp_strip(child_struct, d0);
        }
        let nh: i128 = margin_box_height_px(&child.dimensions);
        let max2: i128 = if nh > max_h {
            nh
        } else {
            max_h
        };
        let bt = child.box_type;
        match bt {
            BoxType::Block => {
                let h2: i128 = d.content.height as i128 + nh;
                let hv = match px_of(h2) {
                    Ok(v) => v,
                    Err(e) => { return Err(e) },
                };
                d.content.height = hv;
                proof {
                    assert(d == dims_with_height(d0, hv));
                }
            },
            BoxType::InlineBlock => {
                let w = margin_box_width_px(&child.dimensions);
                let x2: i128 = d.current.x as i128 + w;
                let xv = match px_of(x2) {
                    Ok(v) => v,
                    Err(e) => { return Err(e) },
                };
                d.current.x = xv;
                let ghost d1 = d;
                proof {
                    assert(d1 == dims_with_cur_x(d0, xv));
                }
                if xv > d.content.width {
                    let h3: i128 = d.content.height as i128 + max2;
                    let hv = match px_of(h3) {
                        Ok(v) => v,
                        Err(e) => { return Err(e) },
                    };
                    d.content.height = hv;
                    d.current.x = 0;
                    let ghost d2 = d;
                    proof {
                        assert(d2 == dims_with_cur_x(dims_with_height(d1, hv), 0));
                    }
                    match child.layout(d) {
                        Ok(()) => {},
                        Err(e) => { return Err(e) },
                    }
                    proof {
                        lemma_interp_strip(child_struct, d2);
                    }
                    let w2 = margin_box_width_px(&child.dimensions);
                    let x3: i128 = d.current.x as i128 + w2;
                    let xv2 = match px_of(x3) {
                        Ok(v) => v,
                        Err(e) => { return Err(e) },
                    };
                    d.current.x = xv2;
                    proof {
                        assert(d == dims_with_cur_x(d2, xv2));
                    }
                }
            },
            _ => {},
        }
        Ok((d, max2))
    }

    /// Lays the children out in document order against the evolving
    /// parent dimensions, handling row wrap for inline-block runs.
    #[verifier::loop_isolation(false)]
    fn children_layout(d_in: Dimensions, kids: Vec<LayoutBox>) -> (r: Result<
        (Dimensions, Vec<LayoutBox>),
        LayoutError,
    >)
        requires
            no_suppressed_all(strip_all(boxes_view(kids@))),
        ensures
            match interp_children(
                d_in,
                strip_all(boxes_view(kids@)),
                0,
                BoxType::Block,
                Seq::empty(),
            ) {
                Ok(p) => r matches Ok(q) && q.0 == p.0 && boxes_view(q.1@) == p.1,
                Err(e) => r == Err::<(Dimensions, Vec<LayoutBox>), LayoutError>(e),
            },
        decreases ssizes(strip_all(boxes_view(kids@))) + 1, 0int,
    {
        let ghost orig = strip_all(boxes_view(kids@));
        let ghost goal = interp_children(d_in, orig, 0, BoxType::Block, Seq::empty());
        let mut remaining = kids;
        let mut done: Vec<LayoutBox> = Vec::new();
        proof {
            assert(boxes_view(done@) =~= Seq::<LayoutBoxView>::empty());
        }
        let mut d = d_in;
        let mut max_h: i128 = 0;
        let mut prev = BoxType::Block;
        while remaining.len() > 0
            invariant
                goal == interp_children(
                    d,
                    strip_all(boxes_view(remaining@)),
                    max_h as int,
                    prev,
                    boxes_view(done@),
                ),
                no_suppressed_all(strip_all(boxes_view(remaining@))),
                ssizes(strip_all(boxes_view(remaining@))) <= ssizes(orig),
                -0x40000000000000000 <= max_h <= 0x40000000000000000,
            decreases remaining@.len(),
        {
            let ghost rem_views = boxes_view(remaining@);
            let ghost rem_structs = strip_all(rem_views);
            let ghost out_at = boxes_view(done@);
            proof {
                lemma_boxes_view(remaining@);
                lemma_strip_all(rem_views);
                lemma_no_suppressed_all(rem_structs);
                lemma_ssizes_first(rem_structs);
            }
            let mut child = remaining.remove(0);
            let ghost child_struct = strip(child@);
            proof {
                assert(rem_views[0] == child@);
                assert(rem_structs[0] == child_struct);
                lemma_boxes_view(remaining@);
                lemma_strip_all(boxes_view(remaining@));
                assert(boxes_view(remaining@) =~= rem_views.drop_first());
                assert(strip_all(boxes_view(remaining@)) =~= rem_structs.drop_first());
                lemma_no_suppressed_all_intro(rem_structs.drop_first());
                assert(ssize(child_struct) < ssizes(orig) + 1);
                assert(ssize(strip(child@)) < ssizes(strip_all(boxes_view(kids@))) + 1);
                assert(interp_children(d, rem_structs, max_h as int, prev, out_at) == (
                match spec_child_step(d, rem_structs[0], max_h as int, prev) {
                    Err(e) => Err::<(Dimensions, Seq<LayoutBoxView>), LayoutError>(e),
                    Ok(t) => interp_children(
                        t.0,
                        rem_structs.drop_first(),
                        t.1,
                        rem_structs[0].box_type,
                        out_at.push(t.2),
                    ),
                }));
            }
            let ghost d_at = d;
            let ghost max_at = max_h as int;
            let ghost prev_at = prev;
            let step = match Self::child_step(d, max_h, prev, &mut child) {
                Ok(p) => p,
                Err(e) => { return Err(e) },
            };
            d = step.0;
            max_h = step.1;
            prev = child.box_type;
            proof {
                lemma_child_step_strip(d_at, child_struct, max_at, prev_at);
                assert(child@.box_type == child_struct.box_type);
            }
            let ghost done_prev = done@;
            done.push(child);
            proof {
                assert(done@.drop_last() =~= done_prev);
                assert(boxes_view(done@) =~= out_at.push(child@));
            }
        }
        proof {
            assert(boxes_view(remaining@) =~= Seq::<LayoutBoxView>::empty());
            assert(strip_all(boxes_view(remaining@)) =~= Seq::<BoxStruct>::empty());
        }
        Ok((d, done))
    }

    /// Lays this box out against the containing block `b_box`.
    fn layout(&mut self, b_box: Dimensions) -> (r: Result<(), LayoutError>)
        requires
            no_suppressed(strip(old(self)@)),
        ensures
            match interp_box(strip(old(self)@), b_box) {
                Ok(nb) => r is Ok && final(self)@ == nb,
                Err(e) => r == Err::<(), LayoutError>(e),
            },
        decreases ssize(strip(self@)), 2int,
    {
        let bt = self.box_type;
        match bt {
            BoxType::Block => self.layout_block(b_box),
            BoxType::Inline => self.layout_block(b_box),
            BoxType::InlineBlock => self.layout_inline_block(b_box),
            BoxType::Suppressed => Ok(()),
        }
    }

    fn layout_block(&mut self, b_box: Dimensions) -> (r: Result<(), LayoutError>)
        requires
            old(self)@.box_type is Block || old(self)@.box_type is Inline,
            no_suppressed(strip(old(self)@)),
        ensures
            match interp_box(strip(old(self)@), b_box) {
                Ok(nb) => r is Ok && final(self)@ == nb,
                Err(e) => r == Err::<(), LayoutError>(e),
            },
        decreases ssize(strip(self@)), 1int,
    {
        let ghost s = strip(old(self)@);
        let d1 = match Self::calculate_width(&self.styles, b_box) {
            Ok(d) => d,
            Err(e) => { return Err(e) },
        };
        let d2 = match Self::calculate_position(&self.styles, d1, b_box) {
            Ok(d) => d,
            Err(e) => { return Err(e) },
        };
        let mut taken: Vec<LayoutBox> = Vec::new();
        core::mem::swap(&mut self.children, &mut taken);
        let d3 = match Self::children_layout(d2, taken) {
            Ok((d, ch)) => {
                self.children = ch;
                d
            },
            Err(e) => { return Err(e) },
        };
        self.dimensions = Self::calculate_height(&self.styles, d3);
        proof {
            match interp_box(s, b_box) {
                Ok(nb) => {
                    assert(self@ =~= nb);
                },
                Err(_) => {},
            }
        }
        Ok(())
    }

    fn layout_inline_block(&mut self, b_box: Dimensions) -> (r: Result<(), LayoutError>)
        requires
            old(self)@.box_type is InlineBlock,
            no_suppressed(strip(old(self)@)),
        ensures
            match interp_box(strip(old(self)@), b_box) {
                Ok(nb) => r is Ok && final(self)@ == nb,
                Err(e) => r == Err::<(), LayoutError>(e),
            },
        decreases ssize(strip(self@)), 1int,
    {
        let ghost s = strip(old(self)@);
        let d1 = match Self::calculate_inline_width(&self.styles, b_box) {
            Ok(d) => d,
            Err(e) => { return Err(e) },
        };
        let d2 = match Self::calculate_inline_position(&self.styles, d1, b_box) {
            Ok(d) => d,
            Err(e) => { return Err(e) },
        };
        let mut taken: Vec<LayoutBox> = Vec::new();
        core::mem::swap(&mut self.children, &mut taken);
        let d3 = match Self::children_layout(d2, taken) {
            Ok((d, ch)) => {
                self.children = ch;
                d
            },
            Err(e) => { return Err(e) },
        };
        self.dimensions = Self::calculate_height(&self.styles, d3);
        proof {
            match interp_box(s, b_box) {
                Ok(nb) => {
                    assert(self@ =~= nb);
                },
                Err(_) => {},
            }
        }
        Ok(())
    }

    /// Builds the box tree for a styled tree: children whose display is
    /// `none` are omitted together with their subtrees.
    fn build_layout_tree(node: &StyledNode) -> (r: LayoutBox)
        ensures
            r@ == zero_view(spec_build_struct(node@)),
        decreases node,
    {
        let disp = node.get_display();
        let bt = match disp {
            Display::Block => BoxType::Block,
            Display::Inline => BoxType::Inline,
            Display::InlineBlock => BoxType::InlineBlock,
            Display::Suppressed => BoxType::Suppressed,
        };
        let mut root = LayoutBox::new(bt, node);
        let ghost cviews = node@.children;
        proof {
            crate::style::lemma_styled_nodes_view(node.children@);
            assert(cviews.take(0) =~= Seq::<StyledNodeView>::empty());
            assert(boxes_view(root.children@) =~= Seq::<LayoutBoxView>::empty());
            assert(zero_views(spec_build_children(cviews.take(0)))
                =~= Seq::<LayoutBoxView>::empty());
        }
        let mut i: usize = 0;
        while i < node.children.len()
            invariant
                cviews == node@.children,
                cviews.len() == node.children@.len(),
                forall|j: int| 0 <= j < cviews.len() ==> cviews[j] == crate::style::styled_node_view(
                    node.children@[j],
                ),
                i <= cviews.len(),
                boxes_view(root.children@) == zero_views(spec_build_children(cviews.take(i as int))),
                root.box_type == bt,
                root.styles@ == node@.styles,
                root.dimensions == zero_dims(),
            decreases cviews.len() - i,
        {
            proof {
                assert(cviews.take(i + 1).drop_last() =~= cviews.take(i as int));
                assert(cviews.take(i + 1).last() == cviews[i as int]);
            }
            let cd = node.children[i].get_display();
            if !matches!(cd, Display::Suppressed) {
                let ghost prev_children = root.children@;
                let child_box = Self::build_layout_tree(&node.children[i]);
                root.children.push(child_box);
                proof {
                    assert(root.children@.drop_last() =~= prev_children);
                    assert(boxes_view(root.children@) =~= boxes_view(prev_children).push(
                        child_box@,
                    ));
                    let b = spec_build_children(cviews.take(i as int));
                    let x = spec_build_struct(cviews[i as int]);
                    assert(spec_build_children(cviews.take(i + 1)) =~= b.push(x));
                    assert(b.push(x).drop_last() =~= b);
                    assert(b.push(x).last() == x);
                    assert(zero_views(b.push(x)) =~= zero_views(b).push(zero_view(x)));
                    assert(boxes_view(root.children@) =~= zero_views(
                        spec_build_children(cviews.take(i + 1)),
                    ));
                }
            } else {
                proof {
                    assert(spec_build_children(cviews.take(i + 1)) =~= spec_build_children(
                        cviews.take(i as int),
                    ));
                }
            }
            i = i + 1;
        }
        proof {
            assert(cviews.take(i as int) =~= cviews);
            assert(root@ =~= zero_view(spec_build_struct(node@)));
        }
        root
    }

    /// Runs a full layout pass: builds the box tree for the styled
    /// root and computes geometry against the containing block, whose
    /// content height is forced to zero.  The root must be visible;
    /// a fatal condition aborts the pass and surfaces no geometry.
    pub fn layout_tree(root: &StyledNode, containing_block: Dimensions) -> (r: Result<
        LayoutBox,
        LayoutError,
    >)
        requires
            !(spec_display(root@.styles) is Suppressed),
        ensures
            match spec_layout_tree(root@, containing_block) {
                Ok(nb) => r matches Ok(b) && b@ == nb,
                Err(e) => r == Err::<LayoutBox, LayoutError>(e),
            },
    {
        let mut cb = containing_block;
        cb.content.height = 0;
        proof {
            assert(cb == dims_with_height(containing_block, 0));
        }
        let mut root_box = Self::build_layout_tree(root);
        proof {
            lemma_build_no_suppressed(root@);
            lemma_strip_zero(spec_build_struct(root@));
        }
        match root_box.layout(cb) {
            Ok(()) => Ok(root_box),
            Err(e) => Err(e),
        }
    }
}

} // verus!

