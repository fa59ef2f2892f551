//! Paint-list builder: flattens a laid-out box tree into an ordered
//! list of solid-rectangle fill commands, in pre-order, so that
//! children paint over their parents.  Per box: one rectangle for the
//! background over the border box, then four thin rectangles for the
//! border edges, each only when the corresponding color property
//! resolves to a color.

use vstd::prelude::*;

use crate::css::{Color, Value, ValueView};
use crate::layout::{boxes_view, in_px, rect_in_px, spec_border_box, Dimensions, LayoutBox,
    LayoutBoxView, LayoutError, lemma_boxes_view, RectModel, Rectangle};

verus! {

/// One primitive paint operation: fill a rectangle with a color.
#[derive(Clone, Copy, PartialEq, Eq, Structural, Debug)]
pub enum DisplayCommand {
    SolidRectangle(Color, Rectangle),
}

pub type DisplayCommandList = Vec<DisplayCommand>;

/// The color bound to `name`, when the property resolves to a color.
pub open spec fn spec_get_color(styles: Map<Seq<char>, ValueView>, name: Seq<char>) -> Option<
    Color,
> {
    if styles.contains_key(name) {
        match styles[name] {
            ValueView::Color(c) => Some(c),
            _ => None,
        }
    } else {
        None
    }
}

/// Range-checked store of an exact rectangle.
pub open spec fn px_rect(r: RectModel) -> Result<Rectangle, LayoutError> {
    if rect_in_px(r) {
        Ok(Rectangle {
            x: r.x as i64,
            y: r.y as i64,
            width: r.width as i64,
            height: r.height as i64,
        })
    } else {
        Err(LayoutError::Overflow)
    }
}

/// The background command of a box: one rectangle over its border box,
/// when a background color is set.
pub open spec fn spec_background_cmds(b: LayoutBoxView) -> Result<Seq<DisplayCommand>, LayoutError> {
    match spec_get_color(b.styles, "background-color"@) {
        Some(c) => match px_rect(spec_border_box(b.dimensions)) {
            Ok(r) => Ok(seq![DisplayCommand::SolidRectangle(c, r)]),
            Err(e) => Err(e),
        },
        None => Ok(Seq::empty()),
    }
}

/// The four border-edge commands of a box — left, right, top, bottom —
/// when a border color is set: thin rectangles sized by the border
/// edge widths, at the border-box edges.
pub open spec fn spec_border_cmds(b: LayoutBoxView) -> Result<Seq<DisplayCommand>, LayoutError> {
    match spec_get_color(b.styles, "border-color"@) {
        Some(c) => {
            let d = b.dimensions;
            let bb = spec_border_box(d);
            if !rect_in_px(bb) {
                Err(LayoutError::Overflow)
            } else {
                let rx = bb.x + bb.width - d.border.right;
                let by = bb.y + bb.height - d.border.bottom;
                if in_px(rx) && in_px(by) {
                    Ok(
                        seq![
                            DisplayCommand::SolidRectangle(
                                c,
                                Rectangle {
                                    x: bb.x as i64,
                                    y: bb.y as i64,
                                    width: d.border.left,
                                    height: bb.height as i64,
                                },
                            ),
                            DisplayCommand::SolidRectangle(
                                c,
                                Rectangle {
                                    x: rx as i64,
                                    y: bb.y as i64,
                                    width: d.border.right,
                                    height: bb.height as i64,
                                },
                            ),
                            DisplayCommand::SolidRectangle(
                                c,
                                Rectangle {
                                    x: bb.x as i64,
                                    y: bb.y as i64,
                                    width: bb.width as i64,
                                    height: d.border.top,
                                },
                            ),
                            DisplayCommand::SolidRectangle(
                                c,
                                Rectangle {
                                    x: bb.x as i64,
                                    y: by as i64,
                                    width: bb.width as i64,
                                    height: d.border.bottom,
                                },
                            ),
                        ],
                    )
                } else {
                    Err(LayoutError::Overflow)
                }
            }
        },
        None => Ok(Seq::empty()),
    }
}

/// All commands of one box and its subtree, in pre-order.
pub open spec fn spec_render_box(b: LayoutBoxView) -> Result<Seq<DisplayCommand>, LayoutError>
    decreases b, 1int,
{
    match spec_background_cmds(b) {
        Err(e) => Err(e),
        Ok(bg) => match spec_border_cmds(b) {
            Err(e) => Err(e),
            Ok(bd) => match spec_render_children(b.children) {
                Err(e) => Err(e),
                Ok(cc) => Ok(bg + bd + cc),
            },
        },
    }
}

pub open spec fn spec_render_children(s: Seq<LayoutBoxView>) -> Result<
    Seq<DisplayCommand>,
    LayoutError,
>
    decreases s, 0int,
{
    if s.len() == 0 {
        Ok(Seq::empty())
    } else {
        match spec_render_box(s[0]) {
            Err(e) => Err(e),
            Ok(c0) => match spec_render_children(s.drop_first()) {
                Err(e) => Err(e),
                Ok(cr) => Ok(c0 + cr),
            },
        }
    }
}

/// The border box of stored dimensions, range-checked.
fn try_border_box(d: &Dimensions) -> (r: Result<Rectangle, LayoutError>)
    ensures
        r == px_rect(spec_border_box(*d)),
{
    let x: i128 = d.content.x as i128 - d.padding.left as i128 - d.border.left as i128;
    let y: i128 = d.content.y as i128 - d.padding.top as i128 - d.border.top as i128;
    let w: i128 = d.content.width as i128 + d.padding.left as i128 + d.padding.right as i128
        + d.border.left as i128 + d.border.right as i128;
    let h: i128 = d.content.height as i128 + d.padding.top as i128 + d.padding.bottom as i128
        + d.border.top as i128 + d.border.bottom as i128;
    if x >= i64::MIN as i128 && x <= i64::MAX as i128 && y >= i64::MIN as i128 && y
        <= i64::MAX as i128 && w >= i64::MIN as i128 && w <= i64::MAX as i128 && h
        >= i64::MIN as i128 && h <= i64::MAX as i128 {
        Ok(Rectangle { x: x as i64, y: y as i64, width: w as i64, height: h as i64 })
    } else {
        Err(LayoutError::Overflow)
    }
}

/// Accumulates the display commands of a rendering pass.
pub struct Console {
    commands: DisplayCommandList,
}

impl View for Console {
    type V = Seq<DisplayCommand>;

    closed spec fn view(&self) -> Seq<DisplayCommand> {
        self.commands@
    }
}

impl Console {
    pub fn new(commands: DisplayCommandList) -> (c: Console)
        ensures
            c@ == commands@,
    {
        Console { commands }
    }

    /// The color bound to `name` on the box, if any.
    fn get_color(layout_box: &LayoutBox, name: &str) -> (r: Option<Color>)
        ensures
            r == spec_get_color(layout_box@.styles, name@),
    {
        match layout_box.styles.get(name) {
            Some(Value::Color(c)) => Some(*c),
            _ => None,
        }
    }

    /// Appends the background command of one box, if any.
    fn render_background(layout_box: &LayoutBox, acc: &mut Vec<DisplayCommand>) -> (r: Result<
        (),
        LayoutError,
    >)
        ensures
            match spec_background_cmds(layout_box@) {
                Ok(cmds) => r is Ok && final(acc)@ == old(acc)@ + cmds,
                Err(e) => r == Err::<(), LayoutError>(e),
            },
    {
        match Self::get_color(layout_box, "background-color") {
            Some(color) => {
                let rect = match try_border_box(&layout_box.dimensions) {
                    Ok(rect) => rect,
                    Err(e) => { return Err(e) },
                };
                let ghost before = acc@;
                acc.push(DisplayCommand::SolidRectangle(color, rect));
                proof {
                    assert(acc@ =~= before + seq![DisplayCommand::SolidRectangle(color, rect)]);
                }
                Ok(())
            },
            None => {
                proof {
                    assert(acc@ =~= acc@ + Seq::<DisplayCommand>::empty());
                }
                Ok(())
            },
        }
    }

    /// Appends the four border-edge commands of one box, if any.
    fn render_borders(layout_box: &LayoutBox, acc: &mut Vec<DisplayCommand>) -> (r: Result<
        (),
        LayoutError,
    >)
        ensures
            match spec_border_cmds(layout_box@) {
                Ok(cmds) => r is Ok && final(acc)@ == old(acc)@ + cmds,
                Err(e) => r == Err::<(), LayoutError>(e),
            },
    {
        match Self::get_color(layout_box, "border-color") {
            Some(color) => {
                let d = &layout_box.dimensions;
                let bb = match try_border_box(d) {
                    Ok(rect) => rect,
                    Err(e) => { return Err(e) },
                };
                let rx: i128 = bb.x as i128 + bb.width as i128 - d.border.right as i128;
                let by: i128 = bb.y as i128 + bb.height as i128 - d.border.bottom as i128;
                if !(rx >= i64::MIN as i128 && rx <= i64::MAX as i128 && by >= i64::MIN as i128
                    && by <= i64::MAX as i128) {
                    return Err(LayoutError::Overflow);
                }
                let ghost before = acc@;
                acc.push(
                    DisplayCommand::SolidRectangle(
                        color,
                        Rectangle { x: bb.x, y: bb.y, width: d.border.left, height: bb.height },
                    ),
                );
                acc.push(
                    DisplayCommand::SolidRectangle(
                        color,
                        Rectangle {
                            x: rx as i64,
                            y: bb.y,
                            width: d.border.right,
                            height: bb.height,
                        },
                    ),
                );
                acc.push(
                    DisplayCommand::SolidRectangle(
                        color,
                        Rectangle { x: bb.x, y: bb.y, width: bb.width, height: d.border.top },
                    ),
                );
                acc.push(
                    DisplayCommand::SolidRectangle(
                        color,
                        Rectangle {
                            x: bb.x,
                            y: by as i64,
                            width: bb.width,
                            height: d.border.bottom,
                        },
                    ),
                );
                proof {
                    match spec_border_cmds(layout_box@) {
                        Ok(cmds) => {
                            assert(acc@ =~= before + cmds);
                        },
                        Err(_) => {},
                    }
                }
                Ok(())
            },
            None => {
                proof {
                    assert(acc@ =~= acc@ + Seq::<DisplayCommand>::empty());
                }
                Ok(())
            },
        }
    }

    /// Appends the commands of one box and its subtree, in pre-order.
    #[verifier::loop_isolation(false)]
    fn render_layout_box(layout_box: &LayoutBox, acc: &mut Vec<DisplayCommand>) -> (r: Result<
        (),
        LayoutError,
    >)
        ensures
            match spec_render_box(layout_box@) {
                Ok(cmds) => r is Ok && final(acc)@ == old(acc)@ + cmds,
                Err(e) => r == Err::<(), LayoutError>(e),
            },
        decreases *layout_box,
    {
        match Self::render_background(layout_box, acc) {
            Ok(()) => {},
            Err(e) => { return Err(e) },
        }
        match Self::render_borders(layout_box, acc) {
            Ok(()) => {},
            Err(e) => { return Err(e) },
        }
        let ghost cviews = layout_box@.children;
        let ghost base = acc@;
        proof {
            lemma_boxes_view(layout_box.children@);
            assert(cviews.skip(0) =~= cviews);
            assert(acc@.subrange(0, base.len() as int) =~= base);
            assert(acc@.skip(base.len() as int) =~= Seq::<DisplayCommand>::empty());
            match spec_render_children(cviews) {
                Ok(rest) => {
                    assert(acc@.skip(base.len() as int) + rest =~= rest);
                },
                Err(_) => {},
            }
        }
        let mut i: usize = 0;
        while i < layout_box.children.len()
            invariant
                i <= cviews.len(),
                acc@.len() >= base.len(),
                acc@.subrange(0, base.len() as int) == base,
                match spec_render_children(cviews.skip(i as int)) {
                    Ok(rest) => spec_render_children(cviews) == Ok::<
                        Seq<DisplayCommand>,
                        LayoutError,
                    >(acc@.skip(base.len() as int) + rest),
                    Err(e) => spec_render_children(cviews) == Err::<
                        Seq<DisplayCommand>,
                        LayoutError,
                    >(e),
                },
            decreases cviews.len() - i,
        {
            proof {
                assert(cviews.skip(i as int)[0] == cviews[i as int]);
                assert(cviews.skip(i as int).drop_first() =~= cviews.skip(i + 1));
                assert((&layout_box.children[i as int])@ == cviews[i as int]);
            }
            let ghost acc_at = acc@;
            match Self::render_layout_box(&layout_box.children[i], acc) {
                Ok(()) => {},
                Err(e) => { return Err(e) },
            }
            proof {
                match spec_render_box(cviews[i as int]) {
                    Ok(cmds) => {
                        assert(acc@.subrange(0, base.len() as int) =~= base);
                        match spec_render_children(cviews.skip(i + 1)) {
                            Ok(rest) => {
                                assert(acc@.skip(base.len() as int) =~= acc_at.skip(
                                    base.len() as int,
                                ) + cmds);
                                assert(acc@.skip(base.len() as int) + rest =~= acc_at.skip(
                                    base.len() as int,
                                ) + (cmds + rest));
                            },
                            Err(_) => {},
                        }
                    },
                    Err(_) => {},
                }
            }
            i = i + 1;
        }
        proof {
            assert(cviews.skip(i as int).len() == 0);
            assert(cviews.skip(i as int) =~= Seq::<LayoutBoxView>::empty());
            match spec_render_box(layout_box@) {
                Ok(cmds) => {
                    assert(acc@.skip(base.len() as int) + Seq::<DisplayCommand>::empty()
                        =~= acc@.skip(base.len() as int));
                    let cc = spec_render_children(cviews)->Ok_0;
                    assert(acc@ =~= acc@.subrange(0, base.len() as int) + acc@.skip(
                        base.len() as int,
                    ));
                    assert(base + cc =~= old(acc)@ + cmds);
                    assert(acc@ =~= old(acc)@ + cmds);
                },
                Err(_) => {},
            }
        }
        Ok(())
    }

    /// Renders the tree into the console's command list and returns a
    /// copy of the whole accumulated list.  A fatal condition leaves
    /// the console unchanged and surfaces no partial list.
    pub fn build_display_commands(&mut self, root: &LayoutBox) -> (r: Result<
        DisplayCommandList,
        LayoutError,
    >)
        ensures
            match spec_render_box(root@) {
                Ok(cmds) => final(self)@ == old(self)@ + cmds && (r matches Ok(list) && list@
                    == final(self)@),
                Err(e) => r == Err::<DisplayCommandList, LayoutError>(e) && *final(self) == *old(
                    self,
                ),
            },
    {
        let mut acc: Vec<DisplayCommand> = Vec::new();
        match Self::render_layout_box(root, &mut acc) {
            Ok(()) => {},
            Err(e) => { return Err(e) },
        }
        let ghost before = self.commands@;
        let mut i: usize = 0;
        proof {
            assert(acc@.take(0) =~= Seq::<DisplayCommand>::empty());
            assert(before + acc@.take(0) =~= before);
        }
        while i < acc.len()
            invariant
                i <= acc@.len(),
                self.commands@ == before + acc@.take(i as int),
                acc@ == spec_render_box(root@)->Ok_0,
            decreases acc@.len() - i,
        {
            self.commands.push(acc[i]);
            proof {
                assert(acc@.take(i + 1).drop_last() =~= acc@.take(i as int));
                assert(self.commands@ =~= before + acc@.take(i + 1));
            }
            i = i + 1;
        }
        proof {
            assert(acc@.take(i as int) =~= acc@);
        }
        let mut out: Vec<DisplayCommand> = Vec::new();
        let mut j: usize = 0;
        proof {
            assert(out@ =~= self.commands@.take(0));
        }
        while j < self.commands.len()
            invariant
                j <= self.commands@.len(),
                out@ == self.commands@.take(j as int),
                self.commands@ == before + acc@,
            decreases self.commands@.len() - j,
        {
            out.push(self.commands[j]);
            proof {
                assert(out@ =~= self.commands@.take(j + 1));
            }
            j = j + 1;
        }
        proof {
            assert(self.commands@.take(j as int) =~= self.commands@);
        }
        Ok(out)
    }
}

} // verus!
