//! Stylesheet parser: turns CSS text into the ordered rule list of the
//! data model.  Selectors may name a tag, an id and classes; property
//! values are classified into colors, lengths and uninterpreted
//! keywords.  Malformed pieces are recovered with documented defaults,
//! never an error.

use vstd::prelude::*;

use crate::css::{Color, Declaration, DeclarationView, Rule, RuleView, Selector, SelectorView,
    SimpleSelector, SimpleSelectorView, StyleSheet, Unit, Value, ValueView};
use crate::text::{char_is_numeric, char_is_whitespace, chars_eq_str, chars_of, lower_of,
    lowercase, string_from_chars, unicode_numeric, unicode_whitespace};

verus! {

/// The character classes the parser scans over.
#[derive(Clone, Copy, PartialEq, Eq, Structural, Debug)]
pub enum CharCond {
    /// Unicode white space.
    Whitespace,
    /// Anything but a comma or an opening brace.
    NotCommaNorOpenBrace,
    /// A character that may continue an identifier.
    ValidIdent,
    /// Anything but a colon.
    NotColon,
    /// Anything but a semicolon, a line feed or a closing brace.
    NotDeclarationEnd,
    /// A Unicode numeric character.
    Numeric,
}

/// An ASCII letter.
pub open spec fn spec_is_letter(c: char) -> bool {
    (65 <= c as u32 && c as u32 <= 90) || (97 <= c as u32 && c as u32 <= 122)
}

/// A character outside the ASCII range.
pub open spec fn spec_is_non_ascii(c: char) -> bool {
    c as u32 >= 128
}

/// A character that may start an identifier.
pub open spec fn spec_is_valid_start_ident(c: char) -> bool {
    spec_is_letter(c) || spec_is_non_ascii(c) || c == '_'
}

/// A character that may continue an identifier.
pub open spec fn spec_is_valid_ident(c: char) -> bool {
    spec_is_valid_start_ident(c) || (48 <= c as u32 && c as u32 <= 57) || c == '-'
}

pub open spec fn spec_cond(cond: CharCond, c: char) -> bool {
    match cond {
        CharCond::Whitespace => unicode_whitespace(c),
        CharCond::NotCommaNorOpenBrace => c != ',' && c != '{',
        CharCond::ValidIdent => spec_is_valid_ident(c),
        CharCond::NotColon => c != ':',
        CharCond::NotDeclarationEnd => c != ';' && c != '\n' && c != '}',
        CharCond::Numeric => unicode_numeric(c),
    }
}

/// Where scanning from `i` while the class holds stops.
pub open spec fn spec_consume_while(s: Seq<char>, i: int, cond: CharCond) -> int
    decreases s.len() - i,
{
    if 0 <= i && i < s.len() && spec_cond(cond, s[i]) {
        spec_consume_while(s, i + 1, cond)
    } else {
        i
    }
}

pub proof fn lemma_consume_while(s: Seq<char>, i: int, cond: CharCond)
    requires
        0 <= i <= s.len(),
    ensures
        i <= spec_consume_while(s, i, cond) <= s.len(),
        forall|j: int| i <= j < spec_consume_while(s, i, cond) ==> spec_cond(cond, s[j]),
        spec_consume_while(s, i, cond) < s.len() ==> !spec_cond(
            cond,
            s[spec_consume_while(s, i, cond)],
        ),
    decreases s.len() - i,
{
    if i < s.len() && spec_cond(cond, s[i]) {
        lemma_consume_while(s, i + 1, cond);
    }
}

/// The lowercased identifier starting at `i`, and where it ends: empty
/// unless an identifier-start character stands at `i`.
pub open spec fn spec_parse_identifier(s: Seq<char>, i: int) -> (Seq<char>, int) {
    if 0 <= i && i < s.len() && spec_is_valid_start_ident(s[i]) {
        let j = spec_consume_while(s, i, CharCond::ValidIdent);
        (lower_of(s.subrange(i, j)), j)
    } else {
        (Seq::empty(), i)
    }
}

pub proof fn lemma_parse_identifier(s: Seq<char>, i: int)
    requires
        0 <= i <= s.len(),
    ensures
        i <= spec_parse_identifier(s, i).1 <= s.len(),
        i < s.len() && spec_is_valid_start_ident(s[i]) ==> spec_parse_identifier(s, i).1 >= i + 1,
{
    lemma_consume_while(s, i, CharCond::ValidIdent);
    if i < s.len() && spec_is_valid_start_ident(s[i]) {
        if spec_consume_while(s, i, CharCond::ValidIdent) == i {
        }
    }
}

/// The identifier at `i` as an id: nothing when it is empty.
pub open spec fn spec_parse_id(s: Seq<char>, i: int) -> (Option<Seq<char>>, int) {
    let t = spec_parse_identifier(s, i);
    if t.0.len() == 0 {
        (None, t.1)
    } else {
        (Some(t.0), t.1)
    }
}

/// Whether every character is an ASCII decimal digit.
pub open spec fn all_decimal_digits(ds: Seq<char>) -> bool {
    forall|j: int| 0 <= j < ds.len() ==> 48 <= (#[trigger] ds[j]) as u32 <= 57
}

/// The number that a digit string denotes.
pub open spec fn digits_val(ds: Seq<char>) -> int
    decreases ds.len(),
{
    if ds.len() == 0 {
        0
    } else {
        digits_val(ds.drop_last()) * 10 + (ds.last() as u32 - 48)
    }
}

/// The pixel count read from a length's numeric part: the denoted
/// number when the part is a nonempty string of decimal digits whose
/// value is storable, and zero otherwise.
pub open spec fn spec_parse_decimal(ds: Seq<char>) -> i64 {
    if ds.len() > 0 && all_decimal_digits(ds) && digits_val(ds) <= i64::MAX {
        digits_val(ds) as i64
    } else {
        0
    }
}

/// Digit-string prefixes denote no more than the whole string.
proof fn lemma_digits_prefix(ds: Seq<char>, j: int)
    requires
        all_decimal_digits(ds),
        0 <= j <= ds.len(),
    ensures
        0 <= digits_val(ds.take(j)),
        digits_val(ds.take(j)) <= digits_val(ds),
    decreases ds.len() - j,
{
    if j == ds.len() {
        assert(ds.take(j) =~= ds);
        lemma_digits_nonneg(ds);
    } else {
        assert(ds.take(j + 1).drop_last() =~= ds.take(j));
        lemma_digits_prefix(ds, j + 1);
        lemma_digits_nonneg(ds.take(j));
    }
}

proof fn lemma_digits_nonneg(ds: Seq<char>)
    requires
        all_decimal_digits(ds),
    ensures
        digits_val(ds) >= 0,
    decreases ds.len(),
{
    if ds.len() > 0 {
        assert(forall|j: int| 0 <= j < ds.drop_last().len() ==> ds.drop_last()[j] == ds[j]);
        lemma_digits_nonneg(ds.drop_last());
    }
}

/// The unit named by a suffix; unknown or missing suffixes fall back
/// to pixels.
pub open spec fn spec_unit_of(u: Seq<char>) -> Unit {
    if u == "em"@ {
        Unit::Em
    } else if u == "ex"@ {
        Unit::Ex
    } else if u == "ch"@ {
        Unit::Ch
    } else if u == "rem"@ {
        Unit::Rem
    } else if u == "vh"@ {
        Unit::Vh
    } else if u == "vw"@ {
        Unit::Vw
    } else if u == "vmin"@ {
        Unit::Vmin
    } else if u == "vmax"@ {
        Unit::Vmax
    } else if u == "px"@ || u.len() == 0 {
        Unit::Px
    } else if u == "mm"@ {
        Unit::Mm
    } else if u == "q"@ {
        Unit::Q
    } else if u == "cm"@ {
        Unit::Cm
    } else if u == "in"@ {
        Unit::In
    } else if u == "pt"@ {
        Unit::Pt
    } else if u == "pc"@ {
        Unit::Pc
    } else if u == "%"@ {
        Unit::Pct
    } else {
        Unit::Px
    }
}

/// A length value: its numeric prefix as pixels, its remainder as the
/// unit suffix.
pub open spec fn spec_translate_length(v: Seq<char>) -> ValueView {
    let n = spec_consume_while(v, 0, CharCond::Numeric);
    ValueView::Length(
        spec_parse_decimal(v.subrange(0, n)),
        spec_unit_of(v.subrange(n, v.len() as int)),
    )
}

/// The value of a hexadecimal digit, or a negative number when the
/// character is no such digit.
pub open spec fn spec_hex_val(c: char) -> int {
    let u = c as u32;
    if 48 <= u && u <= 57 {
        u - 48
    } else if 97 <= u && u <= 102 {
        u - 87
    } else if 65 <= u && u <= 70 {
        u - 55
    } else {
        -1
    }
}

/// A color channel from two hex digits; an invalid digit yields zero.
pub open spec fn spec_hex_pair(a: char, b: char) -> u8 {
    if spec_hex_val(a) >= 0 && spec_hex_val(b) >= 0 {
        (16 * spec_hex_val(a) + spec_hex_val(b)) as u8
    } else {
        0
    }
}

/// A color channel from one hex digit of a short form; an invalid
/// digit yields zero.
pub open spec fn spec_hex_single(c: char) -> u8 {
    if spec_hex_val(c) >= 0 {
        (17 * spec_hex_val(c)) as u8
    } else {
        0
    }
}

/// The color a value string denotes: a `#rrggbb` or `#rgb` form digit
/// by digit, a recognized keyword, and white for everything else
/// (including the unsupported `rgb(...)`/`hsl(...)` forms).
pub open spec fn spec_translate_color(v: Seq<char>) -> Color {
    if v.len() > 0 && v[0] == '#' {
        if v.len() == 7 {
            Color {
                r: spec_hex_pair(v[1], v[2]),
                g: spec_hex_pair(v[3], v[4]),
                b: spec_hex_pair(v[5], v[6]),
                a: 255,
            }
        } else if v.len() == 4 {
            Color { r: spec_hex_single(v[1]), g: spec_hex_single(v[2]), b: spec_hex_single(v[3]), a: 255 }
        } else {
            Color { r: 255, g: 255, b: 255, a: 255 }
        }
    } else if v.len() >= 3 && ((v[0] == 'r' && v[1] == 'g' && v[2] == 'b') || (v[0] == 'h' && v[1]
        == 's' && v[2] == 'l')) {
        Color { r: 255, g: 255, b: 255, a: 255 }
    } else if v == "black"@ {
        Color { r: 0, g: 0, b: 0, a: 255 }
    } else if v == "white"@ {
        Color { r: 255, g: 255, b: 255, a: 255 }
    } else if v == "blue"@ {
        Color { r: 0, g: 0, b: 255, a: 255 }
    } else if v == "orange"@ {
        Color { r: 255, g: 165, b: 0, a: 255 }
    } else if v == "red"@ {
        Color { r: 255, g: 0, b: 0, a: 255 }
    } else if v == "green"@ {
        Color { r: 0, g: 255, b: 0, a: 255 }
    } else if v == "bronze"@ {
        Color { r: 194, g: 107, b: 19, a: 255 }
    } else if v == "orangered"@ {
        Color { r: 255, g: 69, b: 0, a: 255 }
    } else {
        Color { r: 255, g: 255, b: 255, a: 255 }
    }
}

/// How a declaration's value string is classified, by property name:
/// the color properties parse as colors, the box-model properties as
/// lengths, and everything else stays an uninterpreted keyword.
pub open spec fn spec_translate_value(prop: Seq<char>, v: Seq<char>) -> ValueView {
    if prop == "background-color"@ || prop == "border-color"@ || prop == "color"@ {
        ValueView::Color(spec_translate_color(v))
    } else if prop == "margin-right"@ || prop == "margin-bottom"@ || prop == "margin-left"@ || prop
        == "margin-top"@ || prop == "padding-right"@ || prop == "padding-bottom"@ || prop
        == "padding-left"@ || prop == "padding-top"@ || prop == "border-right-width"@ || prop
        == "border-bottom-width"@ || prop == "border-left-width"@ || prop == "border-top-width"@
        || prop == "height"@ || prop == "width"@ {
        spec_translate_length(v)
    } else {
        ValueView::Other(v)
    }
}

/// One pass of the selector scanner: `#` starts an id (a repeated id
/// clears it for good), `.` starts a class name, and anything else up
/// to a comma or an opening brace is skipped.  Scanning stops at a
/// comma, an opening brace, white space or the end of input.
pub open spec fn spec_selector_loop(
    s: Seq<char>,
    i: int,
    sel: SimpleSelectorView,
    multi: bool,
) -> (SimpleSelectorView, int)
    decreases s.len() - i,
    via spec_selector_loop_dec
{
    if 0 <= i && i < s.len() && s[i] != ',' && s[i] != '{' && !unicode_whitespace(s[i]) {
        if s[i] == '#' {
            let t = spec_parse_id(s, i + 1);
            if sel.id is Some || multi {
                spec_selector_loop(
                    s,
                    t.1,
                    SimpleSelectorView { tag_name: sel.tag_name, id: None, classes: sel.classes },
                    true,
                )
            } else {
                spec_selector_loop(
                    s,
                    t.1,
                    SimpleSelectorView { tag_name: sel.tag_name, id: t.0, classes: sel.classes },
                    multi,
                )
            }
        } else if s[i] == '.' {
            let t = spec_parse_identifier(s, i + 1);
            if t.0.len() > 0 {
                spec_selector_loop(
                    s,
                    t.1,
                    SimpleSelectorView {
                        tag_name: sel.tag_name,
                        id: sel.id,
                        classes: sel.classes.push(t.0),
                    },
                    multi,
                )
            } else {
                spec_selector_loop(s, t.1, sel, multi)
            }
        } else {
            spec_selector_loop(
                s,
                spec_consume_while(s, i, CharCond::NotCommaNorOpenBrace),
                sel,
                multi,
            )
        }
    } else {
        (sel, i)
    }
}

#[via_fn]
proof fn spec_selector_loop_dec(s: Seq<char>, i: int, sel: SimpleSelectorView, multi: bool) {
    if 0 <= i && i < s.len() && s[i] != ',' && s[i] != '{' && !unicode_whitespace(s[i]) {
        if s[i] == '#' || s[i] == '.' {
            lemma_parse_identifier(s, i + 1);
        } else {
            lemma_consume_while(s, i, CharCond::NotCommaNorOpenBrace);
        }
    }
}

pub proof fn lemma_selector_loop_pos(s: Seq<char>, i: int, sel: SimpleSelectorView, multi: bool)
    requires
        0 <= i <= s.len(),
    ensures
        i <= spec_selector_loop(s, i, sel, multi).1 <= s.len(),
        spec_selector_loop(s, i, sel, multi).1 == i ==> (i == s.len() || s[i] == ',' || s[i] == '{'
            || unicode_whitespace(s[i])),
    decreases s.len() - i,
{
    if 0 <= i && i < s.len() && s[i] != ',' && s[i] != '{' && !unicode_whitespace(s[i]) {
        if s[i] == '#' {
            lemma_parse_identifier(s, i + 1);
            let t = spec_parse_id(s, i + 1);
            if sel.id is Some || multi {
                lemma_selector_loop_pos(
                    s,
                    t.1,
                    SimpleSelectorView { tag_name: sel.tag_name, id: None, classes: sel.classes },
                    true,
                );
            } else {
                lemma_selector_loop_pos(
                    s,
                    t.1,
                    SimpleSelectorView { tag_name: sel.tag_name, id: t.0, classes: sel.classes },
                    multi,
                );
            }
        } else if s[i] == '.' {
            lemma_parse_identifier(s, i + 1);
            let t = spec_parse_identifier(s, i + 1);
            if t.0.len() > 0 {
                lemma_selector_loop_pos(
                    s,
                    t.1,
                    SimpleSelectorView {
                        tag_name: sel.tag_name,
                        id: sel.id,
                        classes: sel.classes.push(t.0),
                    },
                    multi,
                );
            } else {
                lemma_selector_loop_pos(s, t.1, sel, multi);
            }
        } else {
            lemma_consume_while(s, i, CharCond::NotCommaNorOpenBrace);
            lemma_selector_loop_pos(
                s,
                spec_consume_while(s, i, CharCond::NotCommaNorOpenBrace),
                sel,
                multi,
            );
        }
    }
}

/// One selector: optional leading white space, an optional tag name,
/// then the id/class scanner; an entirely unconstrained selector is
/// dropped.
pub open spec fn spec_parse_selector(s: Seq<char>, i: int) -> (SelectorView, int) {
    let i1 = spec_consume_while(s, i, CharCond::Whitespace);
    let tag: (Option<Seq<char>>, int) = if 0 <= i1 && i1 < s.len() && spec_is_valid_start_ident(
        s[i1],
    ) {
        let t = spec_parse_identifier(s, i1);
        (Some(t.0), t.1)
    } else {
        (None, i1)
    };
    let lp = spec_selector_loop(
        s,
        tag.1,
        SimpleSelectorView { tag_name: tag.0, id: None, classes: Seq::empty() },
        false,
    );
    let sel = lp.0;
    let nonempty = sel.tag_name is Some || sel.id is Some || sel.classes.len() > 0;
    (
        SelectorView {
            simple: if nonempty {
                seq![sel]
            } else {
                Seq::empty()
            },
            combinations: Seq::empty(),
        },
        lp.1,
    )
}

pub proof fn lemma_parse_selector_pos(s: Seq<char>, i: int)
    requires
        0 <= i <= s.len(),
    ensures
        i <= spec_parse_selector(s, i).1 <= s.len(),
        spec_parse_selector(s, i).1 == i ==> (i == s.len() || s[i] == ',' || s[i] == '{'),
{
    lemma_consume_while(s, i, CharCond::Whitespace);
    let i1 = spec_consume_while(s, i, CharCond::Whitespace);
    if 0 <= i1 && i1 < s.len() && spec_is_valid_start_ident(s[i1]) {
        lemma_parse_identifier(s, i1);
        let t = spec_parse_identifier(s, i1);
        lemma_selector_loop_pos(
            s,
            t.1,
            SimpleSelectorView { tag_name: Some(t.0), id: None, classes: Seq::empty() },
            false,
        );
    } else {
        lemma_selector_loop_pos(
            s,
            i1,
            SimpleSelectorView { tag_name: None, id: None, classes: Seq::empty() },
            false,
        );
    }
}

/// The selector list before an opening brace: selectors separated by
/// commas (and, in effect, by white space); the brace itself is
/// consumed.
pub open spec fn spec_parse_selectors(s: Seq<char>, i: int) -> (Seq<SelectorView>, int)
    decreases s.len() - i,
    via spec_parse_selectors_dec
{
    if 0 <= i && i < s.len() && s[i] != '{' {
        let t = spec_parse_selector(s, i);
        let sels: Seq<SelectorView> = if t.0.simple.len() > 0 {
            seq![t.0]
        } else {
            Seq::empty()
        };
        let k = spec_consume_while(s, t.1, CharCond::Whitespace);
        let k2: int = if k < s.len() && s[k] == ',' {
            k + 1
        } else {
            k
        };
        let rest = spec_parse_selectors(s, k2);
        (sels + rest.0, rest.1)
    } else {
        (
            Seq::empty(),
            if 0 <= i && i < s.len() {
                i + 1
            } else {
                i
            },
        )
    }
}

#[via_fn]
proof fn spec_parse_selectors_dec(s: Seq<char>, i: int) {
    if 0 <= i && i < s.len() && s[i] != '{' {
        lemma_parse_selector_pos(s, i);
        let t = spec_parse_selector(s, i);
        lemma_consume_while(s, t.1, CharCond::Whitespace);
    }
}

pub proof fn lemma_parse_selectors_pos(s: Seq<char>, i: int)
    requires
        0 <= i <= s.len(),
    ensures
        i <= spec_parse_selectors(s, i).1 <= s.len(),
        i < s.len() ==> spec_parse_selectors(s, i).1 > i,
    decreases s.len() - i,
{
    if 0 <= i && i < s.len() && s[i] != '{' {
        lemma_parse_selector_pos(s, i);
        let t = spec_parse_selector(s, i);
        lemma_consume_while(s, t.1, CharCond::Whitespace);
        let k = spec_consume_while(s, t.1, CharCond::Whitespace);
        let k2: int = if k < s.len() && s[k] == ',' {
            k + 1
        } else {
            k
        };
        lemma_parse_selectors_pos(s, k2);
    }
}

/// The declaration list up to a closing brace: each declaration is a
/// lower-cased property, a colon, a lower-cased value; a declaration
/// counts only when a semicolon ends it or the block closes right
/// after it.  The closing brace is consumed.
pub open spec fn spec_parse_declarations(s: Seq<char>, i: int) -> (Seq<DeclarationView>, int)
    decreases s.len() - i,
    via spec_parse_declarations_dec
{
    if 0 <= i && i < s.len() && s[i] != '}' {
        let i1 = spec_consume_while(s, i, CharCond::Whitespace);
        let i2 = spec_consume_while(s, i1, CharCond::NotColon);
        let prop = lower_of(s.subrange(i1, i2));
        let i3: int = if i2 < s.len() {
            i2 + 1
        } else {
            i2
        };
        let i4 = spec_consume_while(s, i3, CharCond::Whitespace);
        let i5 = spec_consume_while(s, i4, CharCond::NotDeclarationEnd);
        let v = lower_of(s.subrange(i4, i5));
        let decl = DeclarationView { property: prop, value: spec_translate_value(prop, v) };
        if i5 < s.len() && s[i5] == ';' {
            let i7 = spec_consume_while(s, i5 + 1, CharCond::Whitespace);
            let rest = spec_parse_declarations(s, i7);
            (seq![decl] + rest.0, rest.1)
        } else {
            let i6 = spec_consume_while(s, i5, CharCond::Whitespace);
            let keep = i6 < s.len() && s[i6] == '}';
            let i7 = spec_consume_while(s, i6, CharCond::Whitespace);
            let rest = spec_parse_declarations(s, i7);
            (
                (if keep {
                    seq![decl]
                } else {
                    Seq::empty()
                }) + rest.0,
                rest.1,
            )
        }
    } else {
        (
            Seq::empty(),
            if 0 <= i && i < s.len() {
                i + 1
            } else {
                i
            },
        )
    }
}

#[via_fn]
proof fn spec_parse_declarations_dec(s: Seq<char>, i: int) {
    if 0 <= i && i < s.len() && s[i] != '}' {
        lemma_consume_while(s, i, CharCond::Whitespace);
        let i1 = spec_consume_while(s, i, CharCond::Whitespace);
        lemma_consume_while(s, i1, CharCond::NotColon);
        let i2 = spec_consume_while(s, i1, CharCond::NotColon);
        let i3: int = if i2 < s.len() {
            i2 + 1
        } else {
            i2
        };
        lemma_consume_while(s, i3, CharCond::Whitespace);
        let i4 = spec_consume_while(s, i3, CharCond::Whitespace);
        lemma_consume_while(s, i4, CharCond::NotDeclarationEnd);
        let i5 = spec_consume_while(s, i4, CharCond::NotDeclarationEnd);
        if i5 < s.len() && s[i5] == ';' {
            lemma_consume_while(s, i5 + 1, CharCond::Whitespace);
        } else {
            lemma_consume_while(s, i5, CharCond::Whitespace);
            let i6 = spec_consume_while(s, i5, CharCond::Whitespace);
            lemma_consume_while(s, i6, CharCond::Whitespace);
        }
    }
}

pub proof fn lemma_parse_declarations_pos(s: Seq<char>, i: int)
    requires
        0 <= i <= s.len(),
    ensures
        i <= spec_parse_declarations(s, i).1 <= s.len(),
    decreases s.len() - i,
{
    if 0 <= i && i < s.len() && s[i] != '}' {
        lemma_consume_while(s, i, CharCond::Whitespace);
        let i1 = spec_consume_while(s, i, CharCond::Whitespace);
        lemma_consume_while(s, i1, CharCond::NotColon);
        let i2 = spec_consume_while(s, i1, CharCond::NotColon);
        let i3: int = if i2 < s.len() {
            i2 + 1
        } else {
            i2
        };
        lemma_consume_while(s, i3, CharCond::Whitespace);
        let i4 = spec_consume_while(s, i3, CharCond::Whitespace);
        lemma_consume_while(s, i4, CharCond::NotDeclarationEnd);
        let i5 = spec_consume_while(s, i4, CharCond::NotDeclarationEnd);
        if i5 < s.len() && s[i5] == ';' {
            lemma_consume_while(s, i5 + 1, CharCond::Whitespace);
            let i7 = spec_consume_while(s, i5 + 1, CharCond::Whitespace);
            lemma_parse_declarations_pos(s, i7);
        } else {
            lemma_consume_while(s, i5, CharCond::Whitespace);
            let i6 = spec_consume_while(s, i5, CharCond::Whitespace);
            lemma_consume_while(s, i6, CharCond::Whitespace);
            let i7 = spec_consume_while(s, i6, CharCond::Whitespace);
            lemma_parse_declarations_pos(s, i7);
        }
    }
}

/// A stylesheet: rules until the input runs out, each a selector list
/// and a declaration block.
pub open spec fn spec_parse_stylesheet(s: Seq<char>, i: int) -> Seq<RuleView>
    decreases s.len() - i,
    via spec_parse_stylesheet_dec
{
    if 0 <= i && i < s.len() {
        let t = spec_parse_selectors(s, i);
        let d = spec_parse_declarations(s, t.1);
        seq![RuleView { selectors: t.0, declarations: d.0 }] + spec_parse_stylesheet(s, d.1)
    } else {
        Seq::empty()
    }
}

#[via_fn]
proof fn spec_parse_stylesheet_dec(s: Seq<char>, i: int) {
    if 0 <= i && i < s.len() {
        lemma_parse_selectors_pos(s, i);
        let t = spec_parse_selectors(s, i);
        lemma_parse_declarations_pos(s, t.1);
    }
}

/// A stream of characters with a scan position.
pub struct CssParser {
    chars: Vec<char>,
    pos: usize,
}

impl CssParser {
    /// The text being parsed.
    pub closed spec fn input(&self) -> Seq<char> {
        self.chars@
    }

    /// How far the parser has read.
    pub closed spec fn position(&self) -> int {
        self.pos as int
    }

    /// The position never passes the end of the input.
    pub closed spec fn wf(&self) -> bool {
        self.pos <= self.chars@.len()
    }

    pub fn new(full_css: &str) -> (p: CssParser)
        ensures
            p.wf(),
            p.input() == full_css@,
            p.position() == 0,
    {
        CssParser { chars: chars_of(full_css), pos: 0 }
    }

    /// Whether the character falls in the class.
    fn cond_holds(cond: CharCond, c: char) -> (r: bool)
        ensures
            r == spec_cond(cond, c),
    {
        match cond {
            CharCond::Whitespace => char_is_whitespace(c),
            CharCond::NotCommaNorOpenBrace => c != ',' && c != '{',
            CharCond::ValidIdent => Self::is_valid_ident(c),
            CharCond::NotColon => c != ':',
            CharCond::NotDeclarationEnd => c != ';' && c != '\n' && c != '}',
            CharCond::Numeric => char_is_numeric(c),
        }
    }

    pub fn is_letter(c: char) -> (r: bool)
        ensures
            r == spec_is_letter(c),
    {
        let u = c as u32;
        (65 <= u && u <= 90) || (97 <= u && u <= 122)
    }

    pub fn is_non_ascii(c: char) -> (r: bool)
        ensures
            r == spec_is_non_ascii(c),
    {
        c as u32 >= 128
    }

    pub fn is_valid_start_ident(c: char) -> (r: bool)
        ensures
            r == spec_is_valid_start_ident(c),
    {
        Self::is_letter(c) || Self::is_non_ascii(c) || c == '_'
    }

    pub fn is_valid_ident(c: char) -> (r: bool)
        ensures
            r == spec_is_valid_ident(c),
    {
        let u = c as u32;
        Self::is_valid_start_ident(c) || (48 <= u && u <= 57) || c == '-'
    }

    /// Consumes characters of the class and returns them.
    pub fn consume_while(&mut self, condition: CharCond) -> (res: String)
        requires
            old(self).wf(),
        ensures
            final(self).wf(),
            final(self).input() == old(self).input(),
            final(self).position() == spec_consume_while(
                old(self).input(),
                old(self).position(),
                condition,
            ),
            res@ == old(self).input().subrange(old(self).position(), final(self).position()),
    {
        let ghost s = self.input();
        let ghost p0 = self.position();
        let mut out: Vec<char> = Vec::new();
        loop
            invariant
                self.wf(),
                self.input() == s,
                0 <= p0 <= self.position() <= s.len(),
                out@ == s.subrange(p0, self.position()),
                spec_consume_while(s, p0, condition) == spec_consume_while(
                    s,
                    self.position(),
                    condition,
                ),
            ensures
                self.wf(),
                self.input() == s,
                self.position() == spec_consume_while(s, p0, condition),
                out@ == s.subrange(p0, self.position()),
            decreases s.len() - self.position(),
        {
            if self.pos >= self.chars.len() {
                break;
            }
            let c = self.chars[self.pos];
            if !Self::cond_holds(condition, c) {
                break;
            }
            out.push(c);
            self.pos = self.pos + 1;
            proof {
                assert(out@ =~= s.subrange(p0, self.position()));
            }
        }
        string_from_chars(&out)
    }

    /// Parses an identifier and lowercases it; empty when the current
    /// character cannot start one.
    pub fn parse_identifier(&mut self) -> (res: String)
        requires
            old(self).wf(),
        ensures
            final(self).wf(),
            final(self).input() == old(self).input(),
            final(self).position() == spec_parse_identifier(
                old(self).input(),
                old(self).position(),
            ).1,
            res@ == spec_parse_identifier(old(self).input(), old(self).position()).0,
    {
        if self.pos < self.chars.len() && Self::is_valid_start_ident(self.chars[self.pos]) {
            let raw = self.consume_while(CharCond::ValidIdent);
            lowercase(raw.as_str())
        } else {
            let r = String::new();
            proof {
                assert(r@ =~= Seq::<char>::empty());
            }
            r
        }
    }

    /// The number denoted by a digit vector, zero for anything that is
    /// not a storable string of decimal digits.
    fn parse_decimal(ds: &Vec<char>) -> (r: i64)
        ensures
            r == spec_parse_decimal(ds@),
    {
        let mut acc: i128 = 0;
        let mut i: usize = 0;
        proof {
            assert(ds@.take(0) =~= Seq::<char>::empty());
        }
        while i < ds.len()
            invariant
                i <= ds@.len(),
                all_decimal_digits(ds@.take(i as int)),
                acc == digits_val(ds@.take(i as int)),
                0 <= acc <= i64::MAX,
            decreases ds@.len() - i,
        {
            let u = ds[i] as u32;
            if !(48 <= u && u <= 57) {
                assert(!all_decimal_digits(ds@));
                return 0;
            }
            proof {
                assert(ds@.take(i + 1).drop_last() =~= ds@.take(i as int));
                assert(ds@.take(i + 1).last() == ds@[i as int]);
            }
            acc = acc * 10 + (u - 48) as i128;
            i = i + 1;
            if acc > i64::MAX as i128 {
                proof {
                    if all_decimal_digits(ds@) {
                        lemma_digits_prefix(ds@, i as int);
                    }
                }
                return 0;
            }
        }
        proof {
            assert(ds@.take(i as int) =~= ds@);
        }
        if ds.len() == 0 {
            0
        } else {
            acc as i64
        }
    }

    /// The unit named by a suffix vector.
    fn unit_of(u: &Vec<char>) -> (r: Unit)
        ensures
            r == spec_unit_of(u@),
    {
        if chars_eq_str(u, "em") {
            Unit::Em
        } else if chars_eq_str(u, "ex") {
            Unit::Ex
        } else if chars_eq_str(u, "ch") {
            Unit::Ch
        } else if chars_eq_str(u, "rem") {
            Unit::Rem
        } else if chars_eq_str(u, "vh") {
            Unit::Vh
        } else if chars_eq_str(u, "vw") {
            Unit::Vw
        } else if chars_eq_str(u, "vmin") {
            Unit::Vmin
        } else if chars_eq_str(u, "vmax") {
            Unit::Vmax
        } else if chars_eq_str(u, "px") || u.len() == 0 {
            Unit::Px
        } else if chars_eq_str(u, "mm") {
            Unit::Mm
        } else if chars_eq_str(u, "q") {
            Unit::Q
        } else if chars_eq_str(u, "cm") {
            Unit::Cm
        } else if chars_eq_str(u, "in") {
            Unit::In
        } else if chars_eq_str(u, "pt") {
            Unit::Pt
        } else if chars_eq_str(u, "pc") {
            Unit::Pc
        } else if chars_eq_str(u, "%") {
            Unit::Pct
        } else {
            Unit::Px
        }
    }

    /// Splits a value string into its numeric prefix and unit suffix
    /// and builds the length value.
    pub fn translate_length(value: &str) -> (r: Value)
        ensures
            r@ == spec_translate_length(value@),
    {
        let cs = chars_of(value);
        let ghost s = value@;
        let mut num: Vec<char> = Vec::new();
        let mut i: usize = 0;
        proof {
            assert(num@ =~= s.subrange(0, 0));
        }
        loop
            invariant
                cs@ == s,
                0 <= i <= s.len(),
                num@ == s.subrange(0, i as int),
                spec_consume_while(s, 0, CharCond::Numeric) == spec_consume_while(
                    s,
                    i as int,
                    CharCond::Numeric,
                ),
            ensures
                cs@ == s,
                i as int == spec_consume_while(s, 0, CharCond::Numeric),
                num@ == s.subrange(0, i as int),
            decreases s.len() - i,
        {
            if i >= cs.len() {
                break;
            }
            let c = cs[i];
            if !char_is_numeric(c) {
                break;
            }
            num.push(c);
            i = i + 1;
            proof {
                assert(num@ =~= s.subrange(0, i as int));
            }
        }
        let mut unit: Vec<char> = Vec::new();
        let mut j: usize = i;
        proof {
            assert(unit@ =~= s.subrange(i as int, j as int));
        }
        while j < cs.len()
            invariant
                cs@ == s,
                i <= j <= s.len(),
                unit@ == s.subrange(i as int, j as int),
            decreases s.len() - j,
        {
            unit.push(cs[j]);
            j = j + 1;
            proof {
                assert(unit@ =~= s.subrange(i as int, j as int));
            }
        }
        proof {
            assert(unit@ =~= s.subrange(i as int, s.len() as int));
        }
        let number = Self::parse_decimal(&num);
        Value::Length(number, Self::unit_of(&unit))
    }

    /// The value of one hexadecimal digit, negative when invalid.
    fn hex_val(c: char) -> (r: i32)
        ensures
            r as int == spec_hex_val(c),
    {
        let u = c as u32;
        if 48 <= u && u <= 57 {
            (u - 48) as i32
        } else if 97 <= u && u <= 102 {
            (u - 87) as i32
        } else if 65 <= u && u <= 70 {
            (u - 55) as i32
        } else {
            -1
        }
    }

    /// A channel from two hex digits.
    fn hex_pair(a: char, b: char) -> (r: u8)
        ensures
            r == spec_hex_pair(a, b),
    {
        let va = Self::hex_val(a);
        let vb = Self::hex_val(b);
        if va >= 0 && vb >= 0 {
            (16 * va + vb) as u8
        } else {
            0
        }
    }

    /// A channel from one short-form hex digit.
    fn hex_single(c: char) -> (r: u8)
        ensures
            r == spec_hex_single(c),
    {
        let v = Self::hex_val(c);
        if v >= 0 {
            (17 * v) as u8
        } else {
            0
        }
    }

    /// Reads a color value: hex forms, keywords, white otherwise.
    pub fn translate_color(color: &str) -> (r: Color)
        ensures
            r == spec_translate_color(color@),
    {
        let cs = chars_of(color);
        if cs.len() > 0 && cs[0] == '#' {
            if cs.len() == 7 {
                Color {
                    r: Self::hex_pair(cs[1], cs[2]),
                    g: Self::hex_pair(cs[3], cs[4]),
                    b: Self::hex_pair(cs[5], cs[6]),
                    a: 255,
                }
            } else if cs.len() == 4 {
                Color {
                    r: Self::hex_single(cs[1]),
                    g: Self::hex_single(cs[2]),
                    b: Self::hex_single(cs[3]),
                    a: 255,
                }
            } else {
                Color { r: 255, g: 255, b: 255, a: 255 }
            }
        } else if cs.len() >= 3 && ((cs[0] == 'r' && cs[1] == 'g' && cs[2] == 'b') || (cs[0] == 'h'
            && cs[1] == 's' && cs[2] == 'l')) {
            Color { r: 255, g: 255, b: 255, a: 255 }
        } else if crate::text::str_eq(color, "black") {
            Color { r: 0, g: 0, b: 0, a: 255 }
        } else if crate::text::str_eq(color, "white") {
            Color { r: 255, g: 255, b: 255, a: 255 }
        } else if crate::text::str_eq(color, "blue") {
            Color { r: 0, g: 0, b: 255, a: 255 }
        } else if crate::text::str_eq(color, "orange") {
            Color { r: 255, g: 165, b: 0, a: 255 }
        } else if crate::text::str_eq(color, "red") {
            Color { r: 255, g: 0, b: 0, a: 255 }
        } else if crate::text::str_eq(color, "green") {
            Color { r: 0, g: 255, b: 0, a: 255 }
        } else if crate::text::str_eq(color, "bronze") {
            Color { r: 194, g: 107, b: 19, a: 255 }
        } else if crate::text::str_eq(color, "orangered") {
            Color { r: 255, g: 69, b: 0, a: 255 }
        } else {
            Color { r: 255, g: 255, b: 255, a: 255 }
        }
    }

    /// Classifies a declaration's value string by its property name.
    fn translate_value(property: &str, value: &str) -> (r: Value)
        ensures
            r@ == spec_translate_value(property@, value@),
    {
        if crate::text::str_eq(property, "background-color") || crate::text::str_eq(
            property,
            "border-color",
        ) || crate::text::str_eq(property, "color") {
            Value::Color(Self::translate_color(value))
        } else if crate::text::str_eq(property, "margin-right") || crate::text::str_eq(
            property,
            "margin-bottom",
        ) || crate::text::str_eq(property, "margin-left") || crate::text::str_eq(
            property,
            "margin-top",
        ) || crate::text::str_eq(property, "padding-right") || crate::text::str_eq(
            property,
            "padding-bottom",
        ) || crate::text::str_eq(property, "padding-left") || crate::text::str_eq(
            property,
            "padding-top",
        ) || crate::text::str_eq(property, "border-right-width") || crate::text::str_eq(
            property,
            "border-bottom-width",
        ) || crate::text::str_eq(property, "border-left-width") || crate::text::str_eq(
            property,
            "border-top-width",
        ) || crate::text::str_eq(property, "height") || crate::text::str_eq(property, "width") {
            Self::translate_length(value)
        } else {
            Value::Other(value.to_owned())
        }
    }

    /// Parses an identifier as an id: nothing when it is empty.
    pub fn parse_id(&mut self) -> (res: Option<String>)
        requires
            old(self).wf(),
        ensures
            final(self).wf(),
            final(self).input() == old(self).input(),
            final(self).position() == spec_parse_id(old(self).input(), old(self).position()).1,
            match res {
                Some(v) => spec_parse_id(old(self).input(), old(self).position()).0 == Some(v@),
                None => spec_parse_id(old(self).input(), old(self).position()).0 is None,
            },
    {
        let ident = self.parse_identifier();
        if ident.as_str().unicode_len() == 0 {
            None
        } else {
            Some(ident)
        }
    }

    /// Parses one selector: optional white space, an optional tag
    /// name, then `#id` and `.class` constraints up to a comma, an
    /// opening brace or white space.
    pub fn parse_selector(&mut self) -> (res: Selector)
        requires
            old(self).wf(),
        ensures
            final(self).wf(),
            final(self).input() == old(self).input(),
            final(self).position() == spec_parse_selector(
                old(self).input(),
                old(self).position(),
            ).1,
            res@ == spec_parse_selector(old(self).input(), old(self).position()).0,
    {
        let ghost s = self.input();
        let ghost p0 = self.position();
        let _leading = self.consume_while(CharCond::Whitespace);
        let tag_name: Option<String> = if self.pos < self.chars.len() && Self::is_valid_start_ident(
            self.chars[self.pos],
        ) {
            Some(self.parse_identifier())
        } else {
            None
        };
        let mut simple = SimpleSelector { tag_name, id: None, classes: Vec::new() };
        let mut multiple_ids: bool = false;
        proof {
            assert(simple@.classes =~= Seq::<Seq<char>>::empty());
        }
        let ghost goal = spec_selector_loop(s, self.position(), simple@, false);
        loop
            invariant
                self.wf(),
                self.input() == s,
                0 <= self.position() <= s.len(),
                spec_selector_loop(s, self.position(), simple@, multiple_ids) == goal,
            ensures
                self.wf(),
                self.input() == s,
                simple@ == goal.0,
                self.position() == goal.1,
            decreases s.len() - self.position(),
        {
            if self.pos >= self.chars.len() {
                break;
            }
            let c = self.chars[self.pos];
            if c == ',' || c == '{' {
                break;
            }
            if char_is_whitespace(c) {
                break;
            }
            let ghost pos_at = self.position();
            let ghost sel_at = simple@;
            let ghost multi_at = multiple_ids;
            if c == '#' {
                self.pos = self.pos + 1;
                proof {
                    lemma_parse_identifier(s, pos_at + 1);
                }
                if simple.id.is_some() || multiple_ids {
                    simple.id = None;
                    multiple_ids = true;
                    let _skipped = self.parse_id();
                } else {
                    simple.id = self.parse_id();
                }
                proof {
                    assert(spec_selector_loop(s, self.position(), simple@, multiple_ids)
                        == spec_selector_loop(s, pos_at, sel_at, multi_at));
                }
            } else if c == '.' {
                self.pos = self.pos + 1;
                proof {
                    lemma_parse_identifier(s, pos_at + 1);
                }
                let class_name = self.parse_identifier();
                if class_name.as_str().unicode_len() > 0 {
                    let ghost prev_classes = simple@.classes;
                    simple.classes.push(class_name);
                    proof {
                        assert(simple@.classes =~= prev_classes.push(
                            spec_parse_identifier(s, pos_at + 1).0,
                        ));
                    }
                }
                proof {
                    assert(spec_selector_loop(s, self.position(), simple@, multiple_ids)
                        == spec_selector_loop(s, pos_at, sel_at, multi_at));
                }
            } else {
                proof {
                    lemma_consume_while(s, pos_at, CharCond::NotCommaNorOpenBrace);
                }
                let _skipped = self.consume_while(CharCond::NotCommaNorOpenBrace);
                proof {
                    assert(spec_selector_loop(s, self.position(), simple@, multiple_ids)
                        == spec_selector_loop(s, pos_at, sel_at, multi_at));
                }
            }
        }
        let nonempty = simple.tag_name.is_some() || simple.id.is_some() || simple.classes.len()
            > 0;
        let mut selector = Selector { simple: Vec::new(), combinations: Vec::new() };
        proof {
            assert(selector@.simple =~= Seq::<SimpleSelectorView>::empty());
            assert(selector@.combinations =~= Seq::<char>::empty());
        }
        if nonempty {
            let ghost prev = selector@.simple;
            selector.simple.push(simple);
            proof {
                assert(selector@.simple =~= prev.push(goal.0));
            }
        }
        proof {
            assert(selector@ =~= spec_parse_selector(s, p0).0);
        }
        selector
    }

    /// Parses the selector list before a rule's opening brace, and
    /// consumes the brace.
    pub fn parse_selectors(&mut self) -> (res: Vec<Selector>)
        requires
            old(self).wf(),
        ensures
            final(self).wf(),
            final(self).input() == old(self).input(),
            final(self).position() == spec_parse_selectors(
                old(self).input(),
                old(self).position(),
            ).1,
            res.deep_view() == spec_parse_selectors(old(self).input(), old(self).position()).0,
    {
        let ghost s = self.input();
        let ghost p0 = self.position();
        let ghost goal = spec_parse_selectors(s, p0);
        let mut selectors: Vec<Selector> = Vec::new();
        proof {
            assert(selectors.deep_view() =~= Seq::<SelectorView>::empty());
            assert(goal.0 =~= selectors.deep_view() + goal.0);
        }
        loop
            invariant
                self.wf(),
                self.input() == s,
                0 <= self.position() <= s.len(),
                goal.0 == selectors.deep_view() + spec_parse_selectors(s, self.position()).0,
                goal.1 == spec_parse_selectors(s, self.position()).1,
            ensures
                self.wf(),
                self.input() == s,
                0 <= self.position() <= s.len(),
                goal.0 == selectors.deep_view() + spec_parse_selectors(s, self.position()).0,
                goal.1 == spec_parse_selectors(s, self.position()).1,
                self.position() >= s.len() || s[self.position()] == '{',
            decreases s.len() - self.position(),
        {
            if self.pos >= self.chars.len() {
                break;
            }
            if self.chars[self.pos] == '{' {
                break;
            }
            let ghost pos_at = self.position();
            let ghost sels_at = selectors.deep_view();
            proof {
                lemma_parse_selector_pos(s, pos_at);
            }
            let selector = self.parse_selector();
            let ghost t = spec_parse_selector(s, pos_at);
            if selector.simple.len() > 0 {
                let ghost prev = selectors.deep_view();
                selectors.push(selector);
                proof {
                    assert(selectors.deep_view() =~= prev.push(t.0));
                }
            }
            proof {
                lemma_consume_while(s, t.1, CharCond::Whitespace);
            }
            let _gap = self.consume_while(CharCond::Whitespace);
            if self.pos < self.chars.len() && self.chars[self.pos] == ',' {
                self.pos = self.pos + 1;
            }
            proof {
                let step = spec_parse_selectors(s, pos_at);
                assert(step.0 == (if t.0.simple.len() > 0 {
                    seq![t.0]
                } else {
                    Seq::<SelectorView>::empty()
                }) + spec_parse_selectors(s, self.position()).0);
                assert(selectors.deep_view() + spec_parse_selectors(s, self.position()).0
                    =~= sels_at + step.0);
            }
        }
        if self.pos < self.chars.len() {
            self.pos = self.pos + 1;
        }
        proof {
            assert(goal.0 =~= selectors.deep_view() + Seq::<SelectorView>::empty());
            assert(goal.0 =~= selectors.deep_view());
        }
        selectors
    }

    /// Parses the declaration block of a rule, consuming the closing
    /// brace.
    pub fn parse_declarations(&mut self) -> (res: Vec<Declaration>)
        requires
            old(self).wf(),
        ensures
            final(self).wf(),
            final(self).input() == old(self).input(),
            final(self).position() == spec_parse_declarations(
                old(self).input(),
                old(self).position(),
            ).1,
            res.deep_view() == spec_parse_declarations(old(self).input(), old(self).position()).0,
    {
        let ghost s = self.input();
        let ghost p0 = self.position();
        let ghost goal = spec_parse_declarations(s, p0);
        let mut declarations: Vec<Declaration> = Vec::new();
        proof {
            assert(declarations.deep_view() =~= Seq::<DeclarationView>::empty());
            assert(goal.0 =~= declarations.deep_view() + goal.0);
        }
        loop
            invariant
                self.wf(),
                self.input() == s,
                0 <= self.position() <= s.len(),
                goal.0 == declarations.deep_view() + spec_parse_declarations(
                    s,
                    self.position(),
                ).0,
                goal.1 == spec_parse_declarations(s, self.position()).1,
            ensures
                self.wf(),
                self.input() == s,
                0 <= self.position() <= s.len(),
                goal.0 == declarations.deep_view() + spec_parse_declarations(
                    s,
                    self.position(),
                ).0,
                goal.1 == spec_parse_declarations(s, self.position()).1,
                self.position() >= s.len() || s[self.position()] == '}',
            decreases s.len() - self.position(),
        {
            if self.pos >= self.chars.len() {
                break;
            }
            if self.chars[self.pos] == '}' {
                break;
            }
            let ghost pos_at = self.position();
            let ghost decls_at = declarations.deep_view();
            proof {
                lemma_consume_while(s, pos_at, CharCond::Whitespace);
            }
            let _lead = self.consume_while(CharCond::Whitespace);
            let ghost i1 = self.position();
            proof {
                lemma_consume_while(s, i1, CharCond::NotColon);
            }
            let prop_raw = self.consume_while(CharCond::NotColon);
            let property = lowercase(prop_raw.as_str());
            if self.pos < self.chars.len() {
                self.pos = self.pos + 1;
            }
            proof {
                lemma_consume_while(s, self.position(), CharCond::Whitespace);
            }
            let _gap = self.consume_while(CharCond::Whitespace);
            let ghost i4 = self.position();
            proof {
                lemma_consume_while(s, i4, CharCond::NotDeclarationEnd);
            }
            let value_raw = self.consume_while(CharCond::NotDeclarationEnd);
            let value_str = lowercase(value_raw.as_str());
            let value_enum = Self::translate_value(property.as_str(), value_str.as_str());
            let declaration = Declaration::new(property, value_enum);
            let ghost declv = declaration@;
            let ghost i5 = self.position();
            if self.pos < self.chars.len() && self.chars[self.pos] == ';' {
                let ghost prev = declarations.deep_view();
                declarations.push(declaration);
                self.pos = self.pos + 1;
                proof {
                    assert(declarations.deep_view() =~= prev.push(declv));
                }
            } else {
                proof {
                    lemma_consume_while(s, i5, CharCond::Whitespace);
                }
                let _pad = self.consume_while(CharCond::Whitespace);
                if self.pos < self.chars.len() && self.chars[self.pos] == '}' {
                    let ghost prev = declarations.deep_view();
                    declarations.push(declaration);
                    proof {
                        assert(declarations.deep_view() =~= prev.push(declv));
                    }
                }
            }
            proof {
                lemma_consume_while(s, self.position(), CharCond::Whitespace);
            }
            let _tail = self.consume_while(CharCond::Whitespace);
            proof {
                let step = spec_parse_declarations(s, pos_at);
                assert(declarations.deep_view() + spec_parse_declarations(s, self.position()).0
                    =~= decls_at + step.0);
            }
        }
        if self.pos < self.chars.len() {
            self.pos = self.pos + 1;
        }
        proof {
            assert(goal.0 =~= declarations.deep_view() + Seq::<DeclarationView>::empty());
            assert(goal.0 =~= declarations.deep_view());
        }
        declarations
    }

    /// Parses a whole stylesheet: rules until the input is exhausted.
    pub fn parse_stylesheet(&mut self) -> (res: StyleSheet)
        requires
            old(self).wf(),
        ensures
            final(self).wf(),
            final(self).input() == old(self).input(),
            res@ == spec_parse_stylesheet(old(self).input(), old(self).position()),
    {
        let ghost s = self.input();
        let ghost p0 = self.position();
        let ghost goal = spec_parse_stylesheet(s, p0);
        let mut rules: Vec<Rule> = Vec::new();
        proof {
            assert(rules.deep_view() =~= Seq::<RuleView>::empty());
            assert(goal =~= rules.deep_view() + goal);
        }
        loop
            invariant
                self.wf(),
                self.input() == s,
                0 <= self.position() <= s.len(),
                goal == rules.deep_view() + spec_parse_stylesheet(s, self.position()),
            ensures
                self.wf(),
                self.input() == s,
                goal == rules.deep_view() + spec_parse_stylesheet(s, self.position()),
                self.position() >= s.len(),
            decreases s.len() - self.position(),
        {
            if self.pos >= self.chars.len() {
                break;
            }
            let ghost pos_at = self.position();
            let ghost rules_at = rules.deep_view();
            proof {
                lemma_parse_selectors_pos(s, pos_at);
            }
            let selectors = self.parse_selectors();
            let ghost t = spec_parse_selectors(s, pos_at);
            proof {
                lemma_parse_declarations_pos(s, t.1);
            }
            let styles = self.parse_declarations();
            let ghost d = spec_parse_declarations(s, t.1);
            let rule = Rule::new(selectors, styles);
            let ghost rv = rule@;
            let ghost prev = rules.deep_view();
            rules.push(rule);
            proof {
                assert(rules.deep_view() =~= prev.push(rv));
                assert(rv == (RuleView { selectors: t.0, declarations: d.0 }));
                assert(rules.deep_view() + spec_parse_stylesheet(s, self.position())
                    =~= rules_at + spec_parse_stylesheet(s, pos_at));
            }
        }
        proof {
            assert(spec_parse_stylesheet(s, self.position()) =~= Seq::<RuleView>::empty());
            assert(goal =~= rules.deep_view());
        }
        StyleSheet::new(rules)
    }
}

} // verus!
