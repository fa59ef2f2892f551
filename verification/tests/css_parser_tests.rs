use browser_from_scratch::css::{Color, Unit, Value};
use browser_from_scratch::css_parser::CssParser;

fn parse(css: &str) -> browser_from_scratch::css::StyleSheet {
    CssParser::new(css).parse_stylesheet()
}

#[test]
fn stylesheet_structure() {
    let sheet = parse("div, p { width: 10px; height: 20%; }");
    assert_eq!(sheet.rules.len(), 1);
    let rule = &sheet.rules[0];
    assert_eq!(rule.selectors.len(), 2);
    assert_eq!(rule.selectors[0].simple.len(), 1);
    assert_eq!(rule.selectors[0].simple[0].tag_name.as_deref(), Some("div"));
    assert_eq!(rule.selectors[1].simple[0].tag_name.as_deref(), Some("p"));
    assert_eq!(rule.declarations.len(), 2);
    assert_eq!(rule.declarations[0].property, "width");
    assert_eq!(rule.declarations[0].value, Value::Length(10, Unit::Px));
    assert_eq!(rule.declarations[1].property, "height");
    assert_eq!(rule.declarations[1].value, Value::Length(20, Unit::Pct));
}

#[test]
fn tag_names_are_lowercased() {
    let sheet = parse("DIV { width: 1px; }");
    assert_eq!(sheet.rules[0].selectors[0].simple[0].tag_name.as_deref(), Some("div"));
}

#[test]
fn selector_with_id_and_classes() {
    let sheet = parse("div#main.note.x { width: 1px; }");
    let simple = &sheet.rules[0].selectors[0].simple[0];
    assert_eq!(simple.tag_name.as_deref(), Some("div"));
    assert_eq!(simple.id.as_deref(), Some("main"));
    assert_eq!(simple.classes, vec!["note".to_string(), "x".to_string()]);
}

#[test]
fn repeated_id_clears_the_id() {
    let sheet = parse("div#a#b { width: 1px; }");
    let simple = &sheet.rules[0].selectors[0].simple[0];
    assert_eq!(simple.tag_name.as_deref(), Some("div"));
    assert_eq!(simple.id, None);
}

#[test]
fn combinator_tail_is_dropped() {
    let sheet = parse("div > p { width: 1px; }");
    let rule = &sheet.rules[0];
    assert_eq!(rule.selectors.len(), 1);
    assert_eq!(rule.selectors[0].simple[0].tag_name.as_deref(), Some("div"));
}

#[test]
fn declaration_without_terminator_is_dropped() {
    let sheet = parse("div { width: 10px\nheight: 4px; }");
    let rule = &sheet.rules[0];
    assert_eq!(rule.declarations.len(), 1);
    assert_eq!(rule.declarations[0].property, "height");
    assert_eq!(rule.declarations[0].value, Value::Length(4, Unit::Px));
}

#[test]
fn last_declaration_before_brace_is_kept() {
    let sheet = parse("div { width: 10px; height: 4px }");
    let rule = &sheet.rules[0];
    assert_eq!(rule.declarations.len(), 2);
    assert_eq!(rule.declarations[1].property, "height");
}

#[test]
fn hex_colors_long_and_short() {
    assert_eq!(
        CssParser::translate_color("#ff8000"),
        Color { r: 255, g: 128, b: 0, a: 255 }
    );
    assert_eq!(CssParser::translate_color("#f00"), Color { r: 255, g: 0, b: 0, a: 255 });
    assert_eq!(CssParser::translate_color("#fff"), Color { r: 255, g: 255, b: 255, a: 255 });
}

#[test]
fn invalid_hex_digits_default_to_zero() {
    assert_eq!(CssParser::translate_color("#zzz"), Color { r: 0, g: 0, b: 0, a: 255 });
    assert_eq!(
        CssParser::translate_color("#zz8000"),
        Color { r: 0, g: 128, b: 0, a: 255 }
    );
}

#[test]
fn malformed_color_forms_default_to_white() {
    let white = Color { r: 255, g: 255, b: 255, a: 255 };
    assert_eq!(CssParser::translate_color("#12345"), white);
    assert_eq!(CssParser::translate_color("rgb(1,2,3)"), white);
    assert_eq!(CssParser::translate_color("hsl(1,2,3)"), white);
    assert_eq!(CssParser::translate_color("notacolor"), white);
}

#[test]
fn color_keywords() {
    assert_eq!(CssParser::translate_color("black"), Color { r: 0, g: 0, b: 0, a: 255 });
    assert_eq!(CssParser::translate_color("red"), Color { r: 255, g: 0, b: 0, a: 255 });
    assert_eq!(CssParser::translate_color("green"), Color { r: 0, g: 255, b: 0, a: 255 });
    assert_eq!(CssParser::translate_color("blue"), Color { r: 0, g: 0, b: 255, a: 255 });
    assert_eq!(CssParser::translate_color("orange"), Color { r: 255, g: 165, b: 0, a: 255 });
    assert_eq!(
        CssParser::translate_color("orangered"),
        Color { r: 255, g: 69, b: 0, a: 255 }
    );
    assert_eq!(CssParser::translate_color("bronze"), Color { r: 194, g: 107, b: 19, a: 255 });
}

#[test]
fn lengths_and_units() {
    assert_eq!(CssParser::translate_length("42px"), Value::Length(42, Unit::Px));
    assert_eq!(CssParser::translate_length("50%"), Value::Length(50, Unit::Pct));
    assert_eq!(CssParser::translate_length("10em"), Value::Length(10, Unit::Em));
    assert_eq!(CssParser::translate_length("3rem"), Value::Length(3, Unit::Rem));
    assert_eq!(CssParser::translate_length("7"), Value::Length(7, Unit::Px));
    assert_eq!(CssParser::translate_length("8vmax"), Value::Length(8, Unit::Vmax));
}

#[test]
fn malformed_lengths_fall_back() {
    // No digits: the number defaults to zero, the unit to pixels.
    assert_eq!(CssParser::translate_length("abc"), Value::Length(0, Unit::Px));
    // An unstorable digit string also yields zero.
    assert_eq!(
        CssParser::translate_length("99999999999999999999px"),
        Value::Length(0, Unit::Px)
    );
    // Digits after the unit begin the unit suffix, not the number.
    assert_eq!(CssParser::translate_length("12px3"), Value::Length(12, Unit::Px));
}

#[test]
fn unclassified_property_keeps_keyword() {
    let sheet = parse("div { display: inline-block; }");
    assert_eq!(
        sheet.rules[0].declarations[0].value,
        Value::Other("inline-block".to_string())
    );
}

#[test]
fn values_are_lowercased() {
    let sheet = parse("div { display: BLOCK; color: #FF0000; }");
    assert_eq!(sheet.rules[0].declarations[0].value, Value::Other("block".to_string()));
    assert_eq!(
        sheet.rules[0].declarations[1].value,
        Value::Color(Color { r: 255, g: 0, b: 0, a: 255 })
    );
}

#[test]
fn empty_selector_group_matches_nothing() {
    let sheet = parse("{ width: 10px; }");
    assert_eq!(sheet.rules.len(), 1);
    assert_eq!(sheet.rules[0].selectors.len(), 0);
    assert_eq!(sheet.rules[0].declarations.len(), 1);
}
