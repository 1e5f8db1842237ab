use theme_extractor::colored_json::{plain_text, ColoredValue, Colors, JsonValue, PaletteColor};
use theme_extractor::color::Color;
use theme_extractor::theme::JBColorScheme;

fn white() -> Colors {
    Colors::from(&JBColorScheme::new())
}

fn num(s: &str) -> JsonValue {
    JsonValue::Number(s.to_string())
}

#[test]
fn empty_array_pretty_is_two_brackets() {
    let c = white();
    let v = JsonValue::Array(vec![]);
    assert_eq!(ColoredValue::new(&c, &v).to_plain(true), "[]");
    let o = JsonValue::Object(vec![]);
    assert_eq!(ColoredValue::new(&c, &o).to_plain(true), "{}");
}

#[test]
fn one_element_array_pretty() {
    let c = white();
    let v = JsonValue::Array(vec![num("1")]);
    assert_eq!(ColoredValue::new(&c, &v).to_plain(true), "[\n  1\n]");
}

#[test]
fn object_compact_keeps_key_order() {
    let c = white();
    let v = JsonValue::Object(vec![("a".to_string(), num("1")), ("b".to_string(), num("2"))]);
    assert_eq!(ColoredValue::new(&c, &v).to_plain(false), r#"{"a": 1, "b": 2}"#);
}

#[test]
fn scalars_render_as_text() {
    let c = white();
    assert_eq!(ColoredValue::new(&c, &JsonValue::Null).to_plain(false), "null");
    assert_eq!(ColoredValue::new(&c, &JsonValue::Bool(true)).to_plain(false), "true");
    assert_eq!(ColoredValue::new(&c, &JsonValue::Bool(false)).to_plain(true), "false");
    assert_eq!(ColoredValue::new(&c, &JsonValue::String("hi".to_string())).to_plain(false), "\"hi\"");
}

#[test]
fn compact_array_separates_with_comma_space() {
    let c = white();
    let v = JsonValue::Array(vec![num("1"), JsonValue::Null, JsonValue::Array(vec![])]);
    assert_eq!(ColoredValue::new(&c, &v).to_plain(false), "[1, null, []]");
}

#[test]
fn nested_pretty_indents_by_depth() {
    let c = white();
    let v = JsonValue::Object(vec![
        ("a".to_string(), JsonValue::Array(vec![num("1"), num("2")])),
        ("b".to_string(), JsonValue::Object(vec![])),
    ]);
    assert_eq!(
        ColoredValue::new(&c, &v).to_plain(true),
        "{\n  \"a\": [\n    1,\n    2\n  ],\n  \"b\": {}\n}"
    );
}

#[test]
fn nested_value_starts_one_level_deeper() {
    let c = white();
    let outer = JsonValue::Null;
    let inner = JsonValue::Array(vec![num("7")]);
    let base = ColoredValue::new(&c, &outer);
    assert_eq!(base.nest(&inner).to_plain(true), "[\n    7\n  ]");
}

#[test]
fn palette_takes_foregrounds_and_falls_back_to_white() {
    let s = JBColorScheme::parse(
        r#"<attributes>
        <option name="DEFAULT_STRING"><option name="FOREGROUND" value="123456"/></option>
        <option name="DEFAULT_KEYWORD" baseAttributes="DEFAULT_STRING"/>
        <option name="DEFAULT_NUMBER"><option name="BACKGROUND" value="123456"/></option>
        </attributes>"#,
    )
    .unwrap();
    let c = Colors::from(&s);
    assert_eq!(c.string, PaletteColor::TrueColor(0x56, 0x34, 0x12));
    assert_eq!(c.null, PaletteColor::TrueColor(0x56, 0x34, 0x12));
    assert_eq!(c.bool, PaletteColor::TrueColor(0x56, 0x34, 0x12));
    assert_eq!(c.number, PaletteColor::BrightWhite);
    assert_eq!(c.key, PaletteColor::BrightWhite);
    assert_eq!(c.comma, PaletteColor::BrightWhite);
}

#[test]
fn pieces_carry_their_slot_colors() {
    let mut c = white();
    c.string = PaletteColor::TrueColor(1, 2, 3);
    c.brackets = PaletteColor::TrueColor(4, 5, 6);
    c.braces = PaletteColor::TrueColor(10, 11, 12);
    c.comma = PaletteColor::TrueColor(7, 8, 9);
    let v = JsonValue::Array(vec![JsonValue::String("x".to_string()), num("2")]);
    let pieces = ColoredValue::new(&c, &v).render(false);
    assert_eq!(pieces.len(), 7);
    assert_eq!(pieces[0].text, "[");
    assert_eq!(pieces[0].color, Some(PaletteColor::TrueColor(4, 5, 6)));
    assert_eq!(pieces[1].color, Some(PaletteColor::TrueColor(1, 2, 3)));
    assert_eq!(pieces[2].text, "x");
    assert_eq!(pieces[4].text, ", ");
    assert_eq!(pieces[4].color, Some(PaletteColor::TrueColor(7, 8, 9)));
    assert_eq!(plain_text(&pieces), "[\"x\", 2]");
}

#[test]
fn pretty_line_breaks_are_uncolored() {
    let c = white();
    let v = JsonValue::Array(vec![num("1")]);
    let pieces = ColoredValue::new(&c, &v).render(true);
    assert_eq!(pieces[1].text, "\n");
    assert_eq!(pieces[1].color, None);
}

#[test]
fn braces_and_brackets_take_their_own_slots() {
    let mut c = white();
    c.brackets = PaletteColor::TrueColor(1, 1, 1);
    c.braces = PaletteColor::TrueColor(2, 2, 2);
    let v = JsonValue::Object(vec![("k".to_string(), JsonValue::Array(vec![num("1")]))]);
    for pretty in [false, true] {
        let pieces = ColoredValue::new(&c, &v).render(pretty);
        for p in &pieces {
            if p.text == "[" || p.text == "]" {
                assert_eq!(p.color, Some(PaletteColor::TrueColor(1, 1, 1)));
            }
            if p.text == "{" || p.text == "}" {
                assert_eq!(p.color, Some(PaletteColor::TrueColor(2, 2, 2)));
            }
        }
    }
}

#[test]
fn pretty_object_lines_end_at_the_comma() {
    let c = white();
    let v = JsonValue::Object(vec![("a".to_string(), num("1")), ("b".to_string(), num("2"))]);
    assert_eq!(ColoredValue::new(&c, &v).to_plain(true), "{\n  \"a\": 1,\n  \"b\": 2\n}");
}

#[test]
fn undecodable_color_falls_back_to_bright_white() {
    assert_eq!(PaletteColor::from(&Color::from("zz")), PaletteColor::BrightWhite);
    assert_eq!(PaletteColor::from(&Color::from("0000ff")), PaletteColor::TrueColor(255, 0, 0));
}
