use theme_extractor::attribute::{EffectType, FontType, JBAttribute};
use theme_extractor::reader::JBColorSchemeReader;
use theme_extractor::theme::{JBColorScheme, JBColorSchemeType, SchemeError};

fn scheme(text: &str) -> JBColorScheme {
    JBColorScheme::parse(text).unwrap()
}

fn fg(s: &JBColorScheme, name: &str) -> Option<String> {
    s.get_attribute(name).and_then(|d| d.foreground).map(|c| c.0)
}

#[test]
fn color_option_is_read() {
    let s = scheme(r#"<colors><option name="C1" value="00ff00"/></colors>"#);
    let c = s.get_color("C1").unwrap();
    assert_eq!(c.0, "00ff00");
    assert_eq!(c.as_hex(), Some([0, 255, 0, 255]));
}

#[test]
fn undecodable_color_is_skipped() {
    let s = scheme(
        r#"<scheme><colors><option name="BAD" value="zz"/><option name="OK" value="0a0b0c"/></colors></scheme>"#,
    );
    assert!(s.get_color("BAD").is_none());
    assert_eq!(s.get_color("OK").unwrap().0, "0a0b0c");
}

#[test]
fn options_outside_colors_are_ignored() {
    let s = scheme(r#"<scheme><option name="C1" value="00ff00"/></scheme>"#);
    assert!(s.get_color("C1").is_none());
    assert_eq!(s.colors().len(), 0);
}

#[test]
fn base_attribute_resolves_to_later_data() {
    let s = scheme(
        r#"<scheme><attributes>
        <option name="A" baseAttributes="X"/>
        <option name="X"><value><option name="FOREGROUND" value="ff0000"/></value></option>
        </attributes></scheme>"#,
    );
    assert_eq!(fg(&s, "A"), Some("ff0000".to_string()));
    assert_eq!(fg(&s, "X"), Some("ff0000".to_string()));
}

#[test]
fn redeclared_color_keeps_its_place() {
    let mut s = JBColorScheme::new();
    s.read_str(r#"<colors><option name="A" value="111111"/><option name="B" value="222222"/></colors>"#)
        .unwrap();
    s.read_string(r#"<colors><option name="A" value="333333"/></colors>"#.to_string())
        .unwrap();
    let cs = s.colors();
    assert_eq!(cs.len(), 2);
    assert_eq!(cs[0].0, "A");
    assert_eq!(cs[0].1 .0, "333333");
    assert_eq!(cs[1].0, "B");
    assert_eq!(cs[1].1 .0, "222222");
}

#[test]
fn option_missing_value_is_skipped() {
    let s = scheme(
        r#"<scheme>
        <colors><option name="NOVALUE"/><option name="AFTER" value="010203"/></colors>
        <attributes><option name="X">
          <option name="FOREGROUND"/>
          <option name="BACKGROUND" value="00ff00"/>
        </option></attributes>
        </scheme>"#,
    );
    assert!(s.get_color("NOVALUE").is_none());
    assert_eq!(s.get_color("AFTER").unwrap().0, "010203");
    let d = s.get_attribute("X").unwrap();
    assert!(d.foreground.is_none());
    assert_eq!(d.background.unwrap().0, "00ff00");
}

#[test]
fn three_hops_reach_the_data() {
    let s = scheme(
        r#"<scheme><attributes>
        <option name="A" baseAttributes="B"/>
        <option name="B" baseAttributes="C"/>
        <option name="C" baseAttributes="D"/>
        <option name="D"><value><option name="FOREGROUND" value="abcdef"/><option name="FONT_TYPE" value="2"/></value></option>
        </attributes></scheme>"#,
    );
    let d = s.get_attribute("A").unwrap();
    assert_eq!(d.foreground.unwrap().0, "abcdef");
    assert_eq!(d.font_type, FontType::Italic);
}

#[test]
fn cyclic_inheritance_is_rejected() {
    let s = scheme(
        r#"<scheme><attributes>
        <option name="A" baseAttributes="B"/>
        <option name="B" baseAttributes="A"/>
        <option name="SELF" baseAttributes="SELF"/>
        </attributes></scheme>"#,
    );
    assert!(matches!(s.resolve_attribute("A"), Err(SchemeError::CyclicInheritance)));
    assert!(matches!(s.resolve_attribute("SELF"), Err(SchemeError::CyclicInheritance)));
    assert!(s.get_attribute("A").is_none());
}

#[test]
fn missing_attribute_resolves_to_nothing() {
    let s = scheme(r#"<attributes><option name="A" baseAttributes="NOWHERE"/></attributes>"#);
    assert!(matches!(s.resolve_attribute("A"), Ok(None)));
    assert!(matches!(s.resolve_attribute("B"), Ok(None)));
}

#[test]
fn font_and_effect_types_are_read() {
    let s = scheme(
        r#"<attributes>
        <option name="A"><option name="FONT_TYPE" value="1"/><option name="EFFECT_TYPE" value="2"/></option>
        <option name="B"><option name="FONT_TYPE" value="9"/><option name="EFFECT_TYPE" value="x"/></option>
        <option name="C"><option name="EFFECT_COLOR" value="102030"/><option name="ERROR_STRIPE_COLOR" value="405060"/><option name="OTHER" value="1"/></option>
        </attributes>"#,
    );
    let a = s.get_attribute("A").unwrap();
    assert_eq!(a.font_type, FontType::Bold);
    assert_eq!(a.effect_type, EffectType::Underwave);
    let b = s.get_attribute("B").unwrap();
    assert_eq!(b.font_type, FontType::Normal);
    assert_eq!(b.effect_type, EffectType::NoEffect);
    let c = s.get_attribute("C").unwrap();
    assert_eq!(c.effect_color.unwrap().0, "102030");
    assert_eq!(c.error_stripe_color.unwrap().0, "405060");
    assert!(c.foreground.is_none());
}

#[test]
fn resolved_attributes_keep_table_order() {
    let s = scheme(
        r#"<attributes>
        <option name="Z"><option name="FOREGROUND" value="000001"/></option>
        <option name="M" baseAttributes="Z"/>
        <option name="GONE" baseAttributes="NONE"/>
        <option name="A"><option name="BACKGROUND" value="000002"/></option>
        </attributes>"#,
    );
    let all = s.get_attributes();
    let names: Vec<&str> = all.iter().map(|(k, _)| k.as_str()).collect();
    assert_eq!(names, vec!["Z", "M", "A"]);
    assert_eq!(all[1].1.foreground.as_ref().unwrap().0, "000001");
}

#[test]
fn mapping_takes_first_resolving_name() {
    let s = scheme(
        r#"<attributes>
        <option name="SECOND"><option name="FOREGROUND" value="222222"/></option>
        <option name="THIRD"><option name="FOREGROUND" value="333333"/></option>
        </attributes>"#,
    );
    let names = vec!["FIRST".to_string(), "SECOND".to_string(), "THIRD".to_string()];
    let d = s.get_attribute_via_mapping(&names).unwrap();
    assert_eq!(d.foreground.unwrap().0, "222222");
    assert!(s.get_attribute_via_mapping(&vec!["NONE".to_string()]).is_none());
}

#[test]
fn malformed_markup_is_an_error() {
    let mut s = JBColorScheme::new();
    s.read_str(r#"<colors><option name="A" value="111111"/></colors>"#).unwrap();
    let r = s.read_str(r#"<colors><option name="B" value="222222"/></attributes>"#);
    assert!(matches!(r, Err(SchemeError::Malformed)));
    assert!(s.get_color("B").is_none());
    assert_eq!(s.get_color("A").unwrap().0, "111111");
}

#[test]
fn reader_hands_out_declarations_in_order() {
    let text = r#"<scheme><colors><option name="C" value="123456"/></colors>
        <attributes><option name="A" baseAttributes="B"/></attributes></scheme>"#;
    let mut r = JBColorSchemeReader::from_str(text);
    match r.next() {
        Some(Ok(JBColorSchemeType::Color(n, c))) => {
            assert_eq!(n, "C");
            assert_eq!(c.0, "123456");
        }
        _ => panic!("expected a color"),
    }
    match r.next() {
        Some(Ok(JBColorSchemeType::Attribute(n, JBAttribute::BaseAttribute(b)))) => {
            assert_eq!(n, "A");
            assert_eq!(b, "B");
        }
        _ => panic!("expected an attribute"),
    }
    assert!(r.next().is_none());
}

#[test]
fn parse_fails_only_on_bad_markup() {
    assert!(matches!(JBColorScheme::parse("<a></b>"), Err(SchemeError::Malformed)));
    assert!(JBColorScheme::parse("").is_ok());
}

#[test]
fn reader_keeps_reporting_the_error() {
    let mut r = JBColorSchemeReader::from_str("<colors></attributes>");
    assert!(matches!(r.next(), Some(Err(SchemeError::Malformed))));
    assert!(matches!(r.next(), Some(Err(SchemeError::Malformed))));
}
