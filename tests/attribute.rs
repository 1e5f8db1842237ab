use theme_extractor::attribute::{EffectType, FontType, JBAttribute, JBAttributeData};

#[test]
fn set_fills_the_named_field() {
    let mut a = JBAttribute::Data(JBAttributeData::default());
    a.set("FOREGROUND", "112233");
    a.set("BACKGROUND", "not a color");
    a.set("EFFECT_TYPE", "5");
    a.set("FONT_TYPE", "3");
    a.set("UNKNOWN", "445566");
    let d = a.inner_data_mut_ref();
    assert_eq!(d.foreground.as_ref().unwrap().0, "112233");
    assert!(d.background.is_none());
    assert_eq!(d.effect_type, EffectType::Dotted);
    assert_eq!(d.font_type, FontType::BoldItalic);
    assert!(d.effect_color.is_none());
}

#[test]
fn data_reference_writes_through() {
    let mut a = JBAttribute::Data(JBAttributeData::default());
    a.inner_data_mut_ref().font_type = FontType::Italic;
    match a {
        JBAttribute::Data(d) => assert_eq!(d.font_type, FontType::Italic),
        _ => panic!("expected data"),
    }
}

#[test]
fn ordinals_map_to_styles() {
    assert_eq!(FontType::n(0), Some(FontType::Normal));
    assert_eq!(FontType::n(4), None);
    assert_eq!(EffectType::n(0), Some(EffectType::Underscored));
    assert_eq!(EffectType::n(6), Some(EffectType::NoEffect));
    assert_eq!(EffectType::n(7), None);
    assert_eq!(FontType::default(), FontType::Normal);
    assert_eq!(EffectType::default(), EffectType::NoEffect);
}
