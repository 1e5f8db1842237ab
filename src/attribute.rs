//! Text attributes of a scheme: colors and styles of one kind of token,
//! either given directly or inherited from another attribute.

use vstd::prelude::*;

use crate::color::{decode_hex, parse_u32, parsed_u32, Color};

verus! {

/// Whether two texts hold the same characters.
pub fn same_text(a: &str, b: &str) -> (r: bool)
    ensures
        r == (a@ == b@),
{
    let n = a.unicode_len();
    if n != b.unicode_len() {
        return false;
    }
    let mut i: usize = 0;
    while i < n
        invariant
            n == a@.len(),
            n == b@.len(),
            0 <= i <= n,
            a@.subrange(0, i as int) == b@.subrange(0, i as int),
        decreases n - i,
    {
        if a.get_char(i) != b.get_char(i) {
            return false;
        }
        assert(a@.subrange(0, i + 1) =~= a@.subrange(0, i as int).push(a@[i as int]));
        assert(b@.subrange(0, i + 1) =~= b@.subrange(0, i as int).push(b@[i as int]));
        i = i + 1;
    }
    assert(a@ =~= a@.subrange(0, n as int));
    assert(b@ =~= b@.subrange(0, n as int));
    true
}

/// The font style of an attribute.
#[derive(Clone, Copy, Debug, PartialEq, Eq, Structural)]
pub enum FontType {
    Bold,
    Italic,
    BoldItalic,
    Normal,
}

impl FontType {
    /// The style that the scheme writes as the number `n`.
    pub open spec fn of_ordinal(n: u32) -> Option<FontType> {
        if n == 0 {
            Some(FontType::Normal)
        } else if n == 1 {
            Some(FontType::Bold)
        } else if n == 2 {
            Some(FontType::Italic)
        } else if n == 3 {
            Some(FontType::BoldItalic)
        } else {
            None
        }
    }

    pub fn n(v: u32) -> (r: Option<FontType>)
        ensures
            r == Self::of_ordinal(v),
    {
        if v == 0 {
            Some(FontType::Normal)
        } else if v == 1 {
            Some(FontType::Bold)
        } else if v == 2 {
            Some(FontType::Italic)
        } else if v == 3 {
            Some(FontType::BoldItalic)
        } else {
            None
        }
    }
}

impl Default for FontType {
    fn default() -> (r: FontType)
        ensures
            r == FontType::Normal,
    {
        FontType::Normal
    }
}

/// The effect drawn around or under the text of an attribute.
#[derive(Clone, Copy, Debug, PartialEq, Eq, Structural)]
pub enum EffectType {
    Underscored,
    BoldUnderscored,
    Underwave,
    Bordered,
    Strike,
    Dotted,
    NoEffect,
}

impl EffectType {
    /// The effect that the scheme writes as the number `n`.
    pub open spec fn of_ordinal(n: u32) -> Option<EffectType> {
        if n == 0 {
            Some(EffectType::Underscored)
        } else if n == 1 {
            Some(EffectType::BoldUnderscored)
        } else if n == 2 {
            Some(EffectType::Underwave)
        } else if n == 3 {
            Some(EffectType::Bordered)
        } else if n == 4 {
            Some(EffectType::Strike)
        } else if n == 5 {
            Some(EffectType::Dotted)
        } else if n == 6 {
            Some(EffectType::NoEffect)
        } else {
            None
        }
    }

    pub fn n(v: u32) -> (r: Option<EffectType>)
        ensures
            r == Self::of_ordinal(v),
    {
        if v == 0 {
            Some(EffectType::Underscored)
        } else if v == 1 {
            Some(EffectType::BoldUnderscored)
        } else if v == 2 {
            Some(EffectType::Underwave)
        } else if v == 3 {
            Some(EffectType::Bordered)
        } else if v == 4 {
            Some(EffectType::Strike)
        } else if v == 5 {
            Some(EffectType::Dotted)
        } else if v == 6 {
            Some(EffectType::NoEffect)
        } else {
            None
        }
    }
}

impl Default for EffectType {
    fn default() -> (r: EffectType)
        ensures
            r == EffectType::NoEffect,
    {
        EffectType::NoEffect
    }
}

/// What an attribute declares, with each color as its text.
pub struct DataView {
    pub foreground: Option<Seq<char>>,
    pub background: Option<Seq<char>>,
    pub effect_color: Option<Seq<char>>,
    pub error_stripe_color: Option<Seq<char>>,
    pub effect_type: EffectType,
    pub font_type: FontType,
}

/// An attribute that declares nothing yet.
pub open spec fn empty_data() -> DataView {
    DataView {
        foreground: None,
        background: None,
        effect_color: None,
        error_stripe_color: None,
        effect_type: EffectType::NoEffect,
        font_type: FontType::Normal,
    }
}

/// The font style written as `value`; unknown or unreadable values mean none.
pub open spec fn font_of(value: Seq<char>) -> FontType {
    match parsed_u32(value, 10) {
        Some(n) => match FontType::of_ordinal(n) {
            Some(f) => f,
            None => FontType::Normal,
        },
        None => FontType::Normal,
    }
}

/// The effect written as `value`; unknown or unreadable values mean none.
pub open spec fn effect_of(value: Seq<char>) -> EffectType {
    match parsed_u32(value, 10) {
        Some(n) => match EffectType::of_ordinal(n) {
            Some(e) => e,
            None => EffectType::NoEffect,
        },
        None => EffectType::NoEffect,
    }
}

/// The color `value` where it decodes, else what was there before.
pub open spec fn color_field(old: Option<Seq<char>>, value: Seq<char>) -> Option<Seq<char>> {
    if decode_hex(value).is_some() {
        Some(value)
    } else {
        old
    }
}

/// `d` after the scheme sets its field `key` to `value`.
pub open spec fn set_field(d: DataView, key: Seq<char>, value: Seq<char>) -> DataView {
    if key == "BACKGROUND"@ {
        DataView { background: color_field(d.background, value), ..d }
    } else if key == "FOREGROUND"@ {
        DataView { foreground: color_field(d.foreground, value), ..d }
    } else if key == "FONT_TYPE"@ {
        DataView { font_type: font_of(value), ..d }
    } else if key == "EFFECT_TYPE"@ {
        DataView { effect_type: effect_of(value), ..d }
    } else if key == "EFFECT_COLOR"@ {
        DataView { effect_color: color_field(d.effect_color, value), ..d }
    } else if key == "ERROR_STRIPE_COLOR"@ {
        DataView { error_stripe_color: color_field(d.error_stripe_color, value), ..d }
    } else {
        d
    }
}

pub open spec fn color_view(c: Option<Color>) -> Option<Seq<char>> {
    match c {
        Some(c) => Some(c@),
        None => None,
    }
}

fn clone_color(c: &Option<Color>) -> (r: Option<Color>)
    ensures
        color_view(r) == color_view(*c),
{
    match c {
        Some(c) => Some(c.clone()),
        None => None,
    }
}

/// The colors and styles that an attribute declares.
pub struct JBAttributeData {
    pub foreground: Option<Color>,
    pub background: Option<Color>,
    pub effect_color: Option<Color>,
    pub error_stripe_color: Option<Color>,
    pub effect_type: EffectType,
    pub font_type: FontType,
}

impl View for JBAttributeData {
    type V = DataView;

    open spec fn view(&self) -> DataView {
        DataView {
            foreground: color_view(self.foreground),
            background: color_view(self.background),
            effect_color: color_view(self.effect_color),
            error_stripe_color: color_view(self.error_stripe_color),
            effect_type: self.effect_type,
            font_type: self.font_type,
        }
    }
}

impl Default for JBAttributeData {
    fn default() -> (r: JBAttributeData)
        ensures
            r@ == empty_data(),
    {
        JBAttributeData {
            foreground: None,
            background: None,
            effect_color: None,
            error_stripe_color: None,
            effect_type: EffectType::NoEffect,
            font_type: FontType::Normal,
        }
    }
}

impl Clone for JBAttributeData {
    fn clone(&self) -> (r: Self)
        ensures
            r@ == self@,
    {
        JBAttributeData {
            foreground: clone_color(&self.foreground),
            background: clone_color(&self.background),
            effect_color: clone_color(&self.effect_color),
            error_stripe_color: clone_color(&self.error_stripe_color),
            effect_type: self.effect_type,
            font_type: self.font_type,
        }
    }
}

/// An attribute as the scheme declares it.
pub enum AttributeView {
    BaseAttribute(Seq<char>),
    Data(DataView),
    Empty,
}

/// An attribute of a scheme: inherited from the attribute of another name,
/// declared directly, or holding nothing.
pub enum JBAttribute {
    BaseAttribute(String),
    Data(JBAttributeData),
    Empty,
}

impl View for JBAttribute {
    type V = AttributeView;

    open spec fn view(&self) -> AttributeView {
        match self {
            JBAttribute::BaseAttribute(b) => AttributeView::BaseAttribute(b@),
            JBAttribute::Data(d) => AttributeView::Data(d@),
            JBAttribute::Empty => AttributeView::Empty,
        }
    }
}

impl Clone for JBAttribute {
    fn clone(&self) -> (r: Self)
        ensures
            r@ == self@,
    {
        match self {
            JBAttribute::BaseAttribute(b) => JBAttribute::BaseAttribute(b.clone()),
            JBAttribute::Data(d) => JBAttribute::Data(d.clone()),
            JBAttribute::Empty => JBAttribute::Empty,
        }
    }
}

impl Default for JBAttribute {
    fn default() -> (r: JBAttribute)
        ensures
            r@ == AttributeView::Empty,
    {
        JBAttribute::Empty
    }
}

impl JBAttribute {
    /// The declared data of an attribute that declares it.
    pub fn inner_data_mut_ref(&mut self) -> (r: &mut JBAttributeData)
        requires
            *old(self) is Data,
        ensures
            *old(self) == JBAttribute::Data(*r),
            *final(self) == JBAttribute::Data(*final(r)),
    {
        match self {
            JBAttribute::Data(data) => data,
            _ => unreached(),
        }
    }

    /// Sets the field that `key` names to `value`, where the value is valid
    /// for that field; unknown keys are ignored.
    pub fn set(&mut self, key: &str, value: &str)
        requires
            *old(self) is Data,
        ensures
            final(self)@ == AttributeView::Data(set_field(old(self)@->Data_0, key@, value@)),
    {
        let data = self.inner_data_mut_ref();
        if same_text(key, "BACKGROUND") {
            let c = Color::from(value);
            if c.as_hex().is_some() {
                data.background = Some(c);
            }
        } else if same_text(key, "FOREGROUND") {
            let c = Color::from(value);
            if c.as_hex().is_some() {
                data.foreground = Some(c);
            }
        } else if same_text(key, "FONT_TYPE") {
            data.font_type = match parse_u32(value, 10) {
                Some(n) => match FontType::n(n) {
                    Some(f) => f,
                    None => FontType::Normal,
                },
                None => FontType::Normal,
            };
        } else if same_text(key, "EFFECT_TYPE") {
            data.effect_type = match parse_u32(value, 10) {
                Some(n) => match EffectType::n(n) {
                    Some(e) => e,
                    None => EffectType::NoEffect,
                },
                None => EffectType::NoEffect,
            };
        } else if same_text(key, "EFFECT_COLOR") {
            let c = Color::from(value);
            if c.as_hex().is_some() {
                data.effect_color = Some(c);
            }
        } else if same_text(key, "ERROR_STRIPE_COLOR") {
            let c = Color::from(value);
            if c.as_hex().is_some() {
                data.error_stripe_color = Some(c);
            }
        }
    }
}

} // verus!
