//! Rendering a JSON-like value as text in pieces, each with the palette
//! color it is painted in.

use vstd::prelude::*;

use crate::color::{decode_hex, Color};
use crate::theme::{resolved, JBColorScheme};

verus! {

/// A terminal color: the terminal's bright white, or red, green and blue.
#[derive(Clone, Copy, Debug, PartialEq, Eq, Structural)]
pub enum PaletteColor {
    BrightWhite,
    TrueColor(u8, u8, u8),
}

/// The terminal color of a color text: its red, green and blue, with the
/// fallback bright white where the text is no color.
pub open spec fn true_color_of(t: Seq<char>) -> PaletteColor {
    match decode_hex(t) {
        Some(b) => PaletteColor::TrueColor(b[0], b[1], b[2]),
        None => PaletteColor::BrightWhite,
    }
}

impl PaletteColor {
    pub fn from(c: &Color) -> (r: PaletteColor)
        ensures
            r == true_color_of(c@),
    {
        match c.as_hex() {
            Some(b) => PaletteColor::TrueColor(b[0], b[1], b[2]),
            None => PaletteColor::BrightWhite,
        }
    }
}

/// The foreground color of the attribute `name`, or bright white where it
/// resolves to no data or declares no foreground that decodes.
pub open spec fn slot_color(s: crate::theme::SchemeView, name: Seq<char>) -> PaletteColor {
    match resolved(s.attributes, name) {
        Ok(Some(d)) => match d.foreground {
            Some(t) => true_color_of(t),
            None => PaletteColor::BrightWhite,
        },
        _ => PaletteColor::BrightWhite,
    }
}

/// The palette: the color of each kind of token.
#[derive(Clone, Copy, Debug, PartialEq, Eq, Structural)]
pub struct Colors {
    pub string: PaletteColor,
    pub number: PaletteColor,
    pub null: PaletteColor,
    pub bool: PaletteColor,
    pub key: PaletteColor,
    pub brackets: PaletteColor,
    pub braces: PaletteColor,
    pub comma: PaletteColor,
    pub colon: PaletteColor,
}

fn slot(value: &JBColorScheme, name: &str) -> (r: PaletteColor)
    ensures
        r == slot_color(value@, name@),
{
    match value.get_attribute(name) {
        Some(d) => match &d.foreground {
            Some(c) => PaletteColor::from(c),
            None => PaletteColor::BrightWhite,
        },
        None => PaletteColor::BrightWhite,
    }
}

impl Colors {
    /// The palette of a scheme, each kind of token taking the foreground of
    /// the scheme's attribute for it.
    pub fn from(value: &JBColorScheme) -> (r: Colors)
        ensures
            r.string == slot_color(value@, "DEFAULT_STRING"@),
            r.number == slot_color(value@, "DEFAULT_NUMBER"@),
            r.null == slot_color(value@, "DEFAULT_KEYWORD"@),
            r.bool == slot_color(value@, "DEFAULT_KEYWORD"@),
            r.key == slot_color(value@, "DEFAULT_INSTANCE_FIELD"@),
            r.brackets == slot_color(value@, "DEFAULT_BRACKETS"@),
            r.braces == slot_color(value@, "DEFAULT_BRACES"@),
            r.comma == slot_color(value@, "DEFAULT_COMMA"@),
            r.colon == slot_color(value@, "DEFAULT_COMMA"@),
    {
        Colors {
            string: slot(value, "DEFAULT_STRING"),
            number: slot(value, "DEFAULT_NUMBER"),
            null: slot(value, "DEFAULT_KEYWORD"),
            bool: slot(value, "DEFAULT_KEYWORD"),
            key: slot(value, "DEFAULT_INSTANCE_FIELD"),
            brackets: slot(value, "DEFAULT_BRACKETS"),
            braces: slot(value, "DEFAULT_BRACES"),
            comma: slot(value, "DEFAULT_COMMA"),
            colon: slot(value, "DEFAULT_COMMA"),
        }
    }
}

/// A JSON-like value; a number is kept as its text.
pub enum JsonValue {
    Null,
    Bool(bool),
    Number(String),
    String(String),
    Array(Vec<JsonValue>),
    Object(Vec<(String, JsonValue)>),
}

/// A run of text and the color it is painted in, if any.
pub struct Piece {
    pub text: String,
    pub color: Option<PaletteColor>,
}

impl View for Piece {
    type V = (Seq<char>, Option<PaletteColor>);

    open spec fn view(&self) -> (Seq<char>, Option<PaletteColor>) {
        (self.text@, self.color)
    }
}

pub open spec fn pieces_view(s: Seq<Piece>) -> Seq<(Seq<char>, Option<PaletteColor>)> {
    s.map_values(|p: Piece| p@)
}

pub open spec fn lit(t: Seq<char>, c: PaletteColor) -> Seq<(Seq<char>, Option<PaletteColor>)> {
    seq![(t, Some(c))]
}

pub open spec fn bare(t: Seq<char>) -> Seq<(Seq<char>, Option<PaletteColor>)> {
    seq![(t, None)]
}

/// Two spaces for each level of depth.
pub open spec fn indentation(d: nat) -> Seq<char> {
    Seq::new(2 * d, |i: int| ' ')
}

/// The depth of the elements of a value at depth `d`.
pub open spec fn deeper(d: nat) -> nat {
    if d < usize::MAX {
        d + 1
    } else {
        d
    }
}

/// The pieces of `v` rendered with palette `c` at depth `d`, on one line or,
/// where `pretty`, with each element on a line of its own.
pub open spec fn render(v: JsonValue, c: Colors, pretty: bool, d: nat) -> Seq<(Seq<char>, Option<PaletteColor>)>
    decreases v, 0int,
{
    match v {
        JsonValue::Null => lit("null"@, c.null),
        JsonValue::Bool(b) => lit(if b { "true"@ } else { "false"@ }, c.bool),
        JsonValue::Number(n) => lit(n@, c.number),
        JsonValue::String(t) => lit("\""@, c.string) + lit(t@, c.string) + lit("\""@, c.string),
        JsonValue::Array(items) => if pretty && items@.len() == 0 {
            lit("["@, c.brackets) + lit("]"@, c.brackets)
        } else if pretty {
            lit("["@, c.brackets) + bare("\n"@) + array_pretty(items, c, d, 0) + bare("\n"@) + bare(
                indentation(d),
            ) + lit("]"@, c.brackets)
        } else {
            lit("["@, c.brackets) + array_compact(items, c, 0) + lit("]"@, c.brackets)
        },
        JsonValue::Object(entries) => if pretty && entries@.len() == 0 {
            lit("{"@, c.braces) + lit("}"@, c.braces)
        } else if pretty {
            lit("{"@, c.braces) + bare("\n"@) + object_pretty(entries, c, d, 0) + bare("\n"@) + bare(
                indentation(d),
            ) + lit("}"@, c.braces)
        } else {
            lit("{"@, c.braces) + object_compact(entries, c, 0) + lit("}"@, c.braces)
        },
    }
}

/// The lines of the elements from `i` on of an array at depth `d`.
pub open spec fn array_pretty(items: Vec<JsonValue>, c: Colors, d: nat, i: int) -> Seq<(Seq<char>, Option<PaletteColor>)>
    decreases items, items@.len() - i,
{
    if i < 0 || i >= items@.len() {
        Seq::empty()
    } else {
        bare(indentation(deeper(d))) + render(items@[i], c, true, deeper(d)) + (if i + 1 < items@.len() {
            lit(","@, c.comma) + bare("\n"@)
        } else {
            Seq::empty()
        }) + array_pretty(items, c, d, i + 1)
    }
}

/// The elements from `i` on of an array on one line.
pub open spec fn array_compact(items: Vec<JsonValue>, c: Colors, i: int) -> Seq<(Seq<char>, Option<PaletteColor>)>
    decreases items, items@.len() - i,
{
    if i < 0 || i >= items@.len() {
        Seq::empty()
    } else {
        render(items@[i], c, false, 0) + (if i + 1 < items@.len() {
            lit(", "@, c.comma)
        } else {
            Seq::empty()
        }) + array_compact(items, c, i + 1)
    }
}

/// A key in quotes and the separator after it.
pub open spec fn key_pieces(k: Seq<char>, c: Colors) -> Seq<(Seq<char>, Option<PaletteColor>)> {
    lit("\""@, c.key) + lit(k, c.key) + lit("\""@, c.key) + lit(": "@, c.colon)
}

/// The lines of the entries from `i` on of an object at depth `d`.
pub open spec fn object_pretty(entries: Vec<(String, JsonValue)>, c: Colors, d: nat, i: int) -> Seq<
    (Seq<char>, Option<PaletteColor>),
>
    decreases entries, entries@.len() - i,
{
    if i < 0 || i >= entries@.len() {
        Seq::empty()
    } else {
        bare(indentation(deeper(d))) + key_pieces(entries@[i].0@, c) + render(entries@[i].1, c, true, deeper(d)) + (
        if i + 1 < entries@.len() {
            lit(","@, c.comma) + bare("\n"@)
        } else {
            Seq::empty()
        }) + object_pretty(entries, c, d, i + 1)
    }
}

/// The entries from `i` on of an object on one line.
pub open spec fn object_compact(entries: Vec<(String, JsonValue)>, c: Colors, i: int) -> Seq<
    (Seq<char>, Option<PaletteColor>),
>
    decreases entries, entries@.len() - i,
{
    if i < 0 || i >= entries@.len() {
        Seq::empty()
    } else {
        key_pieces(entries@[i].0@, c) + render(entries@[i].1, c, false, 0) + (if i + 1 < entries@.len() {
            lit(", "@, c.comma)
        } else {
            Seq::empty()
        }) + object_compact(entries, c, i + 1)
    }
}

/// The pieces of entry `i` of an object on one line, with the separator
/// after it.
pub open spec fn entry_compact(entries: Vec<(String, JsonValue)>, c: Colors, i: int) -> Seq<
    (Seq<char>, Option<PaletteColor>),
> {
    key_pieces(entries@[i].0@, c) + render(entries@[i].1, c, false, 0) + (if i + 1 < entries@.len() {
        lit(", "@, c.comma)
    } else {
        Seq::empty()
    })
}

proof fn lemma_object_compact_flat(entries: Vec<(String, JsonValue)>, c: Colors, i: int)
    requires
        0 <= i <= entries@.len(),
    ensures
        object_compact(entries, c, i) == Seq::new(
            (entries@.len() - i) as nat,
            |j: int| entry_compact(entries, c, i + j),
        ).flatten(),
    decreases entries@.len() - i,
{
    let f = Seq::new((entries@.len() - i) as nat, |j: int| entry_compact(entries, c, i + j));
    if i < entries@.len() {
        lemma_object_compact_flat(entries, c, i + 1);
        let g = Seq::new((entries@.len() - (i + 1)) as nat, |j: int| entry_compact(entries, c, i + 1 + j));
        assert(f.drop_first() =~= g);
        assert(f.first() == entry_compact(entries, c, i));
        assert(object_compact(entries, c, i) =~= entry_compact(entries, c, i) + object_compact(entries, c, i + 1));
    } else {
        assert(f =~= Seq::<Seq<(Seq<char>, Option<PaletteColor>)>>::empty());
    }
}

/// An object rendered on one line shows each of its entries exactly once,
/// in the order of its entries, between its braces.
pub proof fn lemma_object_entries_in_order(entries: Vec<(String, JsonValue)>, c: Colors, d: nat)
    ensures
        render(JsonValue::Object(entries), c, false, d) == lit("{"@, c.braces) + Seq::new(
            entries@.len(),
            |j: int| entry_compact(entries, c, j),
        ).flatten() + lit("}"@, c.braces),
{
    lemma_object_compact_flat(entries, c, 0);
    assert(Seq::new((entries@.len() - 0) as nat, |j: int| entry_compact(entries, c, 0 + j)) =~= Seq::new(
        entries@.len(),
        |j: int| entry_compact(entries, c, j),
    ));
}

fn push_piece(out: &mut Vec<Piece>, text: String, color: Option<PaletteColor>)
    ensures
        pieces_view(final(out)@) == pieces_view(old(out)@) + seq![(text@, color)],
{
    let ghost t = text@;
    out.push(Piece { text, color });
    assert(pieces_view(out@) =~= pieces_view(old(out)@) + seq![(t, color)]);
}

fn push_lit(out: &mut Vec<Piece>, text: &str, color: PaletteColor)
    ensures
        pieces_view(final(out)@) == pieces_view(old(out)@) + lit(text@, color),
{
    push_piece(out, text.to_string(), Some(color));
}

fn push_bare(out: &mut Vec<Piece>, text: String)
    ensures
        pieces_view(final(out)@) == pieces_view(old(out)@) + bare(text@),
{
    push_piece(out, text, None);
}

fn indent_text(d: usize) -> (r: String)
    ensures
        r@ == indentation(d as nat),
{
    let mut s = String::new();
    let mut i: usize = 0;
    proof {
        reveal_strlit("  ");
    }
    while i < d
        invariant
            0 <= i <= d,
            s@ =~= Seq::new(2 * i as nat, |j: int| ' '),
        decreases d - i,
    {
        let ghost prior = s@;
        s.append("  ");
        proof {
            reveal_strlit("  ");
        }
        assert("  "@ =~= seq![' ', ' ']);
        assert(s@ =~= prior + seq![' ', ' ']);
        i = i + 1;
        assert(s@ =~= Seq::new(2 * i as nat, |j: int| ' '));
    }
    s
}

fn deeper_of(d: usize) -> (r: usize)
    ensures
        r as nat == deeper(d as nat),
{
    if d < usize::MAX {
        d + 1
    } else {
        d
    }
}

fn render_into(v: &JsonValue, c: &Colors, pretty: bool, d: usize, out: &mut Vec<Piece>)
    ensures
        pieces_view(final(out)@) == pieces_view(old(out)@) + render(*v, *c, pretty, d as nat),
    decreases v, 0int,
{
    match v {
        JsonValue::Null => push_lit(out, "null", c.null),
        JsonValue::Bool(b) => if *b {
            push_lit(out, "true", c.bool)
        } else {
            push_lit(out, "false", c.bool)
        },
        JsonValue::Number(n) => push_lit(out, n.as_str(), c.number),
        JsonValue::String(t) => {
            push_lit(out, "\"", c.string);
            push_lit(out, t.as_str(), c.string);
            push_lit(out, "\"", c.string);
            assert(pieces_view(out@) =~= pieces_view(old(out)@) + render(*v, *c, pretty, d as nat));
        },
        JsonValue::Array(items) => {
            if pretty && items.len() == 0 {
                push_lit(out, "[", c.brackets);
                push_lit(out, "]", c.brackets);
            } else if pretty {
                push_lit(out, "[", c.brackets);
                push_bare(out, "\n".to_string());
                array_pretty_into(items, c, d, out);
                push_bare(out, "\n".to_string());
                push_bare(out, indent_text(d));
                push_lit(out, "]", c.brackets);
            } else {
                push_lit(out, "[", c.brackets);
                array_compact_into(items, c, out);
                push_lit(out, "]", c.brackets);
            }
            assert(pieces_view(out@) =~= pieces_view(old(out)@) + render(*v, *c, pretty, d as nat));
        },
        JsonValue::Object(entries) => {
            if pretty && entries.len() == 0 {
                push_lit(out, "{", c.braces);
                push_lit(out, "}", c.braces);
            } else if pretty {
                push_lit(out, "{", c.braces);
                push_bare(out, "\n".to_string());
                object_pretty_into(entries, c, d, out);
                push_bare(out, "\n".to_string());
                push_bare(out, indent_text(d));
                push_lit(out, "}", c.braces);
            } else {
                push_lit(out, "{", c.braces);
                object_compact_into(entries, c, out);
                push_lit(out, "}", c.braces);
            }
            assert(pieces_view(out@) =~= pieces_view(old(out)@) + render(*v, *c, pretty, d as nat));
        },
    }
}

fn array_pretty_into(items: &Vec<JsonValue>, c: &Colors, d: usize, out: &mut Vec<Piece>)
    ensures
        pieces_view(final(out)@) == pieces_view(old(out)@) + array_pretty(*items, *c, d as nat, 0),
    decreases items, 1int,
{
    let n = items.len();
    let dn = deeper_of(d);
    let mut i: usize = 0;
    assert(pieces_view(out@) + array_pretty(*items, *c, d as nat, 0) =~= pieces_view(old(out)@)
        + array_pretty(*items, *c, d as nat, 0));
    while i < n
        invariant
            n == items@.len(),
            dn as nat == deeper(d as nat),
            0 <= i <= n,
            pieces_view(out@) + array_pretty(*items, *c, d as nat, i as int) == pieces_view(old(out)@)
                + array_pretty(*items, *c, d as nat, 0),
        decreases n - i,
    {
        let ghost before = pieces_view(out@);
        push_bare(out, indent_text(dn));
        render_into(&items[i], c, true, dn, out);
        if i + 1 < n {
            push_lit(out, ",", c.comma);
            push_bare(out, "\n".to_string());
        }
        assert(pieces_view(out@) + array_pretty(*items, *c, d as nat, i + 1) =~= before + array_pretty(
            *items,
            *c,
            d as nat,
            i as int,
        ));
        i = i + 1;
    }
    assert(array_pretty(*items, *c, d as nat, n as int) =~= Seq::empty());
    assert(pieces_view(out@) =~= pieces_view(out@) + array_pretty(*items, *c, d as nat, n as int));
}

fn array_compact_into(items: &Vec<JsonValue>, c: &Colors, out: &mut Vec<Piece>)
    ensures
        pieces_view(final(out)@) == pieces_view(old(out)@) + array_compact(*items, *c, 0),
    decreases items, 1int,
{
    let n = items.len();
    let mut i: usize = 0;
    while i < n
        invariant
            n == items@.len(),
            0 <= i <= n,
            pieces_view(out@) + array_compact(*items, *c, i as int) == pieces_view(old(out)@)
                + array_compact(*items, *c, 0),
        decreases n - i,
    {
        let ghost before = pieces_view(out@);
        render_into(&items[i], c, false, 0, out);
        if i + 1 < n {
            push_lit(out, ", ", c.comma);
        }
        assert(pieces_view(out@) + array_compact(*items, *c, i + 1) =~= before + array_compact(
            *items,
            *c,
            i as int,
        ));
        i = i + 1;
    }
    assert(pieces_view(out@) =~= pieces_view(out@) + array_compact(*items, *c, n as int));
}

fn object_pretty_into(entries: &Vec<(String, JsonValue)>, c: &Colors, d: usize, out: &mut Vec<Piece>)
    ensures
        pieces_view(final(out)@) == pieces_view(old(out)@) + object_pretty(*entries, *c, d as nat, 0),
    decreases entries, 1int,
{
    let n = entries.len();
    let dn = deeper_of(d);
    let mut i: usize = 0;
    while i < n
        invariant
            n == entries@.len(),
            dn as nat == deeper(d as nat),
            0 <= i <= n,
            pieces_view(out@) + object_pretty(*entries, *c, d as nat, i as int) == pieces_view(old(out)@)
                + object_pretty(*entries, *c, d as nat, 0),
        decreases n - i,
    {
        let ghost before = pieces_view(out@);
        push_bare(out, indent_text(dn));
        push_key(out, entries[i].0.as_str(), c);
        render_into(&entries[i].1, c, true, dn, out);
        if i + 1 < n {
            push_lit(out, ",", c.comma);
            push_bare(out, "\n".to_string());
        }
        assert(pieces_view(out@) + object_pretty(*entries, *c, d as nat, i + 1) =~= before
            + object_pretty(*entries, *c, d as nat, i as int));
        i = i + 1;
    }
    assert(pieces_view(out@) =~= pieces_view(out@) + object_pretty(*entries, *c, d as nat, n as int));
}

fn object_compact_into(entries: &Vec<(String, JsonValue)>, c: &Colors, out: &mut Vec<Piece>)
    ensures
        pieces_view(final(out)@) == pieces_view(old(out)@) + object_compact(*entries, *c, 0),
    decreases entries, 1int,
{
    let n = entries.len();
    let mut i: usize = 0;
    while i < n
        invariant
            n == entries@.len(),
            0 <= i <= n,
            pieces_view(out@) + object_compact(*entries, *c, i as int) == pieces_view(old(out)@)
                + object_compact(*entries, *c, 0),
        decreases n - i,
    {
        let ghost before = pieces_view(out@);
        push_key(out, entries[i].0.as_str(), c);
        render_into(&entries[i].1, c, false, 0, out);
        if i + 1 < n {
            push_lit(out, ", ", c.comma);
        }
        assert(pieces_view(out@) + object_compact(*entries, *c, i + 1) =~= before + object_compact(
            *entries,
            *c,
            i as int,
        ));
        i = i + 1;
    }
    assert(pieces_view(out@) =~= pieces_view(out@) + object_compact(*entries, *c, n as int));
}

fn push_key(out: &mut Vec<Piece>, k: &str, c: &Colors)
    ensures
        pieces_view(final(out)@) == pieces_view(old(out)@) + key_pieces(k@, *c),
{
    push_lit(out, "\"", c.key);
    push_lit(out, k, c.key);
    push_lit(out, "\"", c.key);
    push_lit(out, ": ", c.colon);
    assert(pieces_view(out@) =~= pieces_view(old(out)@) + key_pieces(k@, *c));
}

/// The text of a run of pieces, without their colors.
pub open spec fn joined(s: Seq<(Seq<char>, Option<PaletteColor>)>) -> Seq<char>
    decreases s.len(),
{
    if s.len() == 0 {
        Seq::empty()
    } else {
        joined(s.drop_last()) + s.last().0
    }
}

/// The text of the pieces, without their colors.
pub fn plain_text(pieces: &Vec<Piece>) -> (r: String)
    ensures
        r@ == joined(pieces_view(pieces@)),
{
    let mut r = String::new();
    let mut i: usize = 0;
    while i < pieces.len()
        invariant
            0 <= i <= pieces@.len(),
            r@ == joined(pieces_view(pieces@).subrange(0, i as int)),
        decreases pieces@.len() - i,
    {
        proof {
            let s = pieces_view(pieces@);
            assert(s.subrange(0, i + 1).drop_last() =~= s.subrange(0, i as int));
        }
        r.append(pieces[i].text.as_str());
        i = i + 1;
    }
    assert(pieces_view(pieces@).subrange(0, i as int) =~= pieces_view(pieces@));
    r
}

/// A value to render with a palette, at a depth of nesting.
pub struct ColoredValue<'a> {
    colors: &'a Colors,
    value: &'a JsonValue,
    indent: usize,
}

impl<'a> ColoredValue<'a> {
    pub closed spec fn palette(&self) -> Colors {
        *self.colors
    }

    pub closed spec fn value(&self) -> JsonValue {
        *self.value
    }

    pub closed spec fn depth(&self) -> nat {
        self.indent as nat
    }

    pub fn new(colors: &'a Colors, value: &'a JsonValue) -> (r: Self)
        ensures
            r.palette() == *colors,
            r.value() == *value,
            r.depth() == 0,
    {
        ColoredValue { colors, value, indent: 0 }
    }

    /// An element of this value, one level deeper.
    pub fn nest(&self, value: &'a JsonValue) -> (r: Self)
        ensures
            r.palette() == self.palette(),
            r.value() == *value,
            r.depth() == deeper(self.depth()),
    {
        ColoredValue { colors: self.colors, value, indent: deeper_of(self.indent) }
    }

    /// The pieces of the value, on one line or, where `pretty`, with each
    /// element on a line of its own.
    pub fn render(&self, pretty: bool) -> (r: Vec<Piece>)
        ensures
            pieces_view(r@) == render(self.value(), self.palette(), pretty, self.depth()),
    {
        let mut out: Vec<Piece> = Vec::new();
        render_into(self.value, self.colors, pretty, self.indent, &mut out);
        assert(pieces_view(Seq::<Piece>::empty()) =~= Seq::empty());
        assert(Seq::<(Seq<char>, Option<PaletteColor>)>::empty() + render(self.value(), self.palette(), pretty, self.depth())
            =~= render(self.value(), self.palette(), pretty, self.depth()));
        out
    }

    /// The text of the value without colors.
    pub fn to_plain(&self, pretty: bool) -> (r: String)
        ensures
            r@ == joined(render(self.value(), self.palette(), pretty, self.depth())),
    {
        let pieces = self.render(pretty);
        plain_text(&pieces)
    }
}

} // verus!
