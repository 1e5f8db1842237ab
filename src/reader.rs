//! Reading a scheme's markup one element at a time and turning it into
//! declarations of colors and attributes.

use vstd::prelude::*;

use quick_xml::events::{BytesStart, Event};
use quick_xml::Reader;

use crate::attribute::{empty_data, same_text, set_field, AttributeView, JBAttribute, JBAttributeData};
use crate::color::{decode_hex, Color};
use crate::theme::{EventView, JBColorSchemeType, SchemeError};

verus! {

/// `quick_xml::Reader`, the markup reader, carried through without being
/// looked into.
#[verifier::external_type_specification]
#[verifier::external_body]
#[verifier::reject_recursive_types(R)]
pub struct ExReader<R>(Reader<R>);

/// `quick_xml::events::BytesStart`, an opening or self-closing tag.
#[verifier::external_type_specification]
#[verifier::external_body]
pub struct ExBytesStart<'a>(BytesStart<'a>);

/// An element tag with the attributes that a scheme reads.
pub struct Tag {
    pub name: String,
    pub attr_name: Option<String>,
    pub attr_value: Option<String>,
    pub attr_base: Option<String>,
}

pub struct TagView {
    pub name: Seq<char>,
    pub attr_name: Option<Seq<char>>,
    pub attr_value: Option<Seq<char>>,
    pub attr_base: Option<Seq<char>>,
}

pub open spec fn text_view(o: Option<String>) -> Option<Seq<char>> {
    match o {
        Some(s) => Some(s@),
        None => None,
    }
}

impl View for Tag {
    type V = TagView;

    open spec fn view(&self) -> TagView {
        TagView {
            name: self.name@,
            attr_name: text_view(self.attr_name),
            attr_value: text_view(self.attr_value),
            attr_base: text_view(self.attr_base),
        }
    }
}

/// One step of the markup: an opening, closing or self-closing tag, the end
/// of the text, or anything else.
pub enum Markup {
    Start(Tag),
    End(String),
    Empty(Tag),
    Eof,
    Other,
}

pub enum MarkupView {
    Start(TagView),
    End(Seq<char>),
    Empty(TagView),
    Eof,
    Other,
}

impl View for Markup {
    type V = MarkupView;

    open spec fn view(&self) -> MarkupView {
        match self {
            Markup::Start(t) => MarkupView::Start(t@),
            Markup::End(n) => MarkupView::End(n@),
            Markup::Empty(t) => MarkupView::Empty(t@),
            Markup::Eof => MarkupView::Eof,
            Markup::Other => MarkupView::Other,
        }
    }
}

/// The steps of markup that `quick_xml::Reader` reads from `text`, each
/// taken as a `Markup`, up to and including the first end of the text, or
/// up to the first error.
pub uninterp spec fn markup_of(text: Seq<char>) -> Seq<MarkupView>;

/// Whether `quick_xml::Reader` meets an error in `text` before its end.
pub uninterp spec fn markup_fails(text: Seq<char>) -> bool;

/// Whether the end of the text comes only last in `ms`, and not at all
/// where the reading fails.
pub open spec fn eof_only_last(ms: Seq<MarkupView>, fails: bool) -> bool {
    forall|i: int| 0 <= i < ms.len() && (fails || i + 1 < ms.len()) ==> !(#[trigger] ms[i] is Eof)
}

/// The markup reader over one text, with the steps of markup it has still
/// to hand out.
pub struct MarkupSource<'a> {
    reader: Reader<&'a [u8]>,
    rest: Ghost<Seq<MarkupView>>,
    fails: Ghost<bool>,
    spent: Ghost<bool>,
}

impl<'a> MarkupSource<'a> {
    /// The steps still to be read.
    pub closed spec fn rest(&self) -> Seq<MarkupView> {
        self.rest@
    }

    /// Whether the reading ends in an error instead of the end of the text.
    pub closed spec fn fails(&self) -> bool {
        self.fails@
    }

    /// Whether the error has been handed out.
    pub closed spec fn spent(&self) -> bool {
        self.spent@
    }
}

/// Relies on `quick_xml::Reader::from_str`: a reader at the start of the
/// text, from which `read_markup` hands out the steps `markup_of` names.
#[verifier::external_body]
fn markup_source<'a>(src: &'a str) -> (r: MarkupSource<'a>)
    ensures
        r.rest() == markup_of(src@),
        r.fails() == markup_fails(src@),
        !r.spent(),
        eof_only_last(r.rest(), r.fails()),
{
    MarkupSource {
        reader: Reader::from_str(src),
        rest: Ghost(markup_of(src@)),
        fails: Ghost(markup_fails(src@)),
        spent: Ghost(false),
    }
}

/// Relies on `quick_xml::events::BytesStart::name` and `try_get_attribute`:
/// the tag's name and the raw values of its attributes `name`, `value` and
/// `baseAttributes`, one that cannot be read counting as absent.
#[verifier::external_body]
fn tag_of(e: &BytesStart) -> Tag {
    let get = |k: &str| e.try_get_attribute(k).ok().flatten().map(|a| a.value.into_owned());
    Tag {
        name: e.name().as_ref().to_string(),
        attr_name: get("name"),
        attr_value: get("value"),
        attr_base: get("baseAttributes"),
    }
}

/// Relies on `quick_xml::Reader::read_event`: the next step of the markup;
/// after the end of the text, the end again; where the reading fails, the
/// error once all steps before it are out.
#[verifier::external_body]
fn read_markup(src: &mut MarkupSource) -> (r: Result<Markup, SchemeError>)
    requires
        !old(src).spent(),
    ensures
        final(src).fails() == old(src).fails(),
        r matches Err(e) ==> e == SchemeError::Malformed,
        old(src).rest().len() > 0 ==> (r matches Ok(m) && m@ == old(src).rest()[0]) && final(src).rest()
            == old(src).rest().drop_first() && !final(src).spent(),
        old(src).rest().len() == 0 && old(src).fails() ==> r is Err && final(src).rest().len() == 0
            && final(src).spent(),
        old(src).rest().len() == 0 && !old(src).fails() ==> (r matches Ok(m) && m is Eof)
            && final(src).rest().len() == 0 && !final(src).spent(),
{
    match src.reader.read_event() {
        Ok(Event::Start(e)) => Ok(Markup::Start(tag_of(&e))),
        Ok(Event::End(e)) => Ok(Markup::End(e.name().as_ref().to_string())),
        Ok(Event::Empty(e)) => Ok(Markup::Empty(tag_of(&e))),
        Ok(Event::Eof) => Ok(Markup::Eof),
        Ok(_) => Ok(Markup::Other),
        Err(_) => Err(SchemeError::Malformed),
    }
}

/// Where the reader stands: inside `colors`, inside `attributes`, and the
/// attribute being declared, with its name.
pub struct ReaderState {
    pub in_colors: bool,
    pub in_attributes: bool,
    pub option: Option<Seq<char>>,
    pub attribute: Option<AttributeView>,
}

pub open spec fn initial_state() -> ReaderState {
    ReaderState { in_colors: false, in_attributes: false, option: None, attribute: None }
}

/// The state after one step of markup, and the declaration it completes.
pub open spec fn step(s: ReaderState, m: MarkupView) -> (ReaderState, Option<EventView>) {
    match m {
        MarkupView::Start(t) => if t.name == "colors"@ {
            (ReaderState { in_colors: true, ..s }, None)
        } else if t.name == "attributes"@ {
            (ReaderState { in_attributes: true, ..s }, None)
        } else if t.name == "option"@ && s.in_attributes {
            match t.attr_name {
                Some(n) => (
                    ReaderState {
                        option: Some(n),
                        attribute: Some(AttributeView::Data(empty_data())),
                        ..s
                    },
                    None,
                ),
                None => (s, None),
            }
        } else {
            (s, None)
        },
        MarkupView::End(n) => if n == "colors"@ {
            (ReaderState { in_colors: false, ..s }, None)
        } else if n == "attributes"@ {
            (ReaderState { in_attributes: false, ..s }, None)
        } else if n == "option"@ && s.in_attributes {
            let cleared = ReaderState { option: None, attribute: None, ..s };
            match (s.option, s.attribute) {
                (Some(o), Some(a)) => (cleared, Some(EventView::Attribute(o, a))),
                _ => (cleared, None),
            }
        } else {
            (s, None)
        },
        MarkupView::Empty(t) => if t.name == "option"@ && s.in_colors {
            match (t.attr_name, t.attr_value) {
                (Some(n), Some(v)) => if decode_hex(v).is_some() {
                    (s, Some(EventView::Color(n, v)))
                } else {
                    (s, None)
                },
                _ => (s, None),
            }
        } else if t.name == "option"@ && s.in_attributes && s.option.is_none() {
            match (t.attr_name, t.attr_base) {
                (Some(n), Some(b)) => (s, Some(EventView::Attribute(n, AttributeView::BaseAttribute(b)))),
                _ => (s, None),
            }
        } else if t.name == "option"@ && s.in_attributes {
            match (s.attribute, t.attr_name, t.attr_value) {
                (Some(AttributeView::Data(d)), Some(k), Some(v)) => (
                    ReaderState { attribute: Some(AttributeView::Data(set_field(d, k, v))), ..s },
                    None,
                ),
                _ => (s, None),
            }
        } else {
            (s, None)
        },
        MarkupView::Eof => (s, None),
        MarkupView::Other => (s, None),
    }
}

pub open spec fn as_events(e: Option<EventView>) -> Seq<EventView> {
    match e {
        Some(e) => seq![e],
        None => Seq::empty(),
    }
}

/// The state after a run of markup, and the declarations it completes.
pub open spec fn run(s: ReaderState, ms: Seq<MarkupView>) -> (ReaderState, Seq<EventView>)
    decreases ms.len(),
{
    if ms.len() == 0 {
        (s, Seq::empty())
    } else {
        let (s1, es) = run(s, ms.drop_last());
        let (s2, e) = step(s1, ms.last());
        (s2, es + as_events(e))
    }
}

/// Running two pieces of markup one after the other is running them joined.
pub proof fn lemma_run_append(s: ReaderState, a: Seq<MarkupView>, b: Seq<MarkupView>)
    ensures
        run(s, a + b) == (run(run(s, a).0, b).0, run(s, a).1 + run(run(s, a).0, b).1),
    decreases b.len(),
{
    if b.len() == 0 {
        assert(a + b =~= a);
        assert(run(s, a).1 + Seq::<EventView>::empty() =~= run(s, a).1);
    } else {
        lemma_run_append(s, a, b.drop_last());
        assert((a + b).drop_last() =~= a + b.drop_last());
        let (s1, es1) = run(run(s, a).0, b.drop_last());
        let (s2, e) = step(s1, b.last());
        assert(run(s, a).1 + es1 + as_events(e) =~= run(s, a).1 + (es1 + as_events(e)));
    }
}

/// A self-closing `option` element with neither a `value` nor a
/// `baseAttributes` attribute completes nothing and leaves the state as it
/// was, so the rest of the markup reads as if it were not there.
pub proof fn lemma_option_without_value_skipped(s: ReaderState, t: TagView, rest: Seq<MarkupView>)
    requires
        t.name == "option"@,
        t.attr_value is None,
        t.attr_base is None,
    ensures
        step(s, MarkupView::Empty(t)) == (s, None::<EventView>),
        run(s, seq![MarkupView::Empty(t)] + rest) == run(s, rest),
{
    let m = seq![MarkupView::Empty(t)];
    assert(m.drop_last() =~= Seq::<MarkupView>::empty());
    assert(m.last() == MarkupView::Empty(t));
    assert(run(s, m.drop_last()) == (s, Seq::<EventView>::empty()));
    assert(step(s, MarkupView::Empty(t)) == (s, None::<EventView>));
    assert(run(s, m) == (s, Seq::<EventView>::empty() + as_events(None)));
    assert(Seq::<EventView>::empty() + as_events(None) =~= Seq::<EventView>::empty());
    lemma_run_append(s, m, rest);
    assert(Seq::<EventView>::empty() + run(s, rest).1 =~= run(s, rest).1);
}

pub open spec fn event_view(e: Option<JBColorSchemeType>) -> Option<EventView> {
    match e {
        Some(e) => Some(e@),
        None => None,
    }
}

/// What one call of `next` hands out, as declarations.
pub open spec fn handed_out(r: Option<Result<JBColorSchemeType, SchemeError>>) -> Seq<EventView> {
    match r {
        Some(Ok(e)) => seq![e@],
        _ => Seq::empty(),
    }
}

/// A reader of the declarations in one scheme text, produced on demand.
pub struct JBColorSchemeReader<'a> {
    in_colors: bool,
    in_attributes: bool,
    attribute: Option<JBAttribute>,
    option: Option<String>,
    source: MarkupSource<'a>,
    /// Whether the error that ends the reading has been handed out.
    stopped: bool,
}

impl<'a> JBColorSchemeReader<'a> {
    pub closed spec fn state(&self) -> ReaderState {
        ReaderState {
            in_colors: self.in_colors,
            in_attributes: self.in_attributes,
            option: text_view(self.option),
            attribute: match self.attribute {
                Some(a) => Some(a@),
                None => None,
            },
        }
    }

    /// Whether the reading has ended in an error.
    pub closed spec fn halted(&self) -> bool {
        self.stopped
    }

    /// The steps of markup still to be read.
    pub closed spec fn rest(&self) -> Seq<MarkupView> {
        self.source.rest()
    }

    /// Whether the reading of the text ends in an error.
    pub closed spec fn fails(&self) -> bool {
        self.source.fails()
    }

    /// The attribute being declared, if any, declares data; the end of the
    /// text comes only last in what is left of the markup.
    pub closed spec fn wf(&self) -> bool {
        &&& match self.attribute {
            Some(a) => a is Data,
            None => true,
        }
        &&& eof_only_last(self.source.rest(), self.source.fails())
        &&& self.stopped == self.source.spent()
        &&& self.stopped ==> self.source.rest().len() == 0 && self.source.fails()
    }

    pub fn from_str(src: &'a str) -> (r: Self)
        ensures
            r.state() == initial_state(),
            r.rest() == markup_of(src@),
            r.fails() == markup_fails(src@),
            r.wf(),
    {
        JBColorSchemeReader {
            in_colors: false,
            in_attributes: false,
            option: None,
            attribute: None,
            source: markup_source(src),
            stopped: false,
        }
    }

    /// Takes one step of markup: `None` at the end of the text, else the
    /// declaration that the step completes, if any.
    pub fn handle_event(&mut self, m: Markup) -> (r: Option<Option<JBColorSchemeType>>)
        requires
            old(self).wf(),
        ensures
            final(self).wf(),
            final(self).rest() == old(self).rest(),
            final(self).fails() == old(self).fails(),
            final(self).halted() == old(self).halted(),
            m is Eof ==> r is None && final(self).state() == old(self).state(),
            !(m is Eof) ==> r is Some && (final(self).state(), event_view(r.unwrap())) == step(
                old(self).state(),
                m@,
            ),
    {
        match m {
            Markup::Start(t) => {
                if same_text(t.name.as_str(), "colors") {
                    self.in_colors = true;
                } else if same_text(t.name.as_str(), "attributes") {
                    self.in_attributes = true;
                } else if same_text(t.name.as_str(), "option") && self.in_attributes {
                    match t.attr_name {
                        Some(n) => {
                            self.option = Some(n);
                            self.attribute = Some(JBAttribute::Data(JBAttributeData::default()));
                        },
                        None => {},
                    }
                }
            },
            Markup::End(n) => {
                if same_text(n.as_str(), "colors") {
                    self.in_colors = false;
                } else if same_text(n.as_str(), "attributes") {
                    self.in_attributes = false;
                } else if same_text(n.as_str(), "option") && self.in_attributes {
                    let o = self.option.take();
                    let a = self.attribute.take();
                    match (o, a) {
                        (Some(o), Some(a)) => {
                            return Some(Some(JBColorSchemeType::Attribute(o, a)));
                        },
                        _ => {},
                    }
                }
            },
            Markup::Empty(t) => {
                if same_text(t.name.as_str(), "option") && self.in_colors {
                    match (t.attr_name, t.attr_value) {
                        (Some(n), Some(v)) => {
                            let c = Color(v);
                            if c.as_hex().is_some() {
                                return Some(Some(JBColorSchemeType::Color(n, c)));
                            }
                        },
                        _ => {},
                    }
                } else if same_text(t.name.as_str(), "option") && self.in_attributes
                    && self.option.is_none() {
                    match (t.attr_name, t.attr_base) {
                        (Some(n), Some(b)) => {
                            return Some(
                                Some(JBColorSchemeType::Attribute(n, JBAttribute::BaseAttribute(b))),
                            );
                        },
                        _ => {},
                    }
                } else if same_text(t.name.as_str(), "option") && self.in_attributes {
                    match (self.attribute.take(), t.attr_name, t.attr_value) {
                        (Some(mut a), Some(k), Some(v)) => {
                            a.set(k.as_str(), v.as_str());
                            self.attribute = Some(a);
                        },
                        (a, _, _) => {
                            self.attribute = a;
                        },
                    }
                }
            },
            Markup::Eof => {
                return None;
            },
            Markup::Other => {},
        }
        Some(None)
    }

    /// The next declaration of the text, `None` at its end, or the error
    /// that stops the reading. The steps of markup read in this call are
    /// the first ones left, and they complete exactly what is handed out.
    pub fn next(&mut self) -> (r: Option<Result<JBColorSchemeType, SchemeError>>)
        requires
            old(self).wf(),
        ensures
            final(self).wf(),
            final(self).fails() == old(self).fails(),
            exists|k: int|
                0 <= k <= old(self).rest().len() && final(self).rest() == old(self).rest().subrange(
                    k,
                    old(self).rest().len() as int,
                ) && run(old(self).state(), old(self).rest().subrange(0, k)) == (
                    final(self).state(),
                    handed_out(r),
                ),
            r is None ==> final(self).rest().len() == 0 && !final(self).fails(),
            r matches Some(Err(e)) ==> final(self).rest().len() == 0 && final(self).fails() && e
                == SchemeError::Malformed,
            r matches Some(Ok(_)) ==> final(self).rest().len() < old(self).rest().len(),
    {
        let ghost s0 = self.state();
        let ghost r0 = self.rest();
        let ghost mut k: int = 0;
        assert(r0.subrange(0, 0) =~= Seq::<MarkupView>::empty());
        assert(r0.subrange(0, r0.len() as int) =~= r0);
        if self.stopped {
            let r = Some(Err(SchemeError::Malformed));
            assert(run(s0, r0.subrange(0, k)) == (self.state(), handed_out(r)));
            return r;
        }
        loop
            invariant
                self.wf(),
                !self.stopped,
                s0 == old(self).state(),
                r0 == old(self).rest(),
                self.fails() == old(self).fails(),
                0 <= k <= r0.len(),
                self.rest() == r0.subrange(k, r0.len() as int),
                run(s0, r0.subrange(0, k)) == (self.state(), Seq::<EventView>::empty()),
            decreases self.rest().len(),
        {
            let ghost rest0 = self.rest();
            let m = match read_markup(&mut self.source) {
                Ok(m) => m,
                Err(e) => {
                    self.stopped = true;
                    let r = Some(Err(e));
                    assert(self.rest() =~= r0.subrange(k, r0.len() as int));
                    assert(run(s0, r0.subrange(0, k)) == (self.state(), handed_out(r)));
                    return r;
                },
            };
            let ghost mv = m@;
            let ghost took = rest0.len() > 0;
            proof {
                if took {
                    assert(mv == r0[k]);
                    assert(self.rest() =~= r0.subrange(k + 1, r0.len() as int));
                    assert(r0.subrange(0, k + 1).drop_last() =~= r0.subrange(0, k));
                    k = k + 1;
                } else {
                    assert(mv is Eof);
                }
            }
            let h = self.handle_event(m);
            match h {
                None => {
                    proof {
                        if took {
                            assert(rest0[0] is Eof);
                            assert(rest0.len() == 1);
                        }
                    }
                    assert(Seq::<EventView>::empty() + as_events(None) =~= Seq::<EventView>::empty());
                    assert(self.rest().len() == 0);
                    assert(self.rest() =~= r0.subrange(k, r0.len() as int));
                    assert(run(s0, r0.subrange(0, k)) == (self.state(), handed_out(None)));
                    return None;
                },
                Some(Some(e)) => {
                    assert(took);
                    assert(Seq::<EventView>::empty() + seq![e@] =~= seq![e@]);
                    let r = Some(Ok(e));
                    assert(run(s0, r0.subrange(0, k)) == (self.state(), handed_out(r)));
                    return r;
                },
                Some(None) => {
                    assert(took);
                    assert(Seq::<EventView>::empty() + Seq::<EventView>::empty() =~= Seq::<EventView>::empty());
                    proof {
                        let rr = self.rest();
                        assert forall|i: int| 0 <= i < rr.len() && (self.fails() || i + 1 < rr.len()) implies !(#[trigger] rr[i] is Eof) by {
                            assert(rr[i] == rest0[i + 1]);
                        }
                    }
                },
            }
        }
    }
}

} // verus!
