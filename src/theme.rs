//! A color scheme: its named colors and attributes, in the order in which
//! they were first declared, and the resolution of inherited attributes.

use vstd::prelude::*;

use indexmap::IndexMap;

use crate::attribute::{AttributeView, DataView};
pub use crate::attribute::{EffectType, FontType, JBAttribute, JBAttributeData};
pub use crate::reader::JBColorSchemeReader;
use crate::color::Color;
use crate::reader::{
    handed_out, initial_state, lemma_run_append, markup_fails, markup_of, run, MarkupView,
};
use crate::table::{
    attribute_at, attribute_count, attribute_entries, color_at, color_count, color_entries,
    get_attribute_entry, get_color, index_of, insert_attribute, insert_color, insert_entry,
    lemma_index_of, lemma_insert_entry, new_attribute_table, new_color_table,
};

verus! {

/// Why a scheme could not be read or an attribute not resolved.
#[derive(Clone, Copy, Debug, PartialEq, Eq, Structural)]
pub enum SchemeError {
    /// The text is not well-formed markup.
    Malformed,
    /// An attribute inherits, through its bases, from itself.
    CyclicInheritance,
}

/// One declaration that a scheme's text makes.
pub enum JBColorSchemeType {
    Color(String, Color),
    Attribute(String, JBAttribute),
}

pub enum EventView {
    Color(Seq<char>, Seq<char>),
    Attribute(Seq<char>, AttributeView),
}

impl View for JBColorSchemeType {
    type V = EventView;

    open spec fn view(&self) -> EventView {
        match self {
            JBColorSchemeType::Color(n, c) => EventView::Color(n@, c@),
            JBColorSchemeType::Attribute(n, a) => EventView::Attribute(n@, a@),
        }
    }
}

/// The two tables of a scheme, each an ordered sequence of entries.
pub struct SchemeView {
    pub colors: Seq<(Seq<char>, Seq<char>)>,
    pub attributes: Seq<(Seq<char>, AttributeView)>,
}

/// The tables of a scheme that has read nothing.
pub open spec fn empty_scheme() -> SchemeView {
    SchemeView { colors: Seq::empty(), attributes: Seq::empty() }
}

/// The tables after one more declaration.
pub open spec fn apply_event(s: SchemeView, e: EventView) -> SchemeView {
    match e {
        EventView::Color(n, c) => SchemeView { colors: insert_entry(s.colors, n, c), ..s },
        EventView::Attribute(n, a) => SchemeView { attributes: insert_entry(s.attributes, n, a), ..s },
    }
}

/// The tables after a run of declarations, in order.
pub open spec fn apply_events(s: SchemeView, es: Seq<EventView>) -> SchemeView
    decreases es.len(),
{
    if es.len() == 0 {
        s
    } else {
        apply_event(apply_events(s, es.drop_last()), es.last())
    }
}

/// What the attribute `name` comes to when each base is followed, looking
/// up at most `fuel` names.
pub open spec fn resolve(
    attrs: Seq<(Seq<char>, AttributeView)>,
    name: Seq<char>,
    fuel: nat,
) -> Result<Option<DataView>, SchemeError>
    decreases fuel,
{
    if fuel == 0 {
        Err(SchemeError::CyclicInheritance)
    } else {
        match index_of(attrs, name) {
            None => Ok(None),
            Some(i) => match attrs[i].1 {
                AttributeView::Data(d) => Ok(Some(d)),
                AttributeView::Empty => Ok(None),
                AttributeView::BaseAttribute(b) => resolve(attrs, b, (fuel - 1) as nat),
            },
        }
    }
}

/// What the attribute `name` comes to in the table `attrs`. Following more
/// bases than there are entries means that some name came back.
pub open spec fn resolved(attrs: Seq<(Seq<char>, AttributeView)>, name: Seq<char>) -> Result<
    Option<DataView>,
    SchemeError,
> {
    resolve(attrs, name, attrs.len() + 1)
}

/// The attributes of the first `k` entries that resolve to data, with that
/// data, in order.
pub open spec fn resolved_prefix(attrs: Seq<(Seq<char>, AttributeView)>, k: int) -> Seq<
    (Seq<char>, DataView),
>
    decreases k,
{
    if k <= 0 {
        Seq::empty()
    } else {
        let rest = resolved_prefix(attrs, k - 1);
        match resolved(attrs, attrs[k - 1].0) {
            Ok(Some(d)) => rest.push((attrs[k - 1].0, d)),
            _ => rest,
        }
    }
}

/// Declaring again a color that is already declared changes its value and
/// keeps its place: every other entry, and the number of entries, stay.
pub proof fn lemma_redeclared_color_keeps_place(s: SchemeView, name: Seq<char>, color: Seq<char>)
    requires
        index_of(s.colors, name) is Some,
    ensures
        ({
            let t = apply_event(s, EventView::Color(name, color));
            let i = index_of(s.colors, name)->Some_0;
            &&& t.colors.len() == s.colors.len()
            &&& t.colors[i] == (name, color)
            &&& index_of(t.colors, name) == Some(i)
            &&& forall|j: int| 0 <= j < s.colors.len() && j != i ==> t.colors[j] == s.colors[j]
            &&& t.attributes == s.attributes
        }),
{
    let t = apply_event(s, EventView::Color(name, color));
    let i = index_of(s.colors, name)->Some_0;
    lemma_index_of(s.colors, name);
    lemma_index_of(t.colors, name);
}

/// The value last declared for the color `name` in a run of declarations.
pub open spec fn last_color(es: Seq<EventView>, name: Seq<char>) -> Option<Seq<char>>
    decreases es.len(),
{
    if es.len() == 0 {
        None
    } else {
        match es.last() {
            EventView::Color(n, c) => if n == name {
                Some(c)
            } else {
                last_color(es.drop_last(), name)
            },
            _ => last_color(es.drop_last(), name),
        }
    }
}

/// A color already declared keeps its place through any run of further
/// declarations, and ends with the value declared for it last in the run,
/// if the run declares it again.
pub proof fn lemma_colors_keep_place(s: SchemeView, es: Seq<EventView>, name: Seq<char>)
    requires
        index_of(s.colors, name) is Some,
    ensures
        index_of(apply_events(s, es).colors, name) == index_of(s.colors, name),
        apply_events(s, es).colors[index_of(s.colors, name)->Some_0].1 == match last_color(es, name) {
            Some(c) => c,
            None => s.colors[index_of(s.colors, name)->Some_0].1,
        },
    decreases es.len(),
{
    lemma_index_of(s.colors, name);
    if es.len() > 0 {
        lemma_colors_keep_place(s, es.drop_last(), name);
        let t0 = apply_events(s, es.drop_last());
        match es.last() {
            EventView::Color(n, c) => {
                lemma_insert_entry(t0.colors, n, c, name);
            },
            _ => {},
        }
    }
}

/// An attribute declared as inheriting from `base`, where `base` is then
/// declared with data, resolves to that data.
pub proof fn lemma_inherits_later_data(s: SchemeView, name: Seq<char>, base: Seq<char>, data: DataView)
    requires
        name != base,
    ensures
        ({
            let t = apply_event(
                apply_event(s, EventView::Attribute(name, AttributeView::BaseAttribute(base))),
                EventView::Attribute(base, AttributeView::Data(data)),
            );
            resolved(t.attributes, name) == Ok::<Option<DataView>, SchemeError>(Some(data))
        }),
{
    let s1 = apply_event(s, EventView::Attribute(name, AttributeView::BaseAttribute(base)));
    let t = apply_event(s1, EventView::Attribute(base, AttributeView::Data(data)));
    lemma_insert_entry(s.attributes, name, AttributeView::BaseAttribute(base), name);
    lemma_insert_entry(s1.attributes, base, AttributeView::Data(data), name);
    lemma_insert_entry(s1.attributes, base, AttributeView::Data(data), base);
    lemma_index_of(t.attributes, name);
    lemma_index_of(t.attributes, base);
    let i = index_of(t.attributes, name)->Some_0;
    let k = index_of(t.attributes, base)->Some_0;
    assert(t.attributes[i].1 == AttributeView::BaseAttribute(base));
    assert(t.attributes[k].1 == AttributeView::Data(data));
    assert(t.attributes.len() >= 2);
    reveal_with_fuel(resolve, 2);
}

/// An attribute that reaches data through three inheritances in a row
/// resolves to that data.
pub proof fn lemma_three_hops_resolve(
    attrs: Seq<(Seq<char>, AttributeView)>,
    a: Seq<char>,
    b: Seq<char>,
    c: Seq<char>,
    e: Seq<char>,
    data: DataView,
)
    requires
        index_of(attrs, a) matches Some(i) && attrs[i].1 == AttributeView::BaseAttribute(b),
        index_of(attrs, b) matches Some(i) && attrs[i].1 == AttributeView::BaseAttribute(c),
        index_of(attrs, c) matches Some(i) && attrs[i].1 == AttributeView::BaseAttribute(e),
        index_of(attrs, e) matches Some(i) && attrs[i].1 == AttributeView::Data(data),
    ensures
        resolved(attrs, a) == Ok::<Option<DataView>, SchemeError>(Some(data)),
{
    lemma_index_of(attrs, a);
    lemma_index_of(attrs, b);
    lemma_index_of(attrs, c);
    lemma_index_of(attrs, e);
    let ia = index_of(attrs, a)->Some_0;
    let ib = index_of(attrs, b)->Some_0;
    let ic = index_of(attrs, c)->Some_0;
    let ie = index_of(attrs, e)->Some_0;
    assert(ia != ib && ia != ic && ia != ie && ib != ic && ib != ie && ic != ie);
    assert(attrs.len() >= 4);
    reveal_with_fuel(resolve, 4);
}

/// A color scheme read from one or more texts.
pub struct JBColorScheme {
    sources: Vec<String>,
    colors: IndexMap<String, Color>,
    attributes: IndexMap<String, JBAttribute>,
}

impl View for JBColorScheme {
    type V = SchemeView;

    closed spec fn view(&self) -> SchemeView {
        SchemeView { colors: color_entries(self.colors), attributes: attribute_entries(self.attributes) }
    }
}

impl Default for JBColorScheme {
    fn default() -> (r: JBColorScheme)
        ensures
            r@ == empty_scheme(),
    {
        JBColorScheme::new()
    }
}

impl JBColorScheme {
    /// The texts read so far, in order.
    pub closed spec fn texts(&self) -> Seq<Seq<char>> {
        self.sources@.map_values(|s: String| s@)
    }

    pub fn new() -> (r: JBColorScheme)
        ensures
            r@ == empty_scheme(),
            r.texts().len() == 0,
    {
        JBColorScheme { sources: Vec::new(), colors: new_color_table(), attributes: new_attribute_table() }
    }

    /// Records one declaration: a name already present keeps its place and
    /// takes the new value.
    pub fn add(&mut self, e: JBColorSchemeType)
        ensures
            final(self)@ == apply_event(old(self)@, e@),
            final(self).texts() == old(self).texts(),
    {
        match e {
            JBColorSchemeType::Color(n, c) => insert_color(&mut self.colors, n, c),
            JBColorSchemeType::Attribute(n, a) => insert_attribute(&mut self.attributes, n, a),
        }
    }

    /// Reads the declarations of `text` into the tables, each in turn: a
    /// name already present keeps its place and takes the new value. Where
    /// the text is not well-formed markup, nothing is taken.
    pub fn read_str(&mut self, text: &str) -> (r: Result<(), SchemeError>)
        ensures
            final(self).texts() == old(self).texts(),
            !markup_fails(text@) ==> r is Ok && final(self)@ == apply_events(
                old(self)@,
                run(initial_state(), markup_of(text@)).1,
            ),
            markup_fails(text@) ==> r == Err::<(), SchemeError>(SchemeError::Malformed) && final(self)@
                == old(self)@,
    {
        let mut reader = JBColorSchemeReader::from_str(text);
        let mut found: Vec<JBColorSchemeType> = Vec::new();
        let ghost all = markup_of(text@);
        let ghost mut k: int = 0;
        assert(all.subrange(0, 0) =~= Seq::<MarkupView>::empty());
        assert(all.subrange(0, all.len() as int) =~= all);
        loop
            invariant
                reader.wf(),
                all == markup_of(text@),
                0 <= k <= all.len(),
                reader.rest() == all.subrange(k, all.len() as int),
                reader.fails() == markup_fails(text@),
                run(initial_state(), all.subrange(0, k)) == (reader.state(), found@.map_values(
                    |e: JBColorSchemeType| e@,
                )),
                self@ == old(self)@,
                self.texts() == old(self).texts(),
            ensures
                !markup_fails(text@),
                run(initial_state(), markup_of(text@)).1 == found@.map_values(|e: JBColorSchemeType| e@),
                self@ == old(self)@,
                self.texts() == old(self).texts(),
            decreases reader.rest().len(),
        {
            let ghost before = reader.state();
            let ghost rest0 = reader.rest();
            let next = reader.next();
            let ghost k2 = choose|k2: int|
                0 <= k2 <= rest0.len() && reader.rest() == rest0.subrange(k2, rest0.len() as int) && run(
                    before,
                    rest0.subrange(0, k2),
                ) == (reader.state(), handed_out(next));
            proof {
                lemma_run_append(initial_state(), all.subrange(0, k), rest0.subrange(0, k2));
                assert(all.subrange(0, k) + rest0.subrange(0, k2) =~= all.subrange(0, k + k2));
                assert(reader.rest() =~= all.subrange(k + k2, all.len() as int));
                k = k + k2;
            }
            match next {
                None => {
                    assert(found@.map_values(|e: JBColorSchemeType| e@) + handed_out(None) =~= found@.map_values(
                        |e: JBColorSchemeType| e@,
                    ));
                    assert(k == all.len());
                    assert(all.subrange(0, k) =~= all);
                    break;
                },
                Some(Err(e)) => {
                    return Err(e);
                },
                Some(Ok(e)) => {
                    let ghost v = e@;
                    let ghost prior = found@.map_values(|e: JBColorSchemeType| e@);
                    found.push(e);
                    assert(found@.map_values(|e: JBColorSchemeType| e@) =~= prior + seq![v]);
                },
            }
        }
        let ghost evs = found@.map_values(|e: JBColorSchemeType| e@);
        let ghost start = self@;
        proof {
            k = 0;
        }
        assert(evs.subrange(0, 0) =~= Seq::<EventView>::empty());
        assert(evs.subrange(0, evs.len() as int) =~= evs);
        while found.len() > 0
            invariant
                0 <= k <= evs.len(),
                found@.map_values(|e: JBColorSchemeType| e@) == evs.subrange(k, evs.len() as int),
                self@ == apply_events(start, evs.subrange(0, k)),
                self.texts() == old(self).texts(),
            decreases found@.len(),
        {
            let ghost pre = found@;
            assert(pre.map_values(|e: JBColorSchemeType| e@).len() == pre.len());
            let e = found.remove(0);
            proof {
                assert(found@ =~= pre.subrange(1, pre.len() as int));
                assert(pre.map_values(|e: JBColorSchemeType| e@)[0] == pre[0]@);
                assert(evs.subrange(k, evs.len() as int)[0] == evs[k]);
                assert(e@ == evs[k]);
                let f = found@.map_values(|e: JBColorSchemeType| e@);
                let g = pre.map_values(|e: JBColorSchemeType| e@);
                assert forall|j: int| 0 <= j < f.len() implies f[j] == evs.subrange(k + 1, evs.len() as int)[j] by {
                    assert(f[j] == found@[j]@);
                    assert(found@[j] == pre[j + 1]);
                    assert(g[j + 1] == pre[j + 1]@);
                    assert(g[j + 1] == evs.subrange(k, evs.len() as int)[j + 1]);
                }
                assert(f =~= evs.subrange(k + 1, evs.len() as int));
                assert(evs.subrange(0, k + 1).drop_last() =~= evs.subrange(0, k));
            }
            self.add(e);
            proof {
                k = k + 1;
            }
        }
        assert(evs.subrange(0, k) =~= evs);
        Ok(())
    }

    /// Keeps `string` with the texts read so far and reads its declarations
    /// into the tables, as `read_str` does.
    pub fn read_string(&mut self, string: String) -> (r: Result<(), SchemeError>)
        ensures
            final(self).texts() == old(self).texts().push(string@),
            !markup_fails(string@) ==> r is Ok && final(self)@ == apply_events(
                old(self)@,
                run(initial_state(), markup_of(string@)).1,
            ),
            markup_fails(string@) ==> r == Err::<(), SchemeError>(SchemeError::Malformed) && final(self)@
                == old(self)@,
    {
        let r = self.read_str(string.as_str());
        let ghost t = string@;
        self.sources.push(string);
        proof {
            assert(self.texts() =~= old(self).texts().push(t));
        }
        r
    }

    /// A scheme holding the declarations of `text`.
    pub fn parse(text: &str) -> (r: Result<JBColorScheme, SchemeError>)
        ensures
            !markup_fails(text@) ==> (r matches Ok(s) && s@ == apply_events(
                empty_scheme(),
                run(initial_state(), markup_of(text@)).1,
            )),
            markup_fails(text@) ==> (r matches Err(e) && e == SchemeError::Malformed),
    {
        let mut theme = JBColorScheme::new();
        match theme.read_str(text) {
            Ok(()) => Ok(theme),
            Err(e) => Err(e),
        }
    }

    /// The color declared under `name`.
    pub fn get_color(&self, name: &str) -> (r: Option<Color>)
        ensures
            match index_of(self@.colors, name@) {
                Some(i) => r is Some && r.unwrap()@ == self@.colors[i].1,
                None => r is None,
            },
    {
        match get_color(&self.colors, name) {
            Some(c) => Some(c.clone()),
            None => None,
        }
    }

    /// The declared colors, in the order of their first declaration.
    pub fn colors(&self) -> (r: Vec<(String, Color)>)
        ensures
            r@.len() == self@.colors.len(),
            forall|i: int|
                0 <= i < r@.len() ==> (#[trigger] r@[i]).0@ == self@.colors[i].0 && r@[i].1@
                    == self@.colors[i].1,
    {
        let n = color_count(&self.colors);
        let mut r: Vec<(String, Color)> = Vec::new();
        let mut i: usize = 0;
        while i < n
            invariant
                n == self@.colors.len(),
                0 <= i <= n,
                r@.len() == i,
                forall|j: int|
                    0 <= j < i ==> (#[trigger] r@[j]).0@ == self@.colors[j].0 && r@[j].1@
                        == self@.colors[j].1,
            decreases n - i,
        {
            let (k, c) = color_at(&self.colors, i).unwrap();
            r.push((k.clone(), c.clone()));
            i = i + 1;
        }
        r
    }

    /// What the attribute `name` comes to when its bases are followed: its
    /// data, nothing where it is missing or empty, or an error where its
    /// bases lead back to a name already passed.
    pub fn resolve_attribute(&self, name: &str) -> (r: Result<Option<JBAttributeData>, SchemeError>)
        ensures
            match r {
                Ok(Some(d)) => resolved(self@.attributes, name@) == Ok::<Option<DataView>, SchemeError>(Some(d@)),
                Ok(None) => resolved(self@.attributes, name@) == Ok::<Option<DataView>, SchemeError>(None),
                Err(e) => resolved(self@.attributes, name@) == Err::<Option<DataView>, SchemeError>(e),
            },
    {
        let ghost attrs = self@.attributes;
        let mut left: usize = attribute_count(&self.attributes);
        let mut current: String = name.to_string();
        loop
            invariant
                attrs == self@.attributes,
                left <= attrs.len(),
                resolved(attrs, name@) == resolve(attrs, current@, left as nat + 1),
            decreases left,
        {
            match get_attribute_entry(&self.attributes, current.as_str()) {
                None => return Ok(None),
                Some(JBAttribute::Data(d)) => return Ok(Some(d.clone())),
                Some(JBAttribute::Empty) => return Ok(None),
                Some(JBAttribute::BaseAttribute(b)) => {
                    if left == 0 {
                        proof {
                            reveal_with_fuel(resolve, 2);
                        }
                        return Err(SchemeError::CyclicInheritance);
                    }
                    current = b.clone();
                    left = left - 1;
                },
            }
        }
    }

    /// The data of the attribute `name` where it resolves to some.
    pub fn get_attribute(&self, attr: &str) -> (r: Option<JBAttributeData>)
        ensures
            match resolved(self@.attributes, attr@) {
                Ok(Some(d)) => r is Some && r.unwrap()@ == d,
                _ => r is None,
            },
    {
        match self.resolve_attribute(attr) {
            Ok(Some(d)) => Some(d),
            _ => None,
        }
    }

    /// The data of the first of `names` that resolves to some.
    pub fn get_attribute_via_mapping(&self, names: &Vec<String>) -> (r: Option<JBAttributeData>)
        ensures
            match r {
                Some(d) => exists|i: int|
                    0 <= i < names@.len() && resolved(self@.attributes, names@[i]@) == Ok::<Option<DataView>, SchemeError>(Some(d@))
                        && forall|j: int| 0 <= j < i ==> !(resolved(self@.attributes, #[trigger] names@[j]@) is Ok
                            && resolved(self@.attributes, names@[j]@)->Ok_0 is Some),
                None => forall|j: int| 0 <= j < names@.len() ==> !(resolved(self@.attributes, #[trigger] names@[j]@) is Ok
                    && resolved(self@.attributes, names@[j]@)->Ok_0 is Some),
            },
    {
        let mut i: usize = 0;
        while i < names.len()
            invariant
                0 <= i <= names@.len(),
                forall|j: int| 0 <= j < i ==> !(resolved(self@.attributes, #[trigger] names@[j]@) is Ok
                    && resolved(self@.attributes, names@[j]@)->Ok_0 is Some),
            decreases names@.len() - i,
        {
            match self.get_attribute(names[i].as_str()) {
                Some(d) => return Some(d),
                None => {},
            }
            i = i + 1;
        }
        None
    }

    /// Every attribute that resolves to data, with that data, in the order
    /// of the table.
    pub fn get_attributes(&self) -> (r: Vec<(String, JBAttributeData)>)
        ensures
            r@.len() == resolved_prefix(self@.attributes, self@.attributes.len() as int).len(),
            forall|i: int|
                0 <= i < r@.len() ==> ((#[trigger] r@[i]).0@, r@[i].1@) == resolved_prefix(
                    self@.attributes,
                    self@.attributes.len() as int,
                )[i],
    {
        let n = attribute_count(&self.attributes);
        let mut r: Vec<(String, JBAttributeData)> = Vec::new();
        let mut i: usize = 0;
        while i < n
            invariant
                n == self@.attributes.len(),
                0 <= i <= n,
                r@.len() == resolved_prefix(self@.attributes, i as int).len(),
                forall|j: int|
                    0 <= j < r@.len() ==> ((#[trigger] r@[j]).0@, r@[j].1@) == resolved_prefix(
                        self@.attributes,
                        i as int,
                    )[j],
            decreases n - i,
        {
            let (k, _) = attribute_at(&self.attributes, i).unwrap();
            match self.get_attribute(k.as_str()) {
                Some(d) => {
                    r.push((k.clone(), d));
                },
                None => {},
            }
            i = i + 1;
        }
        r
    }
}

} // verus!
