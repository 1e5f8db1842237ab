//! The two insertion-ordered tables of a scheme, kept in `indexmap::IndexMap`.

use vstd::prelude::*;

use indexmap::IndexMap;

use crate::attribute::{AttributeView, JBAttribute};
use crate::color::Color;

verus! {

/// `indexmap::IndexMap`, a hash map that keeps the order of insertion.
#[verifier::external_type_specification]
#[verifier::external_body]
#[verifier::reject_recursive_types(K)]
#[verifier::reject_recursive_types(V)]
#[verifier::reject_recursive_types(S)]
pub struct ExIndexMap<K, V, S>(IndexMap<K, V, S>);

/// The entries of a color table, in their order.
pub uninterp spec fn color_entries(m: IndexMap<String, Color>) -> Seq<(Seq<char>, Seq<char>)>;

/// The entries of an attribute table, in their order.
pub uninterp spec fn attribute_entries(m: IndexMap<String, JBAttribute>) -> Seq<(Seq<char>, AttributeView)>;

/// The position of the first entry under key `k`.
pub open spec fn index_of<V>(es: Seq<(Seq<char>, V)>, k: Seq<char>) -> Option<int>
    decreases es.len(),
{
    if es.len() == 0 {
        None
    } else {
        match index_of(es.drop_last(), k) {
            Some(i) => Some(i),
            None => if es.last().0 == k {
                Some(es.len() - 1)
            } else {
                None
            },
        }
    }
}

/// The entries after `k` is set to `v`: an entry under `k` keeps its place
/// and takes the new value; otherwise the pair comes last.
pub open spec fn insert_entry<V>(es: Seq<(Seq<char>, V)>, k: Seq<char>, v: V) -> Seq<(Seq<char>, V)> {
    match index_of(es, k) {
        Some(i) => es.update(i, (k, v)),
        None => es.push((k, v)),
    }
}

pub proof fn lemma_index_of<V>(es: Seq<(Seq<char>, V)>, k: Seq<char>)
    ensures
        match index_of(es, k) {
            Some(i) => 0 <= i < es.len() && es[i].0 == k && forall|j: int| 0 <= j < i ==> es[j].0 != k,
            None => forall|j: int| 0 <= j < es.len() ==> es[j].0 != k,
        },
    decreases es.len(),
{
    if es.len() > 0 {
        let d = es.drop_last();
        lemma_index_of(d, k);
        assert(forall|j: int| 0 <= j < d.len() ==> d[j] == es[j]);
    }
}

/// Where setting `k` leaves each key: `k` with its new value, any other key
/// at the same place with the same value.
pub proof fn lemma_insert_entry<V>(es: Seq<(Seq<char>, V)>, k: Seq<char>, v: V, q: Seq<char>)
    ensures
        q == k ==> (index_of(insert_entry(es, k, v), q) matches Some(i) && insert_entry(es, k, v)[i] == (k, v)),
        q != k ==> index_of(insert_entry(es, k, v), q) == index_of(es, q),
        q != k ==> (index_of(es, q) matches Some(i) ==> insert_entry(es, k, v)[i] == es[i]),
        insert_entry(es, k, v).len() >= es.len(),
        index_of(es, q) is Some ==> index_of(insert_entry(es, k, v), q) == index_of(es, q),
        index_of(es, q) matches Some(i) ==> 0 <= i < es.len(),
{
    let t = insert_entry(es, k, v);
    lemma_index_of(es, k);
    lemma_index_of(es, q);
    lemma_index_of(t, q);
    assert(forall|j: int| 0 <= j < es.len() ==> #[trigger] t[j].0 == es[j].0);
    if q != k {
        match (index_of(es, q), index_of(t, q)) {
            (Some(i), Some(j)) => {
                if i < j {
                    assert(t[i].0 == q);
                } else if j < i {
                    assert(es[j].0 == q);
                }
            },
            (Some(i), None) => {
                assert(t[i].0 == q);
            },
            (None, Some(j)) => {
                if j < es.len() {
                    assert(es[j].0 == q);
                }
            },
            (None, None) => {},
        }
    } else {
        match (index_of(es, q), index_of(t, q)) {
            (Some(i), Some(j)) => {
                if i < j {
                    assert(t[i].0 == q);
                } else if j < i {
                    assert(es[j].0 == q);
                }
            },
            (Some(i), None) => {
                assert(t[i].0 == q);
            },
            (None, Some(j)) => {
                if j < es.len() {
                    assert(es[j].0 == q);
                }
            },
            (None, None) => {
                assert(t[es.len() as int].0 == q);
            },
        }
    }
}

/// Relies on `IndexMap::new`: a new map is empty.
#[verifier::external_body]
pub(crate) fn new_color_table() -> (r: IndexMap<String, Color>)
    ensures
        color_entries(r) == Seq::<(Seq<char>, Seq<char>)>::empty(),
{
    IndexMap::new()
}

/// Relies on `IndexMap::insert`: an equal key keeps its place and takes the
/// new value, a new key comes last.
#[verifier::external_body]
pub(crate) fn insert_color(m: &mut IndexMap<String, Color>, k: String, v: Color)
    ensures
        color_entries(*final(m)) == insert_entry(color_entries(*old(m)), k@, v@),
{
    m.insert(k, v);
}

/// Relies on `IndexMap::get`: the value stored under the key, if any.
#[verifier::external_body]
pub(crate) fn get_color<'a>(m: &'a IndexMap<String, Color>, k: &str) -> (r: Option<&'a Color>)
    ensures
        match index_of(color_entries(*m), k@) {
            Some(i) => r is Some && r.unwrap()@ == color_entries(*m)[i].1,
            None => r is None,
        },
{
    m.get(k)
}

/// Relies on `IndexMap::len`: the number of entries.
#[verifier::external_body]
pub(crate) fn color_count(m: &IndexMap<String, Color>) -> (r: usize)
    ensures
        r == color_entries(*m).len(),
{
    m.len()
}

/// Relies on `IndexMap::get_index`: the entry at a position in the order.
#[verifier::external_body]
pub(crate) fn color_at<'a>(m: &'a IndexMap<String, Color>, i: usize) -> (r: Option<(&'a String, &'a Color)>)
    ensures
        i < color_entries(*m).len() ==> r is Some && r.unwrap().0@ == color_entries(*m)[i as int].0
            && r.unwrap().1@ == color_entries(*m)[i as int].1,
        i >= color_entries(*m).len() ==> r is None,
{
    m.get_index(i)
}

/// Relies on `IndexMap::new`: a new map is empty.
#[verifier::external_body]
pub(crate) fn new_attribute_table() -> (r: IndexMap<String, JBAttribute>)
    ensures
        attribute_entries(r) == Seq::<(Seq<char>, AttributeView)>::empty(),
{
    IndexMap::new()
}

/// Relies on `IndexMap::insert`: an equal key keeps its place and takes the
/// new value, a new key comes last.
#[verifier::external_body]
pub(crate) fn insert_attribute(m: &mut IndexMap<String, JBAttribute>, k: String, v: JBAttribute)
    ensures
        attribute_entries(*final(m)) == insert_entry(attribute_entries(*old(m)), k@, v@),
{
    m.insert(k, v);
}

/// Relies on `IndexMap::get`: the value stored under the key, if any.
#[verifier::external_body]
pub(crate) fn get_attribute_entry<'a>(m: &'a IndexMap<String, JBAttribute>, k: &str) -> (r: Option<&'a JBAttribute>)
    ensures
        match index_of(attribute_entries(*m), k@) {
            Some(i) => r is Some && r.unwrap()@ == attribute_entries(*m)[i].1,
            None => r is None,
        },
{
    m.get(k)
}

/// Relies on `IndexMap::len`: the number of entries.
#[verifier::external_body]
pub(crate) fn attribute_count(m: &IndexMap<String, JBAttribute>) -> (r: usize)
    ensures
        r == attribute_entries(*m).len(),
{
    m.len()
}

/// Relies on `IndexMap::get_index`: the entry at a position in the order.
#[verifier::external_body]
pub(crate) fn attribute_at<'a>(m: &'a IndexMap<String, JBAttribute>, i: usize) -> (r: Option<(&'a String, &'a JBAttribute)>)
    ensures
        i < attribute_entries(*m).len() ==> r is Some && r.unwrap().0@ == attribute_entries(*m)[i as int].0
            && r.unwrap().1@ == attribute_entries(*m)[i as int].1,
        i >= attribute_entries(*m).len() ==> r is None,
{
    m.get_index(i)
}

} // verus!
