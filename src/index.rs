//! The parsed index: an insertion-ordered map from qualified tag path to the
//! occurrences recorded under it, held in an `indexmap::IndexMap`.

use vstd::prelude::*;

verus! {

#[verifier::external_type_specification]
#[verifier::external_body]
#[verifier::reject_recursive_types(K)]
#[verifier::reject_recursive_types(V)]
#[verifier::reject_recursive_types(S)]
pub struct ExIndexMap<K, V, S>(indexmap::IndexMap<K, V, S>);

#[verifier::external_type_specification]
#[verifier::external_body]
#[verifier::reject_recursive_types(H)]
pub struct ExBuildHasherDefault<H>(std::hash::BuildHasherDefault<H>);

#[verifier::external_type_specification]
#[verifier::external_body]
pub struct ExFxHasher(fxhash::FxHasher);

/// One occurrence of a tag: `(tag_id, depth, value, kind)`.
pub type Occurrence = (usize, usize, String, usize);

/// An occurrence with its value as a character sequence.
pub type OccurrenceView = (usize, usize, Seq<char>, usize);

/// The index entries as pairs of key and occurrences, in key order.
pub type IndexView = Seq<(Seq<char>, Seq<OccurrenceView>)>;

pub type ParsedIndex = indexmap::IndexMap<String, Vec<Occurrence>, fxhash::FxBuildHasher>;

pub open spec fn occurrence_view(o: Occurrence) -> OccurrenceView {
    (o.0, o.1, o.2@, o.3)
}

pub open spec fn occurrences_view(v: Seq<Occurrence>) -> Seq<OccurrenceView> {
    v.map_values(|o: Occurrence| occurrence_view(o))
}

/// What the map holds, in its order.
pub uninterp spec fn index_entries(m: ParsedIndex) -> IndexView;

/// `k` is a key of the entries.
pub open spec fn has_key(entries: IndexView, k: Seq<char>) -> bool {
    exists|i: int| 0 <= i < entries.len() && #[trigger] entries[i].0 == k
}

/// Relies on `IndexMap::with_hasher`: the new map is empty.
#[verifier::external_body]
pub(crate) fn index_new() -> (r: ParsedIndex)
    ensures
        index_entries(r) == Seq::<(Seq<char>, Seq<OccurrenceView>)>::empty(),
{
    indexmap::IndexMap::with_hasher(fxhash::FxBuildHasher::default())
}

/// Relies on `IndexMap::contains_key`: whether an equal key is present.
#[verifier::external_body]
pub(crate) fn index_contains(m: &ParsedIndex, k: &String) -> (r: bool)
    ensures
        r == has_key(index_entries(*m), k@),
{
    m.contains_key(k)
}

/// Relies on `IndexMap::get_mut`: the entry of an equal key is changed in
/// place, the order stays.
#[verifier::external_body]
pub(crate) fn index_append(m: &mut ParsedIndex, k: &String, o: Occurrence)
    requires
        has_key(index_entries(*old(m)), k@),
    ensures
        index_entries(*final(m)).len() == index_entries(*old(m)).len(),
        forall|i: int|
            0 <= i < index_entries(*old(m)).len() ==> #[trigger] index_entries(*final(m))[i] == (
            if index_entries(*old(m))[i].0 == k@ {
                (k@, index_entries(*old(m))[i].1.push(occurrence_view(o)))
            } else {
                index_entries(*old(m))[i]
            }),
{
    m.get_mut(k).unwrap().push(o);
}

/// Relies on `IndexMap::insert`: a key not yet present goes last.
#[verifier::external_body]
pub(crate) fn index_insert(m: &mut ParsedIndex, k: String, v: Vec<Occurrence>)
    requires
        !has_key(index_entries(*old(m)), k@),
    ensures
        index_entries(*final(m)) == index_entries(*old(m)).push((k@, occurrences_view(v@))),
{
    m.insert(k, v);
}

/// Relies on `IndexMap::len`.
#[verifier::external_body]
pub(crate) fn index_len(m: &ParsedIndex) -> (r: usize)
    ensures
        r == index_entries(*m).len(),
{
    m.len()
}

/// Relies on `IndexMap::get_index`: the entry at position `i` in key order.
#[verifier::external_body]
pub(crate) fn index_get(m: &ParsedIndex, i: usize) -> (r: Option<(&String, &Vec<Occurrence>)>)
    ensures
        match r {
            Some((k, v)) => i < index_entries(*m).len() && k@ == index_entries(*m)[i as int].0
                && occurrences_view(v@) == index_entries(*m)[i as int].1,
            None => i >= index_entries(*m).len(),
        },
{
    m.get_index(i)
}

} // verus!
