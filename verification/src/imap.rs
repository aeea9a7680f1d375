use vstd::prelude::*;
use indexmap::IndexMap;
use crate::entry::{EntryModel, HelpEntry};

verus! {

#[verifier::external_type_specification]
#[verifier::external_body]
#[verifier::reject_recursive_types(K)]
#[verifier::reject_recursive_types(V)]
#[verifier::reject_recursive_types(S)]
pub struct ExIndexMap<K, V, S>(IndexMap<K, V, S>);

/// The key-entry pairs an index map holds, in insertion order.
pub uninterp spec fn index_map_model(m: IndexMap<String, HelpEntry>) -> Seq<
    (Seq<char>, EntryModel),
>;

/// Relies on IndexMap::new: creates an empty map.
#[verifier::external_body]
pub(crate) fn imap_new() -> (m: IndexMap<String, HelpEntry>)
    ensures
        index_map_model(m) == Seq::<(Seq<char>, EntryModel)>::empty(),
{
    IndexMap::new()
}

/// Relies on IndexMap::len: the number of key-value pairs in the map.
#[verifier::external_body]
pub(crate) fn imap_len(m: &IndexMap<String, HelpEntry>) -> (r: usize)
    ensures
        r as int == index_map_model(*m).len(),
{
    m.len()
}

/// Relies on IndexMap::insert: a key already present keeps its place in the
/// order and has its value replaced; a new key is appended last in order.
#[verifier::external_body]
pub(crate) fn imap_insert(m: &mut IndexMap<String, HelpEntry>, k: String, v: HelpEntry)
    ensures
        (exists|i: int|
            0 <= i < index_map_model(*old(m)).len() && #[trigger] index_map_model(*old(m))[i].0
                == k@) ==> exists|i: int|
            0 <= i < index_map_model(*old(m)).len() && #[trigger] index_map_model(*old(m))[i].0
                == k@ && index_map_model(*final(m)) == index_map_model(*old(m)).update(
                i,
                (k@, v@),
            ),
        !(exists|i: int|
            0 <= i < index_map_model(*old(m)).len() && #[trigger] index_map_model(*old(m))[i].0
                == k@) ==> index_map_model(*final(m)) == index_map_model(*old(m)).push((k@, v@)),
{
    m.insert(k, v);
}

/// Relies on IndexMap::get: returns the value stored for the key, if the key
/// is present, else None.
#[verifier::external_body]
pub(crate) fn imap_get<'a>(m: &'a IndexMap<String, HelpEntry>, k: &str) -> (r: Option<
    &'a HelpEntry,
>)
    ensures
        (match r {
            Some(e) => exists|i: int|
                0 <= i < index_map_model(*m).len() && #[trigger] index_map_model(*m)[i].0 == k@
                    && index_map_model(*m)[i].1 == e@,
            None => forall|i: int|
                0 <= i < index_map_model(*m).len() ==> #[trigger] index_map_model(*m)[i].0 != k@,
        }),
{
    m.get(k)
}

/// Relies on IndexMap::get_index: the key-value pair at a position in the
/// insertion order, or None past the end.
#[verifier::external_body]
pub(crate) fn imap_get_index<'a>(m: &'a IndexMap<String, HelpEntry>, i: usize) -> (r: Option<
    (&'a String, &'a HelpEntry),
>)
    ensures
        i < index_map_model(*m).len() ==> (match r {
            Some(p) => p.0@ == index_map_model(*m)[i as int].0 && p.1@ == index_map_model(
                *m,
            )[i as int].1,
            None => false,
        }),
        i >= index_map_model(*m).len() ==> r is None,
{
    m.get_index(i)
}

} // verus!
