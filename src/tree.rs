//! Key-value collections of the embedded store, seen as maps from key bytes
//! to value bytes.
use vstd::prelude::*;

verus! {

/// A handle on one collection of the store; opaque here.
#[verifier::external_type_specification]
#[verifier::external_body]
pub struct ExTree(sled::Tree);

/// A failure of the store; carried, never looked into.
#[verifier::external_type_specification]
#[verifier::external_body]
pub struct ExSledError(sled::Error);

/// What a collection of the store holds: each key with its value. Each
/// collection is written through one handle only, which the stores own.
pub uninterp spec fn tree_contents(t: sled::Tree) -> Map<Seq<u8>, Seq<u8>>;

/// Relies on sled::Tree::insert: on success the key maps to the new value;
/// a failure comes before the write is linked in, or the write is whole, so
/// nothing is left half done.
#[verifier::external_body]
pub(crate) fn tree_insert(t: &mut sled::Tree, key: &[u8], value: Vec<u8>) -> (r: Result<(), sled::Error>)
    ensures
        r is Ok ==> tree_contents(*final(t)) == tree_contents(*old(t)).insert(key@, value@),
        r is Err ==> tree_contents(*final(t)) == tree_contents(*old(t)) || tree_contents(*final(t))
            == tree_contents(*old(t)).insert(key@, value@),
{
    t.insert(key, value).map(|_| ())
}

/// Relies on sled::Tree::get: the value stored under the key, if there is one.
#[verifier::external_body]
pub(crate) fn tree_get(t: &sled::Tree, key: &[u8]) -> (r: Result<Option<Vec<u8>>, sled::Error>)
    ensures
        r matches Ok(found) ==> (found is Some <==> tree_contents(*t).contains_key(key@)),
        r matches Ok(Some(v)) ==> v@ == tree_contents(*t)[key@],
{
    t.get(key).map(|found| found.map(|v| v.to_vec()))
}

/// Whether `es` lists each entry of `m` once, each key with its value.
pub open spec fn walks(m: Map<Seq<u8>, Seq<u8>>, es: Seq<(Vec<u8>, Vec<u8>)>) -> bool {
    &&& forall|i: int|
        0 <= i < es.len() ==> #[trigger] m.contains_key(es[i].0@) && m[es[i].0@] == es[i].1@
    &&& forall|i: int, j: int|
        0 <= i < es.len() && 0 <= j < es.len() && i != j ==> #[trigger] es[i].0@
            != #[trigger] es[j].0@
    &&& forall|k: Seq<u8>|
        #[trigger] m.contains_key(k) ==> exists|i: int| 0 <= i < es.len() && #[trigger] es[i].0@ == k
}

/// The keys of a walk's entries, in order.
pub open spec fn entry_keys(es: Seq<(Vec<u8>, Vec<u8>)>) -> Seq<Seq<u8>> {
    Seq::new(es.len(), |j: int| es[j].0@)
}

/// A walk's keys are distinct and are exactly the keys of the collection.
pub proof fn lemma_walk_keys(m: Map<Seq<u8>, Seq<u8>>, es: Seq<(Vec<u8>, Vec<u8>)>)
    requires
        walks(m, es),
    ensures
        entry_keys(es).no_duplicates(),
        entry_keys(es).to_set() == m.dom(),
        es.len() == m.len(),
{
    let keys = entry_keys(es);
    assert forall|k: Seq<u8>| m.contains_key(k) implies keys.to_set().contains(k) by {
        let j = choose|j: int| 0 <= j < es.len() && #[trigger] es[j].0@ == k;
        assert(keys[j] == k);
    }
    assert(keys.to_set() =~= m.dom());
    assert forall|a: int, b: int| 0 <= a < keys.len() && 0 <= b < keys.len() && a != b implies keys[a]
        != keys[b] by {
        assert(es[a].0@ != es[b].0@);
    }
    keys.unique_seq_to_set();
}

/// Relies on sled::Tree::iter: every entry of the collection once, each
/// key with its value; the first failure of the walk is returned instead.
#[verifier::external_body]
pub(crate) fn tree_entries(t: &sled::Tree) -> (r: Result<Vec<(Vec<u8>, Vec<u8>)>, sled::Error>)
    ensures
        r matches Ok(es) ==> walks(tree_contents(*t), es@),
{
    t.iter().map(|e| e.map(|(k, v)| (k.to_vec(), v.to_vec()))).collect()
}

} // verus!
