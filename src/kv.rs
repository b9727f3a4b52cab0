//! The embedded ordered key-value store under the index, reached through
//! `sled`. A tree's contents are modelled as a map from key bytes to value
//! bytes; operations that change a tree take it by `&mut` so that the model
//! of the contents can change with it.

use vstd::prelude::*;

verus! {

#[verifier::external_type_specification]
#[verifier::external_body]
pub struct ExSledDb(sled::Db);

#[verifier::external_type_specification]
#[verifier::external_body]
pub struct ExSledTree(sled::Tree);

#[verifier::external_type_specification]
#[verifier::external_body]
pub struct ExSledError(sled::Error);

#[verifier::external_type_specification]
#[verifier::external_body]
pub struct ExPathBuf(std::path::PathBuf);

/// The key/value pairs that a tree holds.
pub uninterp spec fn tree_contents(t: sled::Tree) -> Map<Seq<u8>, Seq<u8>>;

/// `a` comes strictly before `b` in the byte-wise lexicographic order that
/// orders a tree's keys.
pub open spec fn lex_lt(a: Seq<u8>, b: Seq<u8>) -> bool {
    exists|i: int|
        0 <= i <= a.len() && i <= b.len() && a.subrange(0, i) == b.subrange(0, i) && i < b.len() && (i
            == a.len() || a[i] < b[i])
}

/// Relies on `sled::open`: opens (or creates) the store at `path`.
#[verifier::external_body]
pub(crate) fn open_db(path: &std::path::PathBuf) -> (r: Result<sled::Db, sled::Error>) {
    sled::open(path)
}

/// Relies on `sled::Db::was_recovered`: whether the store existed before it was opened.
#[verifier::external_body]
pub(crate) fn db_was_recovered(db: &sled::Db) -> (r: bool) {
    db.was_recovered()
}

/// Relies on `sled::Db::open_tree`: opens (or creates) the tree named `name`.
#[verifier::external_body]
pub(crate) fn db_open_tree(db: &sled::Db, name: &str) -> (r: Result<sled::Tree, sled::Error>) {
    db.open_tree(name)
}

/// Relies on `sled::Tree::get`: the value stored under `key`, if any.
#[verifier::external_body]
pub(crate) fn tree_get(t: &sled::Tree, key: &[u8]) -> (r: Result<Option<Vec<u8>>, sled::Error>)
    ensures
        r matches Ok(v) ==> (match v {
            Some(v) => tree_contents(*t).contains_key(key@) && tree_contents(*t)[key@] == v@,
            None => !tree_contents(*t).contains_key(key@),
        }),
{
    t.get(key).map(|v| v.map(|v| v.to_vec()))
}

/// Relies on `sled::Tree::insert`: stores `value` under `key`, replacing any earlier value.
#[verifier::external_body]
pub(crate) fn tree_insert(t: &mut sled::Tree, key: &[u8], value: &[u8]) -> (r: Result<(), sled::Error>)
    ensures
        r is Ok ==> tree_contents(*final(t)) == tree_contents(*old(t)).insert(key@, value@),
{
    t.insert(key, value).map(|_| ())
}

/// Relies on `sled::Tree::remove`: deletes the value stored under `key`, if any.
#[verifier::external_body]
pub(crate) fn tree_remove(t: &mut sled::Tree, key: &[u8]) -> (r: Result<(), sled::Error>)
    ensures
        r is Ok ==> tree_contents(*final(t)) == tree_contents(*old(t)).remove(key@),
{
    t.remove(key).map(|_| ())
}

/// Relies on `sled::Tree::last`: the pair with the greatest key, if the tree is not empty.
#[verifier::external_body]
pub(crate) fn tree_last(t: &sled::Tree) -> (r: Result<Option<(Vec<u8>, Vec<u8>)>, sled::Error>)
    ensures
        r matches Ok(p) ==> (match p {
            Some((k, v)) => tree_contents(*t).contains_key(k@) && tree_contents(*t)[k@] == v@
                && forall|o: Seq<u8>|
                #![trigger tree_contents(*t).contains_key(o)]
                tree_contents(*t).contains_key(o) && o != k@ ==> lex_lt(o, k@),
            None => tree_contents(*t).dom().is_empty(),
        }),
{
    t.last().map(|p| p.map(|(k, v)| (k.to_vec(), v.to_vec())))
}

} // verus!
