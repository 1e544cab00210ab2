//! Trusted boundary to the embedded ordered key-value engine.
//!
//! Everything the library assumes of the engine is collected here: the
//! opaque handle types, two names for the state a handle carries (the map
//! of stored entries of a tree, and the floor of the durable identifier
//! counter), and one wrapper per engine call, each with the contract the
//! engine's documentation gives it. The rest of the crate is verified
//! against these contracts alone.

use vstd::prelude::*;
use crate::errors::StorageError;
use crate::keys::lex_less;

verus! {

#[verifier::external_type_specification]
#[verifier::external_body]
pub struct ExDb(sled::Db);

#[verifier::external_type_specification]
#[verifier::external_body]
pub struct ExTree(sled::Tree);

/// The map from stored byte keys to stored byte values that a tree handle
/// denotes. Fresh handles carry unknown contents (whatever is on disk);
/// the wrappers below say how each call reads or changes the map.
pub uninterp spec fn tree_entries(t: sled::Tree) -> Map<Seq<u8>, Seq<u8>>;

/// A lower bound on every identifier the durable counter of this store
/// can still hand out.
pub uninterp spec fn id_floor(db: sled::Db) -> int;

/// Relies on `sled::open`: opens the store rooted at `path`, creating it
/// if absent; fails if the path cannot be locked or read.
#[verifier::external_body]
pub(crate) fn sled_open(path: &str) -> (r: Result<sled::Db, StorageError>)
    ensures
        r matches Err(e) ==> e == StorageError::StorageUnavailable,
{
    match sled::open(path) {
        Ok(db) => Ok(db),
        Err(_) => Err(StorageError::StorageUnavailable),
    }
}

/// Relies on `sled::Db::open_tree`: opens the tree of that name, creating
/// it on first use. What the returned handle holds depends on what is in
/// the store, so nothing is assumed of its contents.
#[verifier::external_body]
pub(crate) fn db_open_tree(db: &sled::Db, name: &str) -> (r: Result<sled::Tree, StorageError>)
    ensures
        r matches Err(e) ==> e == StorageError::StorageUnavailable,
{
    match db.open_tree(name) {
        Ok(t) => Ok(t),
        Err(_) => Err(StorageError::StorageUnavailable),
    }
}

/// Relies on `sled::Db::generate_id`: a monotonic counter, persisted with
/// its high-water mark so that the same value is never given out twice
/// for the lifetime of the store, across restarts included. The counter
/// only advances, also on a failed call.
#[verifier::external_body]
pub(crate) fn db_generate_id(db: &mut sled::Db) -> (r: Result<u64, StorageError>)
    ensures
        r matches Ok(id) ==> id_floor(*old(db)) <= id && id < id_floor(*final(db)),
        r matches Err(e) ==> e == StorageError::AllocatorExhausted,
        r is Err ==> id_floor(*old(db)) <= id_floor(*final(db)),
{
    match db.generate_id() {
        Ok(id) => Ok(id),
        Err(_) => Err(StorageError::AllocatorExhausted),
    }
}

/// Relies on `sled::Tree::get`: a point lookup of the stored value under
/// exactly this key.
#[verifier::external_body]
pub(crate) fn tree_get(t: &sled::Tree, key: &[u8]) -> (r: Result<Option<Vec<u8>>, StorageError>)
    ensures
        r matches Ok(Some(b)) ==> tree_entries(*t).contains_key(key@) && b@ == tree_entries(
            *t,
        )[key@],
        (r matches Ok(o) && o is None) ==> !tree_entries(*t).contains_key(key@),
        r matches Err(e) ==> e == StorageError::StorageUnavailable,
{
    match t.get(key) {
        Ok(Some(v)) => Ok(Some(v.to_vec())),
        Ok(None) => Ok(None),
        Err(_) => Err(StorageError::StorageUnavailable),
    }
}

/// Relies on `sled::Tree::insert`: stores the value under the key,
/// overwriting unconditionally.
#[verifier::external_body]
pub(crate) fn tree_insert(t: &mut sled::Tree, key: &[u8], value: &[u8]) -> (r: Result<
    (),
    StorageError,
>)
    ensures
        r is Ok ==> tree_entries(*final(t)) == tree_entries(*old(t)).insert(key@, value@),
        r matches Err(e) ==> e == StorageError::StorageUnavailable,
{
    match t.insert(key, value) {
        Ok(_) => Ok(()),
        Err(_) => Err(StorageError::StorageUnavailable),
    }
}

/// Relies on `sled::Tree::remove`: removes the entry under the key and
/// returns the value it held, if any.
#[verifier::external_body]
pub(crate) fn tree_remove(t: &mut sled::Tree, key: &[u8]) -> (r: Result<
    Option<Vec<u8>>,
    StorageError,
>)
    ensures
        r is Ok ==> tree_entries(*final(t)) == tree_entries(*old(t)).remove(key@),
        r matches Ok(Some(b)) ==> tree_entries(*old(t)).contains_key(key@) && b@ == tree_entries(
            *old(t),
        )[key@],
        (r matches Ok(o) && o is None) ==> !tree_entries(*old(t)).contains_key(key@),
        r matches Err(e) ==> e == StorageError::StorageUnavailable,
{
    match t.remove(key) {
        Ok(Some(v)) => Ok(Some(v.to_vec())),
        Ok(None) => Ok(None),
        Err(_) => Err(StorageError::StorageUnavailable),
    }
}

/// Relies on `sled::Tree::contains_key`: an existence check without
/// reading the stored value.
#[verifier::external_body]
pub(crate) fn tree_contains(t: &sled::Tree, key: &[u8]) -> (r: Result<bool, StorageError>)
    ensures
        r matches Ok(b) ==> b == tree_entries(*t).contains_key(key@),
        r matches Err(e) ==> e == StorageError::StorageUnavailable,
{
    match t.contains_key(key) {
        Ok(b) => Ok(b),
        Err(_) => Err(StorageError::StorageUnavailable),
    }
}

/// Relies on `sled::Tree::iter`: yields every entry of the tree exactly
/// once, in ascending byte-lexicographic key order.
#[verifier::external_body]
pub(crate) fn tree_all(t: &sled::Tree) -> (r: Result<Vec<(Vec<u8>, Vec<u8>)>, StorageError>)
    ensures
        r matches Ok(items) ==> {
            &&& forall|i: int|
                0 <= i < items.len() ==> tree_entries(*t).contains_key(#[trigger] items[i].0@)
                    && tree_entries(*t)[items[i].0@] == items[i].1@
            &&& forall|k: Seq<u8>|
                tree_entries(*t).dom().contains(k) ==> exists|i: int|
                    0 <= i < items.len() && #[trigger] items[i].0@ == k
            &&& forall|i: int, j: int|
                0 <= i < j < items.len() ==> lex_less(#[trigger] items[i].0@, #[trigger] items[j].0@)
        },
        r matches Err(e) ==> e == StorageError::StorageUnavailable,
{
    let mut out = Vec::new();
    for item in t.iter() {
        match item {
            Ok((k, v)) => out.push((k.to_vec(), v.to_vec())),
            Err(_) => return Err(StorageError::StorageUnavailable),
        }
    }
    Ok(out)
}

/// Relies on `sled::Tree::scan_prefix`: yields exactly the entries whose
/// key begins with the prefix, in ascending byte-lexicographic key order.
#[verifier::external_body]
pub(crate) fn tree_scan_prefix(t: &sled::Tree, prefix: &[u8]) -> (r: Result<
    Vec<(Vec<u8>, Vec<u8>)>,
    StorageError,
>)
    ensures
        r matches Ok(items) ==> {
            &&& forall|i: int|
                0 <= i < items.len() ==> tree_entries(*t).contains_key(#[trigger] items[i].0@)
                    && tree_entries(*t)[items[i].0@] == items[i].1@ && items[i].0@.len()
                    >= prefix@.len() && items[i].0@.subrange(0, prefix@.len() as int) == prefix@
            &&& forall|k: Seq<u8>|
                tree_entries(*t).dom().contains(k) && k.len() >= prefix@.len() && k.subrange(
                    0,
                    prefix@.len() as int,
                ) == prefix@ ==> exists|i: int| 0 <= i < items.len() && #[trigger] items[i].0@ == k
            &&& forall|i: int, j: int|
                0 <= i < j < items.len() ==> lex_less(#[trigger] items[i].0@, #[trigger] items[j].0@)
        },
        r matches Err(e) ==> e == StorageError::StorageUnavailable,
{
    let mut out = Vec::new();
    for item in t.scan_prefix(prefix) {
        match item {
            Ok((k, v)) => out.push((k.to_vec(), v.to_vec())),
            Err(_) => return Err(StorageError::StorageUnavailable),
        }
    }
    Ok(out)
}

/// Relies on `sled::Tree::clear`: removes every entry of the tree.
#[verifier::external_body]
pub(crate) fn tree_clear(t: &mut sled::Tree) -> (r: Result<(), StorageError>)
    ensures
        r is Ok ==> forall|k: Seq<u8>| !(#[trigger] tree_entries(*final(t)).contains_key(k)),
        r matches Err(e) ==> e == StorageError::StorageUnavailable,
{
    match t.clear() {
        Ok(()) => Ok(()),
        Err(_) => Err(StorageError::StorageUnavailable),
    }
}

} // verus!
