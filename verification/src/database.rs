//! The storage handle and the typed table operations.
//!
//! A [`Database`] owns a lazily-initialized connection to the ordered
//! key-value engine; a [`Table`] is a handle to one named namespace in
//! it. Every operation encodes its logical key through the
//! order-preserving key codec, so a table's contract is stated over a map
//! from stored byte keys to stored byte values, with records related to
//! their bytes through the value codec.

use vstd::prelude::*;
use vstd::slice::slice_subrange;
use crate::codec::{decode_record, encode_record, spec_record_bytes, spec_record_of_bytes, Record};
use crate::errors::StorageError;
use crate::keys::{
    decode_single, encode_pair, encode_single, lemma_encode_single_order, lemma_lex_irreflexive,
    lemma_pair_prefix, lemma_pair_tail_order, lemma_single_bijective, lemma_single_round_trip,
    lex_less, spec_decode_single, spec_encode_pair, spec_encode_single,
};
use crate::store::{
    db_generate_id, db_open_tree, id_floor, sled_open, tree_all, tree_clear, tree_contains,
    tree_entries, tree_get, tree_insert, tree_remove, tree_scan_prefix,
};

verus! {

/// A handle to one named table of the store. Its mathematical view is
/// the map of stored entries it currently holds.
pub struct Table {
    tree: sled::Tree,
}

impl View for Table {
    type V = Map<Seq<u8>, Seq<u8>>;

    closed spec fn view(&self) -> Map<Seq<u8>, Seq<u8>> {
        tree_entries(self.tree)
    }
}

/// The storage handle: a connection to the engine that begins
/// uninitialized and is opened once at startup. Any data operation
/// before initialization fails fast with an unavailable-storage error
/// rather than operating on an empty store.
pub struct Database {
    db: Option<sled::Db>,
}

impl Default for Database {
    /// A fresh, uninitialized handle, as [`Database::new`] gives.
    fn default() -> (r: Self)
        ensures
            !r.is_init(),
    {
        Database::new()
    }
}

impl Database {
    /// Whether the store has been opened.
    pub closed spec fn is_init(self) -> bool {
        self.db is Some
    }

    /// A lower bound on every identifier the durable counter can still
    /// hand out.
    pub closed spec fn allocator_floor(self) -> int {
        match self.db {
            Option::Some(d) => id_floor(d),
            Option::None => 0,
        }
    }

    /// A fresh, uninitialized handle.
    pub fn new() -> (r: Self)
        ensures
            !r.is_init(),
    {
        Database { db: None }
    }

    /// Open (creating if absent) the on-disk store rooted at `path`.
    /// On failure the handle is left exactly as it was.
    pub fn init(&mut self, path: &str) -> (r: Result<(), StorageError>)
        ensures
            r is Ok ==> final(self).is_init(),
            r matches Err(e) ==> e == StorageError::StorageUnavailable && *final(self) == *old(
                self,
            ),
    {
        match sled_open(path) {
            Ok(d) => {
                self.db = Some(d);
                Ok(())
            },
            Err(e) => Err(e),
        }
    }

    /// Hand out an identifier that is never repeated for the lifetime of
    /// the store: each success is at least the current allocator floor
    /// and strictly below the floor left behind, so any number of calls
    /// return pairwise distinct, strictly increasing values. Gaps are
    /// permitted.
    pub fn get_monotonic_id(&mut self) -> (r: Result<u64, StorageError>)
        ensures
            final(self).is_init() == old(self).is_init(),
            old(self).allocator_floor() <= final(self).allocator_floor(),
            !old(self).is_init() ==> (r matches Err(e) && e == StorageError::StorageUnavailable
                && *final(self) == *old(self)),
            r matches Ok(id) ==> old(self).is_init() && old(self).allocator_floor() <= id && id
                < final(self).allocator_floor(),
            old(self).is_init() && r is Err ==> (r matches Err(e) && e
                == StorageError::AllocatorExhausted),
    {
        match self.db.take() {
            None => Err(StorageError::StorageUnavailable),
            Some(mut d) => {
                let r = db_generate_id(&mut d);
                self.db = Some(d);
                r
            },
        }
    }

    /// Open the named table, creating it on first use. Repeated opens of
    /// the same name address the same underlying namespace on disk, but
    /// the contracts model each handle as owning its map: keep a single
    /// handle per name, since a write through one handle is not
    /// reflected in the view of another handle of the same name. Fails
    /// fast when the store is not initialized.
    pub fn open_table(&self, name: &str) -> (r: Result<Table, StorageError>)
        ensures
            !self.is_init() ==> (r matches Err(e) && e == StorageError::StorageUnavailable),
            r matches Err(e) ==> e == StorageError::StorageUnavailable,
    {
        match &self.db {
            None => Err(StorageError::StorageUnavailable),
            Some(d) => match db_open_tree(d, name) {
                Ok(t) => Ok(Table { tree: t }),
                Err(e) => Err(e),
            },
        }
    }

    /// Read a single record from a single-key table; absence is not an
    /// error.
    pub fn read_item<V: Record>(&self, table: &Table, id: u64) -> (r: Result<
        Option<V>,
        StorageError,
    >)
        ensures
            r matches Ok(Some(v)) ==> table@.contains_key(spec_encode_single(id))
                && spec_record_of_bytes::<V>(table@[spec_encode_single(id)]) == Some(v@),
            (r matches Ok(o) && o is None) ==> !table@.contains_key(spec_encode_single(id)),
            r matches Err(e) ==> read_error::<V>(table@, spec_encode_single(id), e),
    {
        let key = encode_single(id);
        match tree_get(&table.tree, key.as_slice()) {
            Ok(Some(b)) => match decode_record::<V>(b.as_slice()) {
                Ok(v) => Ok(Some(v)),
                Err(e) => Err(e),
            },
            Ok(None) => Ok(None),
            Err(e) => Err(e),
        }
    }

    /// Existence check under a single key, without paying to decode the
    /// stored value.
    pub fn contains(&self, table: &Table, id: u64) -> (r: Result<bool, StorageError>)
        ensures
            r matches Ok(b) ==> b == table@.contains_key(spec_encode_single(id)),
            r matches Err(e) ==> e == StorageError::StorageUnavailable,
    {
        let key = encode_single(id);
        tree_contains(&table.tree, key.as_slice())
    }

    /// Existence check under a composite key.
    pub fn contains_paired(&self, table: &Table, id1: u64, id2: u64) -> (r: Result<
        bool,
        StorageError,
    >)
        ensures
            r matches Ok(b) ==> b == table@.contains_key(spec_encode_pair(id1, id2)),
            r matches Err(e) ==> e == StorageError::StorageUnavailable,
    {
        let key = encode_pair(id1, id2);
        tree_contains(&table.tree, key.as_slice())
    }

    /// Write a record under a single key, overwriting unconditionally.
    /// On success the table holds exactly the record's encoding under
    /// the encoded key, and those bytes decode back to the record.
    pub fn write_item<V: Record>(&self, table: &mut Table, id: u64, value: &V) -> (r: Result<
        (),
        StorageError,
    >)
        ensures
            r is Ok ==> final(table)@ == old(table)@.insert(
                spec_encode_single(id),
                spec_record_bytes::<V>(value@),
            ) && spec_record_of_bytes::<V>(spec_record_bytes::<V>(value@)) == Some(value@),
            r matches Err(e) ==> e == StorageError::StorageUnavailable,
    {
        let key = encode_single(id);
        let bytes = match encode_record(value) {
            Ok(b) => b,
            Err(e) => {
                return Err(e);
            },
        };
        tree_insert(&mut table.tree, key.as_slice(), bytes.as_slice())
    }

    /// Delete the record under a single key, returning the just-deleted
    /// value so the caller can cascade secondary-index cleanup.
    pub fn delete_item<V: Record>(&self, table: &mut Table, id: u64) -> (r: Result<
        Option<V>,
        StorageError,
    >)
        ensures
            r is Ok ==> final(table)@ == old(table)@.remove(spec_encode_single(id)),
            r matches Ok(Some(v)) ==> old(table)@.contains_key(spec_encode_single(id))
                && spec_record_of_bytes::<V>(old(table)@[spec_encode_single(id)]) == Some(v@),
            (r matches Ok(o) && o is None) ==> !old(table)@.contains_key(spec_encode_single(id)),
            r matches Err(e) ==> e == StorageError::StorageUnavailable || (e
                == StorageError::DecodeError && old(table)@.contains_key(spec_encode_single(id))
                && spec_record_of_bytes::<V>(old(table)@[spec_encode_single(id)]) is None
                && final(table)@ == old(table)@.remove(spec_encode_single(id))),
    {
        let key = encode_single(id);
        match tree_remove(&mut table.tree, key.as_slice()) {
            Ok(Some(b)) => match decode_record::<V>(b.as_slice()) {
                Ok(v) => Ok(Some(v)),
                Err(e) => Err(e),
            },
            Ok(None) => Ok(None),
            Err(e) => Err(e),
        }
    }

    /// Read one record from a composite-key table.
    pub fn read_paired_item<V: Record>(&self, table: &Table, id1: u64, id2: u64) -> (r: Result<
        Option<V>,
        StorageError,
    >)
        ensures
            r matches Ok(Some(v)) ==> table@.contains_key(spec_encode_pair(id1, id2))
                && spec_record_of_bytes::<V>(table@[spec_encode_pair(id1, id2)]) == Some(v@),
            (r matches Ok(o) && o is None) ==> !table@.contains_key(spec_encode_pair(id1, id2)),
            r matches Err(e) ==> read_error::<V>(table@, spec_encode_pair(id1, id2), e),
    {
        let key = encode_pair(id1, id2);
        match tree_get(&table.tree, key.as_slice()) {
            Ok(Some(b)) => match decode_record::<V>(b.as_slice()) {
                Ok(v) => Ok(Some(v)),
                Err(e) => Err(e),
            },
            Ok(None) => Ok(None),
            Err(e) => Err(e),
        }
    }

    /// Write one record under a composite key.
    pub fn write_paired_item<V: Record>(
        &self,
        table: &mut Table,
        id1: u64,
        id2: u64,
        value: &V,
    ) -> (r: Result<(), StorageError>)
        ensures
            r is Ok ==> final(table)@ == old(table)@.insert(
                spec_encode_pair(id1, id2),
                spec_record_bytes::<V>(value@),
            ) && spec_record_of_bytes::<V>(spec_record_bytes::<V>(value@)) == Some(value@),
            r matches Err(e) ==> e == StorageError::StorageUnavailable,
    {
        let key = encode_pair(id1, id2);
        let bytes = match encode_record(value) {
            Ok(b) => b,
            Err(e) => {
                return Err(e);
            },
        };
        tree_insert(&mut table.tree, key.as_slice(), bytes.as_slice())
    }

    /// Delete the record under a composite key, returning the
    /// just-deleted value.
    pub fn delete_paired_item<V: Record>(&self, table: &mut Table, id1: u64, id2: u64) -> (r:
        Result<Option<V>, StorageError>)
        ensures
            r is Ok ==> final(table)@ == old(table)@.remove(spec_encode_pair(id1, id2)),
            r matches Ok(Some(v)) ==> old(table)@.contains_key(spec_encode_pair(id1, id2))
                && spec_record_of_bytes::<V>(old(table)@[spec_encode_pair(id1, id2)]) == Some(v@),
            (r matches Ok(o) && o is None) ==> !old(table)@.contains_key(
                spec_encode_pair(id1, id2),
            ),
            r matches Err(e) ==> e == StorageError::StorageUnavailable || (e
                == StorageError::DecodeError && old(table)@.contains_key(
                spec_encode_pair(id1, id2),
            ) && spec_record_of_bytes::<V>(old(table)@[spec_encode_pair(id1, id2)]) is None
                && final(table)@ == old(table)@.remove(spec_encode_pair(id1, id2))),
    {
        let key = encode_pair(id1, id2);
        match tree_remove(&mut table.tree, key.as_slice()) {
            Ok(Some(b)) => match decode_record::<V>(b.as_slice()) {
                Ok(v) => Ok(Some(v)),
                Err(e) => Err(e),
            },
            Ok(None) => Ok(None),
            Err(e) => Err(e),
        }
    }

    /// Remove every entry of a table; a test fixture's way to a fresh
    /// namespace in an existing store.
    pub fn clear_table(&self, table: &mut Table) -> (r: Result<(), StorageError>)
        ensures
            r is Ok ==> forall|k: Seq<u8>| !(#[trigger] final(table)@.contains_key(k)),
            r matches Err(e) ==> e == StorageError::StorageUnavailable,
    {
        tree_clear(&mut table.tree)
    }

    /// Read every record of a single-key table, in unspecified order:
    /// each returned record is stored in the table, and every stored
    /// entry is represented in the result.
    #[verifier::spinoff_prover]
    #[verifier::rlimit(50)]
    pub fn read_all<V: Record>(&self, table: &Table) -> (r: Result<Vec<V>, StorageError>)
        ensures
            r matches Ok(vs) ==> read_all_post::<V>(table@, vs@),
            r matches Err(e) ==> read_all_error::<V>(table@, e),
    {
        let raw = match tree_all(&table.tree) {
            Ok(v) => v,
            Err(e) => {
                return Err(e);
            },
        };
        let mut out: Vec<V> = Vec::new();
        let n = raw.len();
        let mut idx: usize = 0;
        while idx < n
            invariant
                n == raw.len(),
                idx <= n,
                out.len() == idx,
                forall|i: int|
                    0 <= i < n ==> table@.contains_key(#[trigger] raw[i].0@) && table@[raw[i].0@]
                        == raw[i].1@,
                forall|k: Seq<u8>|
                    #[trigger] table@.contains_key(k) ==> exists|i: int|
                        0 <= i < n && raw[i].0@ == k,
                forall|i: int|
                    0 <= i < idx ==> spec_record_of_bytes::<V>(#[trigger] raw[i].1@) == Some(
                        out[i]@,
                    ),
            decreases n - idx,
        {
            let vb = &raw[idx].1;
            let v = match decode_record::<V>(vb.as_slice()) {
                Ok(v) => v,
                Err(e) => {
                    proof {
                        assert(table@.contains_key(raw[idx as int].0@)
                            && spec_record_of_bytes::<V>(table@[raw[idx as int].0@]) is None);
                    }
                    return Err(e);
                },
            };
            out.push(v);
            idx += 1;
        }
        proof {
            assert forall|i: int, j: int| 0 <= i < j < raw@.len() implies raw@[i].0@
                != raw@[j].0@ by {
                if raw@[i].0@ == raw@[j].0@ {
                    lemma_lex_irreflexive(raw@[i].0@);
                }
            }
            lemma_read_all_post::<V>(table@, raw@, out@);
        }
        Ok(out)
    }

    /// Read the records under the given identifiers, in the order given;
    /// missing identifiers are silently skipped.
    pub fn read_many<V: Record>(&self, table: &Table, ids: &Vec<u64>) -> (r: Result<
        Vec<V>,
        StorageError,
    >)
        ensures
            r matches Ok(vs) ==> vs@.map_values(|v: V| v@) == spec_read_many::<V>(
                table@,
                ids@,
            ),
            r matches Err(e) ==> e == StorageError::StorageUnavailable || (e
                == StorageError::DecodeError && (exists|i: int|
            0 <= i < ids@.len() && table@.contains_key(spec_encode_single(#[trigger] ids@[i]))
                && spec_record_of_bytes::<V>(table@[spec_encode_single(ids@[i])]) is None)),
    {
        let mut out: Vec<V> = Vec::new();
        let n = ids.len();
        let mut idx: usize = 0;
        while idx < n
            invariant
                n == ids.len(),
                idx <= n,
                out@.map_values(|v: V| v@) == spec_read_many::<V>(
                    table@,
                    ids@.subrange(0, idx as int),
                ),
            decreases n - idx,
        {
            match self.read_item::<V>(table, ids[idx]) {
                Ok(Some(v)) => {
                    out.push(v);
                },
                Ok(None) => {},
                Err(e) => {
                    return Err(e);
                },
            }
            proof {
                assert(ids@.subrange(0, idx + 1).drop_last() =~= ids@.subrange(0, idx as int));
                assert(ids@.subrange(0, idx + 1).last() == ids@[idx as int]);
            }
            idx += 1;
        }
        proof {
            assert(ids@.subrange(0, n as int) =~= ids@);
        }
        Ok(out)
    }

    /// List the identifiers of every entry of a single-key table, in
    /// strictly ascending order.
    #[verifier::spinoff_prover]
    #[verifier::rlimit(50)]
    pub fn list_item(&self, table: &Table) -> (r: Result<Vec<u64>, StorageError>)
        ensures
            r matches Ok(ids) ==> list_keys_post(table@, ids@),
            r matches Err(e) ==> e == StorageError::StorageUnavailable || (e
                == StorageError::MalformedKey && (exists|k: Seq<u8>|
            #[trigger] table@.contains_key(k) && k.len() != 8)),
    {
        let raw = match tree_all(&table.tree) {
            Ok(v) => v,
            Err(e) => {
                return Err(e);
            },
        };
        let mut out: Vec<u64> = Vec::new();
        let n = raw.len();
        let mut idx: usize = 0;
        while idx < n
            invariant
                n == raw.len(),
                idx <= n,
                out.len() == idx,
                forall|i: int|
                    0 <= i < n ==> table@.contains_key(#[trigger] raw[i].0@) && table@[raw[i].0@]
                        == raw[i].1@,
                forall|k: Seq<u8>|
                    #[trigger] table@.contains_key(k) ==> exists|i: int|
                        0 <= i < n && raw[i].0@ == k,
                forall|i: int, j: int| 0 <= i < j < n ==> lex_less(raw[i].0@, raw[j].0@),
                forall|i: int|
                    0 <= i < idx ==> (#[trigger] raw[i].0@).len() == 8 && out[i]
                        == spec_decode_single(raw[i].0@),
            decreases n - idx,
        {
            let k = &raw[idx].0;
            if k.len() != 8 {
                proof {
                    assert(table@.contains_key(raw[idx as int].0@) && raw[idx as int].0@.len()
                        != 8);
                }
                return Err(StorageError::MalformedKey);
            }
            let id = match decode_single(k.as_slice()) {
                Ok(x) => x,
                Err(e) => {
                    proof {
                        assert(false);
                    }
                    return Err(e);
                },
            };
            out.push(id);
            idx += 1;
        }
        proof {
            assert forall|i: int| 0 <= i < n implies spec_encode_single(out@[i])
                == raw[i].0@ by {
                lemma_single_bijective(raw[i].0@);
            }
            assert forall|i: int| 0 <= i < out@.len() implies table@.contains_key(
                spec_encode_single(#[trigger] out@[i]),
            ) by {
                assert(spec_encode_single(out@[i]) == raw[i].0@);
            }
            assert forall|k: Seq<u8>| #[trigger] table@.contains_key(k) implies exists|i: int|
                0 <= i < out@.len() && spec_encode_single(#[trigger] out@[i]) == k by {
                let i = choose|i: int| 0 <= i < n && raw[i].0@ == k;
                assert(spec_encode_single(out@[i]) == k);
            }
            assert forall|i: int, j: int| 0 <= i < j < n implies out@[i] < out@[j] by {
                lemma_single_bijective(raw[i].0@);
                lemma_single_bijective(raw[j].0@);
                lemma_encode_single_order(out@[i], out@[j]);
            }
            assert(list_keys_post(table@, out@));
        }
        Ok(out)
    }

    /// Prefix scan of a composite-key table by its leading component:
    /// returns exactly the entries whose first component is `id1`, as
    /// pairs of trailing component and record, in strictly ascending
    /// order of the trailing component.
    pub fn scan_items_by_prefix<V: Record>(&self, table: &Table, id1: u64) -> (r: Result<
        Vec<(u64, V)>,
        StorageError,
    >)
        ensures
            r matches Ok(items) ==> scan_post::<V>(table@, id1, items@),
            r matches Err(e) ==> scan_error::<V>(table@, id1, e),
    {
        let prefix = encode_single(id1);
        let raw = match tree_scan_prefix(&table.tree, prefix.as_slice()) {
            Ok(v) => v,
            Err(e) => {
                return Err(e);
            },
        };
        let mut out: Vec<(u64, V)> = Vec::new();
        let n = raw.len();
        let mut idx: usize = 0;
        while idx < n
            invariant
                n == raw.len(),
                idx <= n,
                out.len() == idx,
                prefix@ == spec_encode_single(id1),
                forall|i: int|
                    0 <= i < n ==> table@.contains_key(#[trigger] raw[i].0@) && table@[raw[i].0@]
                        == raw[i].1@ && raw[i].0@.len() >= 8 && raw[i].0@.subrange(0, 8)
                        == spec_encode_single(id1),
                forall|k: Seq<u8>|
                    #[trigger] table@.contains_key(k) && k.len() >= 8 && k.subrange(0, 8)
                        == spec_encode_single(id1) ==> exists|i: int| 0 <= i < n && raw[i].0@ == k,
                forall|i: int, j: int| 0 <= i < j < n ==> lex_less(raw[i].0@, raw[j].0@),
                forall|i: int|
                    0 <= i < idx ==> (#[trigger] raw[i].0@).len() == 16 && out[i].0
                        == spec_decode_single(raw[i].0@.subrange(8, 16))
                        && spec_record_of_bytes::<V>(raw[i].1@) == Some(out[i].1@),
            decreases n - idx,
        {
            let k = &raw[idx].0;
            if k.len() != 16 {
                proof {
                    assert(table@.contains_key(raw[idx as int].0@) && raw[idx as int].0@.len() >= 8
                        && raw[idx as int].0@.subrange(0, 8) == spec_encode_single(id1)
                        && raw[idx as int].0@.len() != 16);
                }
                return Err(StorageError::MalformedKey);
            }
            let tail = slice_subrange(k.as_slice(), 8, 16);
            let b2 = match decode_single(tail) {
                Ok(b) => b,
                Err(e) => {
                    proof {
                        assert(false);
                    }
                    return Err(e);
                },
            };
            let vb = &raw[idx].1;
            let v = match decode_record::<V>(vb.as_slice()) {
                Ok(v) => v,
                Err(e) => {
                    proof {
                        assert(table@.contains_key(raw[idx as int].0@) && raw[idx as int].0@.len()
                            == 16 && raw[idx as int].0@.subrange(0, 8) == spec_encode_single(id1)
                            && spec_record_of_bytes::<V>(table@[raw[idx as int].0@]) is None);
                    }
                    return Err(e);
                },
            };
            out.push((b2, v));
            idx += 1;
        }
        proof {
            assert forall|i: int| 0 <= i < n implies table@.contains_key(
                spec_encode_pair(id1, #[trigger] out@[i].0),
            ) && spec_record_of_bytes::<V>(table@[spec_encode_pair(id1, out@[i].0)]) == Some(
                out@[i].1@,
            ) by {
                let k = raw[i].0@;
                lemma_single_bijective(k.subrange(8, 16));
                assert(spec_encode_single(out@[i].0) =~= k.subrange(8, 16));
                assert(spec_encode_pair(id1, out@[i].0) =~= k.subrange(0, 8) + k.subrange(8, 16));
                assert(k =~= k.subrange(0, 8) + k.subrange(8, 16));
                assert(spec_encode_pair(id1, out@[i].0) == k);
            }
            assert forall|b: u64| table@.contains_key(spec_encode_pair(id1, b)) implies exists|
                i: int,
            | 0 <= i < out@.len() && (#[trigger] out@[i].0) == b by {
                lemma_pair_prefix(id1, b);
                let kk = spec_encode_pair(id1, b);
                assert(kk.len() >= 8 && kk.subrange(0, 8) == spec_encode_single(id1));
                let i = choose|i: int| 0 <= i < n && raw[i].0@ == kk;
                lemma_single_round_trip(b);
                assert(kk.subrange(8, 16) =~= spec_encode_single(b));
                assert(out@[i].0 == b);
            }
            assert forall|i: int, j: int| 0 <= i < j < n implies out@[i].0 < out@[j].0 by {
                lemma_pair_tail_order(id1, raw[i].0@, raw[j].0@);
            }
            assert(scan_post::<V>(table@, id1, out@));
        }
        Ok(out)
    }
}

/// A positional decode of a full-table listing meets the full-table
/// read's promise.
proof fn lemma_read_all_post<V: Record>(
    m: Map<Seq<u8>, Seq<u8>>,
    raw: Seq<(Vec<u8>, Vec<u8>)>,
    vs: Seq<V>,
)
    requires
        vs.len() == raw.len(),
        forall|i: int|
            0 <= i < raw.len() ==> m.contains_key(#[trigger] raw[i].0@) && m[raw[i].0@]
                == raw[i].1@,
        forall|k: Seq<u8>|
            #[trigger] m.contains_key(k) ==> exists|i: int| 0 <= i < raw.len() && raw[i].0@ == k,
        forall|i: int, j: int| 0 <= i < j < raw.len() ==> raw[i].0@ != raw[j].0@,
        forall|i: int|
            0 <= i < raw.len() ==> spec_record_of_bytes::<V>(#[trigger] raw[i].1@) == Some(
                vs[i]@,
            ),
    ensures
        read_all_post::<V>(m, vs),
{
    let ks = raw.map_values(|p: (Vec<u8>, Vec<u8>)| p.0@);
    assert forall|i: int| 0 <= i < ks.len() implies m.contains_key(#[trigger] ks[i])
        && spec_record_of_bytes::<V>(m[ks[i]]) == Some(vs[i]@) by {
        assert(ks[i] == raw[i].0@);
    }
    assert forall|k: Seq<u8>| #[trigger] m.contains_key(k) implies exists|i: int|
        0 <= i < ks.len() && ks[i] == k by {
        let i = choose|i: int| 0 <= i < raw.len() && raw[i].0@ == k;
        assert(ks[i] == k);
    }
    assert(table_rows::<V>(m, ks, vs));
}

/// The rows of a full-table read: pairwise distinct stored keys, one per
/// result element in order, covering every stored key, each element the
/// decode of its key's stored bytes.
pub open spec fn table_rows<V: Record>(
    m: Map<Seq<u8>, Seq<u8>>,
    ks: Seq<Seq<u8>>,
    vs: Seq<V>,
) -> bool {
    &&& ks.len() == vs.len()
    &&& forall|i: int|
        0 <= i < ks.len() ==> m.contains_key(#[trigger] ks[i]) && spec_record_of_bytes::<V>(
            m[ks[i]],
        ) == Some(vs[i]@)
    &&& forall|i: int, j: int| 0 <= i < j < ks.len() ==> ks[i] != ks[j]
    &&& forall|k: Seq<u8>|
        #[trigger] m.contains_key(k) ==> exists|i: int| 0 <= i < ks.len() && ks[i] == k
}

/// What a full-table read promises: the result pairs up with the stored
/// keys one to one, so it holds exactly one decoded record per stored
/// entry — no stored entry missing, none represented twice.
pub open spec fn read_all_post<V: Record>(m: Map<Seq<u8>, Seq<u8>>, vs: Seq<V>) -> bool {
    exists|ks: Seq<Seq<u8>>| #[trigger] table_rows::<V>(m, ks, vs)
}

/// The error cases a point read of the slot `k` in table `m` can report,
/// each tied to its cause; the engine's own I/O failure stays possible
/// on any input.
pub open spec fn read_error<V: Record>(m: Map<Seq<u8>, Seq<u8>>, k: Seq<u8>, e: StorageError) -> bool {
    ||| e == StorageError::StorageUnavailable
    ||| (e == StorageError::DecodeError && m.contains_key(k) && spec_record_of_bytes::<V>(
        m[k],
    ) is None)
}

/// The error cases a full-table read of `m` can report, tied to their
/// causes.
pub open spec fn read_all_error<V: Record>(m: Map<Seq<u8>, Seq<u8>>, e: StorageError) -> bool {
    ||| e == StorageError::StorageUnavailable
    ||| (e == StorageError::DecodeError && (exists|k: Seq<u8>|
        #[trigger] m.contains_key(k) && spec_record_of_bytes::<V>(m[k]) is None))
}

/// The error cases a prefix scan of `m` by leading component `a` can
/// report, tied to their causes: a key in the bucket of the wrong width,
/// or an undecodable record in the bucket.
pub open spec fn scan_error<V: Record>(m: Map<Seq<u8>, Seq<u8>>, a: u64, e: StorageError) -> bool {
    ||| e == StorageError::StorageUnavailable
    ||| (e == StorageError::MalformedKey && (exists|k: Seq<u8>|
        #[trigger] m.contains_key(k) && k.len() >= 8 && k.subrange(0, 8) == spec_encode_single(a)
            && k.len() != 16))
    ||| (e == StorageError::DecodeError && (exists|k: Seq<u8>|
        #[trigger] m.contains_key(k) && k.len() == 16 && k.subrange(0, 8) == spec_encode_single(a)
            && spec_record_of_bytes::<V>(m[k]) is None))
}

/// What a key listing promises: exactly the identifiers whose encoded
/// key is stored, in strictly ascending order.
pub open spec fn list_keys_post(m: Map<Seq<u8>, Seq<u8>>, ids: Seq<u64>) -> bool {
    &&& forall|i: int| 0 <= i < ids.len() ==> m.contains_key(spec_encode_single(#[trigger] ids[i]))
    &&& forall|k: Seq<u8>|
        #[trigger] m.contains_key(k) ==> exists|i: int|
            0 <= i < ids.len() && spec_encode_single(#[trigger] ids[i]) == k
    &&& forall|i: int, j: int| 0 <= i < j < ids.len() ==> ids[i] < ids[j]
}

/// What a prefix scan by leading component `a` promises: exactly the
/// entries whose composite key starts with `a`, as pairs of trailing
/// component and record, strictly ascending by trailing component.
pub open spec fn scan_post<V: Record>(m: Map<Seq<u8>, Seq<u8>>, a: u64, items: Seq<(u64, V)>) -> bool {
    &&& forall|i: int|
        0 <= i < items.len() ==> m.contains_key(spec_encode_pair(a, #[trigger] items[i].0))
            && spec_record_of_bytes::<V>(m[spec_encode_pair(a, items[i].0)]) == Some(items[i].1@)
    &&& forall|b: u64|
        m.contains_key(#[trigger] spec_encode_pair(a, b)) ==> exists|i: int|
            0 <= i < items.len() && (#[trigger] items[i].0) == b
    &&& forall|i: int, j: int| 0 <= i < j < items.len() ==> items[i].0 < items[j].0
}

/// The records `read_many` returns for a sequence of identifiers: the
/// stored, decodable records of the present identifiers, in request
/// order.
pub open spec fn spec_read_many<V: Record>(m: Map<Seq<u8>, Seq<u8>>, ids: Seq<u64>) -> Seq<V::V>
    decreases ids.len(),
{
    if ids.len() == 0 {
        Seq::empty()
    } else {
        let rest = spec_read_many::<V>(m, ids.drop_last());
        let k = spec_encode_single(ids.last());
        if m.contains_key(k) {
            match spec_record_of_bytes::<V>(m[k]) {
                Some(v) => rest.push(v),
                None => rest,
            }
        } else {
            rest
        }
    }
}

/// Drop the trailing key components from scanned pairs, keeping the
/// records in scan order.
pub fn pair_values<V: Record>(items: Vec<(u64, V)>) -> (r: Vec<V>)
    ensures
        r@.map_values(|v: V| v@) == items@.map_values(|p: (u64, V)| p.1@),
{
    let ghost items0 = items@;
    let mut rest = items;
    let mut out: Vec<V> = Vec::new();
    while rest.len() > 0
        invariant
            out@.len() + rest@.len() == items0.len(),
            rest@ =~= items0.subrange(out@.len() as int, items0.len() as int),
            forall|i: int| 0 <= i < out@.len() ==> (#[trigger] out@[i])@ == items0[i].1@,
        decreases rest@.len(),
    {
        let ghost k = out@.len() as int;
        let p = rest.remove(0);
        proof {
            assert(p == items0[k]);
        }
        out.push(p.1);
        proof {
            assert(rest@ =~= items0.subrange(out@.len() as int, items0.len() as int));
        }
    }
    proof {
        assert(out@.map_values(|v: V| v@) =~= items0.map_values(|p: (u64, V)| p.1@));
    }
    out
}

/// Write-then-read, stated over the table views the operations use: a
/// table that has just had bytes written under an identifier reads those
/// bytes back under it, and a table that has just had an identifier
/// deleted holds nothing under it.
pub proof fn lemma_write_then_read(t0: Map<Seq<u8>, Seq<u8>>, id: u64, bytes: Seq<u8>)
    ensures
        t0.insert(spec_encode_single(id), bytes).contains_key(spec_encode_single(id)),
        t0.insert(spec_encode_single(id), bytes)[spec_encode_single(id)] == bytes,
        !t0.remove(spec_encode_single(id)).contains_key(spec_encode_single(id)),
{
}

/// Distinct identifiers encode to distinct keys, so a write under one
/// identifier leaves every other identifier's slot untouched.
pub proof fn lemma_write_frame(t0: Map<Seq<u8>, Seq<u8>>, id1: u64, id2: u64, bytes: Seq<u8>)
    requires
        id1 != id2,
    ensures
        t0.insert(spec_encode_single(id1), bytes).contains_key(spec_encode_single(id2))
            == t0.contains_key(spec_encode_single(id2)),
        t0.contains_key(spec_encode_single(id2)) ==> t0.insert(
            spec_encode_single(id1),
            bytes,
        )[spec_encode_single(id2)] == t0[spec_encode_single(id2)],
{
    lemma_single_round_trip(id1);
    lemma_single_round_trip(id2);
    assert(spec_encode_single(id1) != spec_encode_single(id2));
}

} // verus!
