use railstore::database::{Database, Table};
use railstore::errors::StorageError;
use railstore::id_types::TrainId;
use railstore::train::Train;

fn fresh_table(db: &Database, name: &str) -> Table {
    let mut t = db.open_table(name).unwrap();
    db.clear_table(&mut t).unwrap();
    t
}

#[test]
fn operations_before_init_fail_fast() {
    let mut db = Database::new();
    assert_eq!(db.get_monotonic_id().unwrap_err(), StorageError::StorageUnavailable);
    assert!(db.open_table("trains").is_err());
}

#[test]
fn monotonic_ids_are_distinct_and_increasing() {
    let mut db = Database::new();
    db.init("/tmp/railstore_test_ids_db").unwrap();
    let mut seen: Vec<u64> = Vec::new();
    for _ in 0..100 {
        let id = db.get_monotonic_id().unwrap();
        for &old in &seen {
            assert_ne!(id, old);
        }
        if let Some(&last) = seen.last() {
            assert!(id > last);
        }
        seen.push(id);
    }
}

#[test]
fn monotonic_ids_survive_restart() {
    let path = "/tmp/railstore_test_restart_db";
    let last_before = {
        let mut db = Database::new();
        db.init(path).unwrap();
        let mut last = 0;
        for _ in 0..10 {
            last = db.get_monotonic_id().unwrap();
        }
        last
    };
    // The first handle is dropped; reopening simulates a restart.
    let mut db = Database::new();
    db.init(path).unwrap();
    let after = db.get_monotonic_id().unwrap();
    assert!(after > last_before);
}

#[test]
fn write_then_read_then_delete() {
    let mut db = Database::new();
    db.init("/tmp/railstore_test_wrd_db").unwrap();
    let mut trains = fresh_table(&db, "trains");

    assert!(db.read_item::<Train>(&trains, 4).unwrap().is_none());
    db.write_item(&mut trains, 4, &Train { id: TrainId(4) }).unwrap();
    assert!(db.contains(&trains, 4).unwrap());
    assert!(!db.contains(&trains, 5).unwrap());
    let got: Train = db.read_item(&trains, 4).unwrap().unwrap();
    assert_eq!(got.id, TrainId(4));

    // Overwrite is unconditional.
    db.write_item(&mut trains, 4, &Train { id: TrainId(4) }).unwrap();
    let deleted: Train = db.delete_item(&mut trains, 4).unwrap().unwrap();
    assert_eq!(deleted.id, TrainId(4));
    let gone: Option<Train> = db.read_item(&trains, 4).unwrap();
    assert!(gone.is_none());
    let already_gone: Option<Train> = db.delete_item(&mut trains, 4).unwrap();
    assert!(already_gone.is_none());
}

#[test]
fn read_many_skips_missing_and_keeps_order() {
    let mut db = Database::new();
    db.init("/tmp/railstore_test_many_db").unwrap();
    let mut trains = fresh_table(&db, "trains");
    for id in [2u64, 5, 9] {
        db.write_item(&mut trains, id, &Train { id: TrainId(id) }).unwrap();
    }
    let got: Vec<Train> = db.read_many(&trains, &vec![9, 3, 2, 7]).unwrap();
    let ids: Vec<u64> = got.iter().map(|t| t.id.0).collect();
    assert_eq!(ids, vec![9, 2]);
}

#[test]
fn read_all_and_list_item_cover_the_table() {
    let mut db = Database::new();
    db.init("/tmp/railstore_test_all_db").unwrap();
    let mut trains = fresh_table(&db, "trains");
    for id in [12u64, 3, 7] {
        db.write_item(&mut trains, id, &Train { id: TrainId(id) }).unwrap();
    }
    let all: Vec<Train> = db.read_all(&trains).unwrap();
    let mut ids: Vec<u64> = all.iter().map(|t| t.id.0).collect();
    ids.sort();
    assert_eq!(ids, vec![3, 7, 12]);
    // Keys come back already sorted ascending.
    assert_eq!(db.list_item(&trains).unwrap(), vec![3, 7, 12]);
}

#[test]
fn read_item_reports_decode_error_for_wrong_type() {
    let mut db = Database::new();
    db.init("/tmp/railstore_test_decerr_db").unwrap();
    let mut trains = fresh_table(&db, "trains");
    db.write_item(&mut trains, 1, &Train { id: TrainId(1) }).unwrap();
    let r: Result<Option<railstore::ticket::Ticket>, StorageError> = db.read_item(&trains, 1);
    assert_eq!(r.unwrap_err(), StorageError::DecodeError);
}

#[test]
fn list_item_reports_malformed_keys_on_composite_table() {
    let mut db = Database::new();
    db.init("/tmp/railstore_test_malformed_db").unwrap();
    let mut pairs = fresh_table(&db, "pairs");
    db.write_paired_item(&mut pairs, 5, 1, &Train { id: TrainId(1) }).unwrap();
    // A composite-key table has 16-byte keys; listing it as a single-key
    // table must be rejected, not mis-decoded.
    assert_eq!(db.list_item(&pairs).unwrap_err(), StorageError::MalformedKey);
}

#[test]
fn paired_write_read_delete() {
    let mut db = Database::new();
    db.init("/tmp/railstore_test_paired_db").unwrap();
    let mut pairs = fresh_table(&db, "pairs");
    db.write_paired_item(&mut pairs, 5, 1, &Train { id: TrainId(1) }).unwrap();
    assert!(db.contains_paired(&pairs, 5, 1).unwrap());
    assert!(!db.contains_paired(&pairs, 5, 2).unwrap());
    assert!(!db.contains_paired(&pairs, 1, 5).unwrap());
    let got: Train = db.read_paired_item(&pairs, 5, 1).unwrap().unwrap();
    assert_eq!(got.id, TrainId(1));
    let prev: Train = db.delete_paired_item(&mut pairs, 5, 1).unwrap().unwrap();
    assert_eq!(prev.id, TrainId(1));
    let gone: Option<Train> = db.read_paired_item(&pairs, 5, 1).unwrap();
    assert!(gone.is_none());
}

#[test]
fn scan_prefix_returns_exactly_the_bucket_in_order() {
    let mut db = Database::new();
    db.init("/tmp/railstore_test_scan_db").unwrap();
    let mut pairs = fresh_table(&db, "pairs");
    db.write_paired_item(&mut pairs, 5, 2, &Train { id: TrainId(52) }).unwrap();
    db.write_paired_item(&mut pairs, 5, 1, &Train { id: TrainId(51) }).unwrap();
    db.write_paired_item(&mut pairs, 7, 1, &Train { id: TrainId(71) }).unwrap();
    let hits: Vec<(u64, Train)> = db.scan_items_by_prefix(&pairs, 5).unwrap();
    let keys: Vec<u64> = hits.iter().map(|p| p.0).collect();
    let vals: Vec<u64> = hits.iter().map(|p| p.1.id.0).collect();
    assert_eq!(keys, vec![1, 2]);
    assert_eq!(vals, vec![51, 52]);
    let other: Vec<(u64, Train)> = db.scan_items_by_prefix(&pairs, 6).unwrap();
    assert!(other.is_empty());
}

#[test]
fn error_descriptions_are_nonempty() {
    assert!(!StorageError::StorageUnavailable.describe().is_empty());
    assert!(!StorageError::MalformedKey.describe().is_empty());
    assert!(!StorageError::EncodeError.describe().is_empty());
    assert!(!StorageError::DecodeError.describe().is_empty());
    assert!(!StorageError::AllocatorExhausted.describe().is_empty());
}
