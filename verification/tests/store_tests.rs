use smolcar::db::Database;
use smolcar::records::{ExtrinsicInfo, StoredBlock};
use smolcar::store::StoreError;

fn empty_db() -> Database {
    Database::new(":memory:", vec![], vec![]).unwrap()
}

fn block(number: u32, timestamp: i64) -> StoredBlock {
    StoredBlock {
        number,
        hash: format!("0x{:x}", number),
        extrinsics: vec![ExtrinsicInfo {
            index: 0,
            hash: "0xe".to_string(),
            action: "Balances/transfer".to_string(),
            params: String::new(),
            events: vec![],
        }],
        timestamp,
    }
}

#[test]
fn get_on_empty_store_is_none_and_latest_is_none() {
    let db = empty_db();
    assert!(matches!(db.get_block(5), Ok(None)));
    assert!(matches!(db.get_latest_block_number(), Ok(None)));
}

#[test]
fn stored_block_is_returned_by_get() {
    let mut db = empty_db();
    db.store_block(&block(42, 100)).unwrap();
    let got = db.get_block(42).unwrap().unwrap();
    assert_eq!(got.number, 42);
    assert_eq!(got.hash, "0x2a");
    assert_eq!(got.timestamp, 100);
    assert_eq!(got.extrinsics.len(), 1);
    assert!(matches!(db.get_block(43), Ok(None)));
}

#[test]
fn upsert_twice_is_idempotent_and_latest_unaffected() {
    let mut db = empty_db();
    db.store_block(&block(7, 500)).unwrap();
    db.store_block(&block(9, 600)).unwrap();
    assert_eq!(db.get_latest_block_number().unwrap(), Some(9));
    // The same record again: get is unchanged, latest is unchanged.
    db.store_block(&block(7, 500)).unwrap();
    db.store_block(&block(7, 500)).unwrap();
    let got = db.get_block(7).unwrap().unwrap();
    assert_eq!(got.number, 7);
    assert_eq!(got.timestamp, 500);
    assert_eq!(db.get_latest_block_number().unwrap(), Some(9));
}

#[test]
fn upsert_replaces_the_row_for_its_key() {
    let mut db = empty_db();
    db.store_block(&block(7, 500)).unwrap();
    db.store_block(&block(7, 777)).unwrap();
    let got = db.get_block(7).unwrap().unwrap();
    assert_eq!(got.timestamp, 777);
}

#[test]
fn range_descending_is_ordered_and_bounded() {
    let mut db = empty_db();
    for n in 10u32..=20 {
        db.store_block(&block(n, n as i64)).unwrap();
    }
    let got = db.get_blocks_range(12, 18, 3).unwrap();
    let numbers: Vec<u32> = got.iter().map(|b| b.number).collect();
    assert_eq!(numbers, vec![18, 17, 16]);
}

#[test]
fn range_with_large_limit_returns_whole_window() {
    let mut db = empty_db();
    for n in 10u32..=20 {
        db.store_block(&block(n, 0)).unwrap();
    }
    let got = db.get_blocks_range(19, 25, 100).unwrap();
    let numbers: Vec<u32> = got.iter().map(|b| b.number).collect();
    assert_eq!(numbers, vec![20, 19]);
    assert!(db.get_blocks_range(21, 25, 100).unwrap().is_empty());
}

#[test]
fn latest_is_the_maximum_key() {
    let mut db = empty_db();
    db.store_block(&block(15, 0)).unwrap();
    db.store_block(&block(3, 0)).unwrap();
    assert_eq!(db.get_latest_block_number().unwrap(), Some(15));
}

#[test]
fn opening_an_unusable_path_is_a_backend_error() {
    // A directory cannot be opened as a database file.
    let r = Database::new("/", vec![], vec![]);
    assert!(matches!(r, Err(StoreError::Backend(_))));
}

#[test]
fn corrupt_row_is_an_error_on_get_and_skipped_on_range() {
    // Plant a row that is not a valid record, through the engine directly,
    // then read it back through the library.
    let path = "/tmp/smolcar_corrupt_row_case.db";
    let conn = rusqlite::Connection::open(path).unwrap();
    conn.execute(
        "CREATE TABLE IF NOT EXISTS blocks (block_number INTEGER PRIMARY KEY, block_hash TEXT NOT NULL, block_data TEXT NOT NULL, timestamp INTEGER NOT NULL)",
        [],
    )
    .unwrap();
    conn.execute(
        "INSERT OR REPLACE INTO blocks (block_number, block_hash, block_data, timestamp) VALUES (7, '0x7', 'not a record', 0)",
        [],
    )
    .unwrap();
    drop(conn);

    let mut db = Database::new(path, vec![], vec![]).unwrap();
    assert!(matches!(db.get_block(7), Err(StoreError::Corrupt)));
    // The corrupt row must not produce a default value, and a range scan
    // skips it rather than failing the rest of the window.
    db.store_block(&block(6, 1)).unwrap();
    db.store_block(&block(8, 2)).unwrap();
    let got = db.get_blocks_range(5, 9, 10).unwrap();
    let numbers: Vec<u32> = got.iter().map(|b| b.number).collect();
    assert_eq!(numbers, vec![8, 6]);
}

#[test]
fn reopening_the_store_keeps_rows_and_latest() {
    let path = "/tmp/smolcar_reopen_case.db";
    {
        let mut db = Database::new(path, vec![], vec![]).unwrap();
        db.store_block(&block(31, 9)).unwrap();
    }
    // A restart: the store is opened in place, not recreated.
    let db = Database::new(path, vec![], vec![]).unwrap();
    let latest = db.get_latest_block_number().unwrap().unwrap();
    assert!(latest >= 31);
    let got = db.get_block(31).unwrap().unwrap();
    assert_eq!(got.timestamp, 9);
}

#[test]
fn a_corrupt_row_uses_up_one_limit_slot() {
    // The engine's limit counts scanned rows, and the skip happens after the
    // scan: with a corrupt row among the three greatest keys, a limit of 3
    // yields only the two valid ones, and they are the greatest valid keys.
    let path = "/tmp/smolcar_limit_slot_case.db";
    let conn = rusqlite::Connection::open(path).unwrap();
    conn.execute(
        "CREATE TABLE IF NOT EXISTS blocks (block_number INTEGER PRIMARY KEY, block_hash TEXT NOT NULL, block_data TEXT NOT NULL, timestamp INTEGER NOT NULL)",
        [],
    )
    .unwrap();
    conn.execute(
        "INSERT OR REPLACE INTO blocks (block_number, block_hash, block_data, timestamp) VALUES (4, '0x4', 'not a record', 0)",
        [],
    )
    .unwrap();
    drop(conn);

    let mut db = Database::new(path, vec![], vec![]).unwrap();
    for n in [1u32, 2, 3, 5] {
        db.store_block(&block(n, 0)).unwrap();
    }
    let got = db.get_blocks_range(1, 5, 3).unwrap();
    let numbers: Vec<u32> = got.iter().map(|b| b.number).collect();
    assert_eq!(numbers, vec![5, 3]);
}
