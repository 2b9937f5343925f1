use smolcar::db::Database;
use smolcar::pipeline::{ingest_block, ingest_block_at, project_block, IngestOutcome, RawBlock,
    RawEvent, RawExtrinsic};
use smolcar::records::{BlockInfo, EventFilter};

fn event(pallet: &str, variant: &str) -> RawEvent {
    RawEvent {
        pallet: pallet.to_string(),
        variant: variant.to_string(),
        data: Some(format!("{}::{}", pallet, variant)),
    }
}

fn scenario_block(number: u32) -> RawBlock {
    RawBlock {
        number,
        hash: format!("0x{:x}", number),
        extrinsics: vec![
            RawExtrinsic {
                index: 0,
                hash: "0xaa".to_string(),
                action: Some("ParaInherent/enter".to_string()),
                params: Some("{}".to_string()),
                events: vec![event("ParaInclusion", "CandidateBacked"), event("System", "Done")],
            },
            RawExtrinsic {
                index: 1,
                hash: "0xbb".to_string(),
                action: Some("Balances/transfer".to_string()),
                params: Some("{to: x}".to_string()),
                events: vec![event("Balances", "transfer")],
            },
        ],
    }
}

fn scenario_db() -> Database {
    Database::new(
        ":memory:",
        vec![],
        vec!["ParaInherent/enter".to_string()],
    )
    .unwrap()
}

#[test]
fn initial_view_is_the_placeholder() {
    let view = BlockInfo::initial();
    assert_eq!(view.number, 0);
    assert_eq!(view.hash, "0x0");
    assert_eq!(view.extrinsics_count, 0);
    assert_eq!(view.events_count, 0);
    assert!(view.extrinsics.is_empty());
}

#[test]
fn scenario_excluded_extrinsic_and_view_counts() {
    // Empty store, extrinsic exclusion set {"ParaInherent/enter"}; ingest a
    // block numbered 100 with two extrinsics, one excluded with two events,
    // one kept with one event.
    let mut db = scenario_db();
    let mut view = BlockInfo::initial();
    let outcome = ingest_block_at(&mut db, &mut view, &scenario_block(100), 1111);
    assert!(matches!(outcome, IngestOutcome::Stored));

    let stored = db.get_block(100).unwrap().unwrap();
    assert_eq!(stored.extrinsics.len(), 1);
    assert_eq!(stored.extrinsics[0].action, "Balances/transfer");
    assert_eq!(stored.timestamp, 1111);

    assert_eq!(view.number, 100);
    assert_eq!(view.extrinsics_count, 1);
    assert_eq!(view.events_count, 1);

    assert!(matches!(db.get_block(101), Ok(None)));
}

#[test]
fn excluded_extrinsic_leaves_no_events_even_when_they_pass_the_event_filter() {
    let db = scenario_db();
    let (extrinsics, events_count) = project_block(&db, &scenario_block(100));
    assert_eq!(extrinsics.len(), 1);
    assert_eq!(events_count, 1);
    for x in &extrinsics {
        assert_ne!(x.action, "ParaInherent/enter");
        for e in &x.events {
            assert_ne!(e.pallet, "ParaInclusion");
        }
    }
}

#[test]
fn event_filter_applies_inside_kept_extrinsics() {
    let db = Database::new(
        ":memory:",
        vec![EventFilter { pallet: "System".to_string(), method: None }],
        vec![],
    )
    .unwrap();
    let (extrinsics, events_count) = project_block(&db, &scenario_block(100));
    assert_eq!(extrinsics.len(), 2);
    // Both System events and nothing else are gone.
    assert_eq!(events_count, 2);
    assert_eq!(extrinsics[0].events.len(), 1);
    assert_eq!(extrinsics[0].events[0].pallet, "ParaInclusion");
    assert_eq!(extrinsics[1].events.len(), 1);
}

#[test]
fn resolution_failure_degrades_to_placeholders() {
    let db = scenario_db();
    let raw = RawBlock {
        number: 5,
        hash: "0x5".to_string(),
        extrinsics: vec![RawExtrinsic {
            index: 0,
            hash: "0xcc".to_string(),
            action: None,
            params: None,
            events: vec![RawEvent {
                pallet: "P".to_string(),
                variant: "V".to_string(),
                data: None,
            }],
        }],
    };
    let (extrinsics, events_count) = project_block(&db, &raw);
    assert_eq!(extrinsics.len(), 1);
    assert_eq!(extrinsics[0].action, "unknown");
    assert_eq!(extrinsics[0].params, "");
    assert_eq!(events_count, 1);
    assert_eq!(extrinsics[0].events[0].data, "");
}

#[test]
fn redelivery_is_skipped_and_keeps_the_first_record() {
    let mut db = scenario_db();
    let mut view = BlockInfo::initial();
    let first = ingest_block_at(&mut db, &mut view, &scenario_block(100), 1111);
    assert!(matches!(first, IngestOutcome::Stored));

    // The same number arrives again, with a different payload and time.
    let mut redelivered = scenario_block(100);
    redelivered.hash = "0xother".to_string();
    let second = ingest_block_at(&mut db, &mut view, &redelivered, 2222);
    assert!(matches!(second, IngestOutcome::Skipped));

    let stored = db.get_block(100).unwrap().unwrap();
    assert_eq!(stored.hash, "0x64");
    assert_eq!(stored.timestamp, 1111);
    // The view still shows the first ingestion.
    assert_eq!(view.hash, "0x64");
}

#[test]
fn view_and_store_agree_right_after_ingestion() {
    let mut db = scenario_db();
    let mut view = BlockInfo::initial();
    ingest_block_at(&mut db, &mut view, &scenario_block(100), 1111);
    let stored = db.get_block(view.number).unwrap().unwrap();
    assert_eq!(stored.number, view.number);
    assert_eq!(stored.extrinsics.len(), view.extrinsics.len());
    for (a, b) in stored.extrinsics.iter().zip(view.extrinsics.iter()) {
        assert_eq!(a.index, b.index);
        assert_eq!(a.action, b.action);
        assert_eq!(a.events.len(), b.events.len());
    }
}

#[test]
fn distinct_numbers_are_all_stored_in_order_of_arrival() {
    let mut db = scenario_db();
    let mut view = BlockInfo::initial();
    for n in [3u32, 1, 2] {
        let outcome = ingest_block_at(&mut db, &mut view, &scenario_block(n), n as i64);
        assert!(matches!(outcome, IngestOutcome::Stored));
    }
    assert_eq!(db.get_latest_block_number().unwrap(), Some(3));
    // The view shows the most recently ingested block, not the highest.
    assert_eq!(view.number, 2);
}

#[test]
fn wall_clock_ingestion_stores_and_updates_the_view() {
    let mut db = scenario_db();
    let mut view = BlockInfo::initial();
    let outcome = ingest_block(&mut db, &mut view, &scenario_block(55));
    assert!(matches!(outcome, IngestOutcome::Stored));
    let stored = db.get_block(55).unwrap().unwrap();
    assert_eq!(stored.number, 55);
    assert_eq!(view.number, 55);
    // The ingestion time is the wall clock: a real unix-seconds reading, far
    // after the epoch.
    assert!(stored.timestamp > 1_600_000_000);
}
