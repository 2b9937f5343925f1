use smolcar::db::Database;
use smolcar::records::EventFilter;

fn db_with(event_filters: Vec<EventFilter>, extrinsic_filters: Vec<String>) -> Database {
    Database::new(":memory:", event_filters, extrinsic_filters).unwrap()
}

#[test]
fn pallet_wide_rule_excludes_every_variant() {
    let db = db_with(
        vec![EventFilter { pallet: "PalletA".to_string(), method: None }],
        vec![],
    );
    assert!(!db.should_include_event("PalletA", "X"));
    assert!(!db.should_include_event("PalletA", "Y"));
    assert!(!db.should_include_event("PalletA", ""));
    assert!(db.should_include_event("PalletB", "X"));
}

#[test]
fn method_rule_excludes_only_that_variant() {
    let db = db_with(
        vec![EventFilter { pallet: "PalletA".to_string(), method: Some("X".to_string()) }],
        vec![],
    );
    assert!(!db.should_include_event("PalletA", "X"));
    assert!(db.should_include_event("PalletA", "Y"));
    assert!(db.should_include_event("PalletB", "X"));
}

#[test]
fn first_matching_rule_wins_and_scanning_continues_past_other_methods() {
    // Two method rules for one pallet: both named variants are excluded,
    // anything else of that pallet is still included.
    let db = db_with(
        vec![
            EventFilter { pallet: "P".to_string(), method: Some("a".to_string()) },
            EventFilter { pallet: "P".to_string(), method: Some("b".to_string()) },
        ],
        vec![],
    );
    assert!(!db.should_include_event("P", "a"));
    assert!(!db.should_include_event("P", "b"));
    assert!(db.should_include_event("P", "c"));
}

#[test]
fn no_rules_includes_everything() {
    let db = db_with(vec![], vec![]);
    assert!(db.should_include_event("Anything", "AtAll"));
    assert!(db.should_include_extrinsic("Anything/AtAll"));
}

#[test]
fn extrinsic_exclusion_is_set_membership() {
    let db = db_with(vec![], vec!["ParaInherent/enter".to_string()]);
    assert!(!db.should_include_extrinsic("ParaInherent/enter"));
    assert!(db.should_include_extrinsic("Balances/transfer"));
    // An unresolved action carries the placeholder name, which can never
    // match a named exclusion rule.
    assert!(db.should_include_extrinsic("unknown"));
}
