use andtask::entity::{ItemType, Severity, Status, decimal_string};
use andtask::migration::{Migration, MigrationError, SchemaStep, standard_migrations};
use andtask::store::{Store, StoreError};

fn migrated_store() -> Store {
    let mut s = Store::open();
    let ms = standard_migrations();
    assert!(s.apply_all(&ms).is_ok());
    s
}

#[test]
fn standard_migrations_match_persisted_contract() {
    let ms = standard_migrations();
    assert_eq!(ms.len(), 5);
    let versions: Vec<u64> = ms.iter().map(|m| m.version).collect();
    assert_eq!(versions, vec![1, 2, 3, 4, 5]);
    assert_eq!(ms[0].description, "create_todos_table");
    assert_eq!(ms[1].description, "create_notes_table");
    assert_eq!(ms[2].description, "create_concerns_table");
    assert_eq!(ms[3].description, "create_fts_virtual_table");
    assert_eq!(ms[4].description, "add_title_to_notes");
}

#[test]
fn migrations_fill_the_ledger_in_order() {
    let s = migrated_store();
    let ledger = s.ledger();
    assert_eq!(ledger.len(), 5);
    for (i, rec) in ledger.iter().enumerate() {
        assert_eq!(rec.version, (i as u64) + 1);
    }
    assert_eq!(ledger[4].description, "add_title_to_notes");
}

#[test]
fn applying_twice_is_a_no_op() {
    let mut s = migrated_store();
    let ms = standard_migrations();
    assert!(s.apply_all(&ms).is_ok());
    assert_eq!(s.ledger().len(), 5);
    assert!(s.apply_all(&ms).is_ok());
    assert_eq!(s.ledger().len(), 5);
}

#[test]
fn restart_between_migrations_reaches_the_same_state() {
    // one uninterrupted run
    let mut all_at_once = Store::open();
    let ms = standard_migrations();
    assert!(all_at_once.apply_all(&ms).is_ok());

    // a run that stopped after three migrations, then a fresh full run
    let mut restarted = Store::open();
    let mut prefix = standard_migrations();
    prefix.truncate(3);
    assert!(restarted.apply_all(&prefix).is_ok());
    assert_eq!(restarted.ledger().len(), 3);
    assert!(restarted.apply_all(&ms).is_ok());

    let a: Vec<u64> = all_at_once.ledger().iter().map(|r| r.version).collect();
    let b: Vec<u64> = restarted.ledger().iter().map(|r| r.version).collect();
    assert_eq!(a, b);

    // both stores accept the same writes against the final schema
    assert!(restarted.create_note(Some("x"), "y").is_ok());
    assert!(all_at_once.create_note(Some("x"), "y").is_ok());
}

#[test]
fn duplicate_version_rejected_before_anything_runs() {
    let mut s = Store::open();
    let mut ms = standard_migrations();
    ms[1].version = 1;
    match s.apply_all(&ms) {
        Err(MigrationError::DuplicateVersion(v)) => assert_eq!(v, 1),
        other => panic!("expected a duplicate-version error, got {:?}", other.err()),
    }
    assert_eq!(s.ledger().len(), 0);
}

#[test]
fn out_of_order_version_rejected_before_anything_runs() {
    let mut s = Store::open();
    let mut ms = standard_migrations();
    ms[2].version = 1;
    match s.apply_all(&ms) {
        Err(MigrationError::OutOfOrderVersion(v)) => assert_eq!(v, 1),
        other => panic!("expected an out-of-order error, got {:?}", other.err()),
    }
    assert_eq!(s.ledger().len(), 0);
}

#[test]
fn schema_failure_reports_version_and_description() {
    let mut s = Store::open();
    let ms = vec![Migration {
        version: 5,
        description: "add_title_to_notes".to_string(),
        step: SchemaStep::AddNoteTitleColumn,
    }];
    match s.apply_all(&ms) {
        Err(MigrationError::SchemaFailure(v, d)) => {
            assert_eq!(v, 5);
            assert_eq!(d, "add_title_to_notes");
        },
        other => panic!("expected a schema failure, got {:?}", other.err()),
    }
    assert_eq!(s.ledger().len(), 0);
}

#[test]
fn schema_failure_keeps_earlier_migrations_committed() {
    let mut s = Store::open();
    let mut ms = standard_migrations();
    // break the last migration: without the notes table it cannot apply
    ms.remove(1);
    match s.apply_all(&ms) {
        Err(MigrationError::SchemaFailure(v, _)) => assert_eq!(v, 5),
        other => panic!("expected a schema failure, got {:?}", other.err()),
    }
    let versions: Vec<u64> = s.ledger().iter().map(|r| r.version).collect();
    assert_eq!(versions, vec![1, 3, 4]);
}

#[test]
fn note_round_trip_search() {
    let mut s = migrated_store();
    let id = s.create_note(Some("Groceries"), "milk, eggs").unwrap();
    assert_eq!(id, 1);

    let hits = s.search("milk");
    assert_eq!(hits.len(), 1);
    assert_eq!(hits[0].item_type, ItemType::Note);
    assert_eq!(hits[0].item_id, "1");
    assert_eq!(hits[0].title, "Groceries");
    assert_eq!(hits[0].content, "milk, eggs");

    s.delete_note(id).unwrap();
    assert_eq!(s.search("milk").len(), 0);
}

#[test]
fn urgent_severity_rejected_before_any_row() {
    let mut s = migrated_store();
    assert_eq!(
        s.create_concern("c1", "ceiling crack", "urgent", "open"),
        Err(StoreError::InvalidSeverity)
    );
    assert_eq!(s.concerns().len(), 0);
    assert_eq!(s.entries().len(), 0);
}

#[test]
fn invalid_status_rejected() {
    let mut s = migrated_store();
    assert_eq!(
        s.create_concern("c1", "ceiling crack", "high", "closed"),
        Err(StoreError::InvalidStatus)
    );
    assert_eq!(s.concerns().len(), 0);
}

#[test]
fn title_column_backfill_on_late_migration() {
    let mut s = Store::open();
    let mut through_v4 = standard_migrations();
    through_v4.truncate(4);
    assert!(s.apply_all(&through_v4).is_ok());

    // notes created before the title column exists have no title
    let a = s.create_note(None, "first body").unwrap();
    let b = s.create_note(None, "second body").unwrap();
    assert_eq!(s.notes()[0].title, None);
    let created_a = s.notes()[0].created_at;
    let created_b = s.notes()[1].created_at;

    // a title cannot be supplied yet
    assert_eq!(s.create_note(Some("early"), "x"), Err(StoreError::NoTitleColumn));

    let ms = standard_migrations();
    assert!(s.apply_all(&ms).is_ok());

    // every pre-existing note now carries the default title,
    // with content and created_at untouched
    let notes = s.notes();
    assert_eq!(notes.len(), 2);
    assert_eq!(notes[0].id, a);
    assert_eq!(notes[0].title, Some("Untitled Note".to_string()));
    assert_eq!(notes[0].content, "first body");
    assert_eq!(notes[0].created_at, created_a);
    assert_eq!(notes[1].id, b);
    assert_eq!(notes[1].title, Some("Untitled Note".to_string()));
    assert_eq!(notes[1].content, "second body");
    assert_eq!(notes[1].created_at, created_b);

    // and the index entries were re-derived to match
    for e in s.entries() {
        assert_eq!(e.item_type, ItemType::Note);
        assert_eq!(e.title, "Untitled Note");
    }
    let hits = s.search("untitled");
    assert_eq!(hits.len(), 2);
}

#[test]
fn note_without_title_gets_the_default_after_v5() {
    let mut s = migrated_store();
    let id = s.create_note(None, "body").unwrap();
    assert_eq!(s.notes()[0].title, Some("Untitled Note".to_string()));
    assert_eq!(s.notes()[0].id, id);
    assert_eq!(s.create_note(Some(""), "body"), Err(StoreError::EmptyTitle));
}

#[test]
fn writes_rejected_before_migration() {
    let mut s = Store::open();
    assert_eq!(s.create_task("t1", "write tests"), Err(StoreError::SchemaNotReady));
    assert_eq!(s.create_note(None, "x"), Err(StoreError::SchemaNotReady));
    assert_eq!(s.create_concern("c1", "x", "low", "open"), Err(StoreError::SchemaNotReady));
}

#[test]
fn task_write_constraints() {
    let mut s = migrated_store();
    assert_eq!(s.create_task("t1", ""), Err(StoreError::EmptyText));
    assert!(s.create_task("t1", "water the plants").is_ok());
    assert_eq!(s.create_task("t1", "again"), Err(StoreError::DuplicateId));
    assert_eq!(s.update_task("t2", "x", true), Err(StoreError::NotFound));
    assert_eq!(s.delete_task("t2"), Err(StoreError::NotFound));
    assert_eq!(s.tasks().len(), 1);
    assert!(!s.tasks()[0].done);
}

#[test]
fn task_update_keeps_creation_and_reindexes() {
    let mut s = migrated_store();
    s.create_task("t1", "buy bread").unwrap();
    let created = s.tasks()[0].created_at;
    let first_updated = s.tasks()[0].updated_at;

    s.update_task("t1", "call the bank", true).unwrap();
    let t = &s.tasks()[0];
    assert_eq!(t.created_at, created);
    assert!(t.updated_at > first_updated);
    assert!(t.done);

    assert_eq!(s.search("bread").len(), 0);
    let hits = s.search("bank");
    assert_eq!(hits.len(), 1);
    assert_eq!(hits[0].item_type, ItemType::Task);
    assert_eq!(hits[0].item_id, "t1");
    assert_eq!(hits[0].title, "call the bank");
}

#[test]
fn concern_projection_is_text_only() {
    let mut s = migrated_store();
    s.create_concern("c1", "leaky faucet", "low", "open").unwrap();
    let hits = s.search("faucet");
    assert_eq!(hits.len(), 1);
    assert_eq!(hits[0].item_type, ItemType::Concern);
    assert_eq!(hits[0].item_id, "c1");
    assert_eq!(hits[0].title, "leaky faucet");
    assert_eq!(hits[0].content, "");
    // severity and status tokens are not indexed
    assert_eq!(s.search("low").len(), 0);
    assert_eq!(s.search("open").len(), 0);
}

#[test]
fn concern_update_and_delete_stay_in_lock_step() {
    let mut s = migrated_store();
    s.create_concern("c1", "leaky faucet", "low", "open").unwrap();
    s.update_concern("c1", "burst pipe", "high", "in_progress").unwrap();
    assert_eq!(s.concerns()[0].severity, Severity::High);
    assert_eq!(s.concerns()[0].status, Status::InProgress);
    assert_eq!(s.search("faucet").len(), 0);
    assert_eq!(s.search("pipe").len(), 1);
    s.delete_concern("c1").unwrap();
    assert_eq!(s.search("pipe").len(), 0);
    assert_eq!(s.entries().len(), 0);
}

#[test]
fn every_mutation_keeps_index_and_entities_matched() {
    let mut s = migrated_store();
    s.create_task("t1", "alpha work").unwrap();
    s.create_note(Some("beta"), "gamma").unwrap();
    s.create_concern("c1", "delta", "medium", "resolved").unwrap();
    assert_eq!(s.entries().len(), 3);
    s.update_note(1, None, "gamma two").unwrap();
    assert_eq!(s.entries().len(), 3);
    s.delete_task("t1").unwrap();
    assert_eq!(s.entries().len(), 2);
    s.delete_note(1).unwrap();
    s.delete_concern("c1").unwrap();
    assert_eq!(s.entries().len(), 0);
}

#[test]
fn search_folds_case_and_stems() {
    let mut s = migrated_store();
    s.create_note(Some("Groceries"), "Milk and EGGS").unwrap();
    assert_eq!(s.search("MILK").len(), 1);
    assert_eq!(s.search("egg").len(), 1);
    assert_eq!(s.search("grocery").len(), 0);
    assert_eq!(s.search("groceries").len(), 1);
    s.create_task("t1", "searching for a plumber").unwrap();
    assert_eq!(s.search("search").len(), 1);
    assert_eq!(s.search("plumber milk").len(), 0);
}

#[test]
fn search_ranks_by_recency() {
    let mut s = migrated_store();
    s.create_task("t1", "garden work").unwrap();
    s.create_task("t2", "yard work").unwrap();
    s.create_task("t3", "desk work").unwrap();
    let hits = s.search("work");
    assert_eq!(hits.len(), 3);
    assert_eq!(hits[0].item_id, "t3");
    assert_eq!(hits[1].item_id, "t2");
    assert_eq!(hits[2].item_id, "t1");
    // touching the oldest brings it to the front
    s.update_task("t1", "garden work again", false).unwrap();
    let hits = s.search("work");
    assert_eq!(hits[0].item_id, "t1");
}

#[test]
fn note_ids_are_sequential_and_rendered_in_decimal() {
    let mut s = migrated_store();
    assert_eq!(s.create_note(None, "a").unwrap(), 1);
    assert_eq!(s.create_note(None, "b").unwrap(), 2);
    s.delete_note(1).unwrap();
    // identifiers are never reused
    assert_eq!(s.create_note(None, "c").unwrap(), 3);
    assert_eq!(decimal_string(0), "0");
    assert_eq!(decimal_string(7), "7");
    assert_eq!(decimal_string(10), "10");
    assert_eq!(decimal_string(12345), "12345");
    assert_eq!(decimal_string(u64::MAX), "18446744073709551615");
}

#[test]
fn severity_and_status_tokens_round_trip() {
    assert_eq!(Severity::parse("low"), Some(Severity::Low));
    assert_eq!(Severity::parse("medium"), Some(Severity::Medium));
    assert_eq!(Severity::parse("high"), Some(Severity::High));
    assert_eq!(Severity::parse("urgent"), None);
    assert_eq!(Status::parse("open"), Some(Status::Open));
    assert_eq!(Status::parse("in_progress"), Some(Status::InProgress));
    assert_eq!(Status::parse("resolved"), Some(Status::Resolved));
    assert_eq!(Status::parse("closed"), None);
    assert_eq!(Severity::High.token(), "high");
    assert_eq!(Status::InProgress.token(), "in_progress");
}
