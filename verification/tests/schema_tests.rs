use lifeline_store::errors::StoreError;
use lifeline_store::kinds::EventKind;
use lifeline_store::schema::{shipped_migrations, MigrationStep};
use lifeline_store::store::Store;

fn now() -> String {
    String::from("2024-01-01T00:00:00Z")
}

#[test]
fn open_brings_a_fresh_store_to_the_latest_version() {
    let s = Store::open();
    assert_eq!(s.version, 1);
    assert_eq!(s.events.len(), 0);
    assert_eq!(s.items.len(), 0);
    assert_eq!(s.canvas.len(), 0);
}

#[test]
fn shipped_registry_has_the_initial_step() {
    let steps = shipped_migrations();
    assert_eq!(steps.len(), 1);
    assert_eq!(steps[0].version, 1);
    assert_eq!(steps[0].description, "create_initial_tables");
}

#[test]
fn migration_is_idempotent() {
    // Applying the registry twice yields the same final version and no
    // duplicate side effects.
    let mut s = Store::new();
    let steps = shipped_migrations();
    s.apply_migrations(&steps).unwrap();
    assert_eq!(s.version, 1);
    let y = s
        .create_event(EventKind::Year, None, String::from("2020-01-01"), None, None, None, now())
        .unwrap();
    s.apply_migrations(&steps).unwrap();
    assert_eq!(s.version, 1);
    assert_eq!(s.events.len(), 1);
    assert!(s.get_event(&y).is_some());
}

#[test]
fn unordered_steps_are_refused_whole() {
    let mut s = Store::new();
    let steps = vec![
        MigrationStep { version: 2, description: String::from("second") },
        MigrationStep { version: 1, description: String::from("first") },
    ];
    let r = s.apply_migrations(&steps);
    assert_eq!(r.unwrap_err(), StoreError::Migration);
    assert_eq!(s.version, 0);
}

#[test]
fn pending_steps_apply_in_ascending_order() {
    let mut s = Store::new();
    let steps = vec![
        MigrationStep { version: 1, description: String::from("first") },
        MigrationStep { version: 3, description: String::from("third") },
    ];
    s.apply_migrations(&steps).unwrap();
    assert_eq!(s.version, 3);
    // a store beyond every step is left where it is
    let r = s.apply_migrations(&shipped_migrations());
    assert!(r.is_ok());
    assert_eq!(s.version, 3);
}
