use lifeline_store::errors::StoreError;
use lifeline_store::kinds::{parse_event_kind, parse_item_type, EventKind, ItemType};
use lifeline_store::store::Store;

fn now() -> String {
    String::from("2024-01-01T00:00:00Z")
}

#[test]
fn create_year_assigns_id_and_timestamps() {
    let mut s = Store::new();
    let id = s
        .create_event(
            EventKind::Year,
            Some(String::from("Year 2020")),
            String::from("2020-01-01"),
            None,
            None,
            None,
            now(),
        )
        .unwrap();
    let e = s.get_event(&id).unwrap();
    assert_eq!(e.id, id);
    assert_eq!(e.kind, EventKind::Year);
    assert_eq!(e.title.as_deref(), Some("Year 2020"));
    assert_eq!(e.start_at, "2020-01-01");
    assert_eq!(e.created_at, now());
    assert_eq!(e.updated_at, now());
    assert!(e.parent_id.is_none());
}

#[test]
fn created_ids_are_distinct() {
    let mut s = Store::new();
    let a = s
        .create_event(EventKind::Year, None, String::from("2020-01-01"), None, None, None, now())
        .unwrap();
    let b = s
        .create_event(EventKind::Year, None, String::from("2021-01-01"), None, None, None, now())
        .unwrap();
    assert_ne!(a, b);
}

#[test]
fn end_before_start_is_validation_error() {
    let mut s = Store::new();
    let r = s.create_event(
        EventKind::Year,
        None,
        String::from("2020-06-01"),
        Some(String::from("2020-01-01")),
        None,
        None,
        now(),
    );
    assert_eq!(r.unwrap_err(), StoreError::Validation);
    assert_eq!(s.events.len(), 0);
}

#[test]
fn year_with_parent_is_hierarchy_error() {
    let mut s = Store::new();
    let y = s
        .create_event(EventKind::Year, None, String::from("2020-01-01"), None, None, None, now())
        .unwrap();
    let r = s.create_event(
        EventKind::Year,
        None,
        String::from("2021-01-01"),
        None,
        Some(y),
        None,
        now(),
    );
    assert_eq!(r.unwrap_err(), StoreError::InvalidHierarchy);
}

#[test]
fn event_without_parent_is_hierarchy_error() {
    // Scenario: creating an `event` with no parent must fail with the
    // hierarchy error, since only a year may be parentless.
    let mut s = Store::new();
    let r = s.create_event(
        EventKind::Event,
        None,
        String::from("2020-01-01"),
        None,
        None,
        None,
        now(),
    );
    assert_eq!(r.unwrap_err(), StoreError::InvalidHierarchy);
    assert_eq!(s.events.len(), 0);
}

#[test]
fn missing_parent_is_not_found() {
    let mut s = Store::new();
    let r = s.create_event(
        EventKind::Period,
        None,
        String::from("2020-01-01"),
        None,
        Some(String::from("e-99")),
        None,
        now(),
    );
    assert_eq!(r.unwrap_err(), StoreError::NotFound);
}

#[test]
fn parent_must_be_strictly_above() {
    let mut s = Store::new();
    let y = s
        .create_event(EventKind::Year, None, String::from("2020-01-01"), None, None, None, now())
        .unwrap();
    let e1 = s
        .create_event(
            EventKind::Event,
            None,
            String::from("2020-02-01"),
            None,
            Some(y.clone()),
            None,
            now(),
        )
        .unwrap();
    // a period may not sit under an event: event is below period
    let r = s.create_event(
        EventKind::Period,
        None,
        String::from("2020-03-01"),
        None,
        Some(e1),
        None,
        now(),
    );
    assert_eq!(r.unwrap_err(), StoreError::InvalidHierarchy);
    // but an item marker may sit under the year directly
    let r2 = s.create_event(
        EventKind::Item,
        None,
        String::from("2020-03-01"),
        None,
        Some(y),
        None,
        now(),
    );
    assert!(r2.is_ok());
}

#[test]
fn update_event_refreshes_updated_at_and_revalidates() {
    let mut s = Store::new();
    let y = s
        .create_event(EventKind::Year, None, String::from("2020-01-01"), None, None, None, now())
        .unwrap();
    let later = String::from("2024-02-02T00:00:00Z");
    s.update_event(
        &y,
        Some(String::from("renamed")),
        String::from("2020-01-02"),
        Some(String::from("2020-12-31")),
        None,
        None,
        later.clone(),
    )
    .unwrap();
    let e = s.get_event(&y).unwrap();
    assert_eq!(e.title.as_deref(), Some("renamed"));
    assert_eq!(e.start_at, "2020-01-02");
    assert_eq!(e.end_at.as_deref(), Some("2020-12-31"));
    assert_eq!(e.updated_at, later);
    assert_eq!(e.created_at, now());

    let bad = s.update_event(
        &y,
        None,
        String::from("2020-12-31"),
        Some(String::from("2020-01-01")),
        None,
        None,
        now(),
    );
    assert_eq!(bad.unwrap_err(), StoreError::Validation);

    let missing = String::from("e-777");
    let r = s.update_event(&missing, None, String::from("2020-01-01"), None, None, None, now());
    assert_eq!(r.unwrap_err(), StoreError::NotFound);
}

#[test]
fn create_item_requires_event() {
    let mut s = Store::new();
    let r = s.create_item(
        String::from("e-0"),
        ItemType::Text,
        String::from("hello"),
        None,
        None,
        None,
        None,
        None,
    );
    assert_eq!(r.unwrap_err(), StoreError::NotFound);

    let y = s
        .create_event(EventKind::Year, None, String::from("2020-01-01"), None, None, None, now())
        .unwrap();
    let i = s
        .create_item(
            y.clone(),
            ItemType::Photo,
            String::from("media-1"),
            Some(String::from("a caption")),
            Some(String::from("2020-05-05")),
            Some(52_520_000),
            Some(13_405_000),
            Some(String::from("Berlin")),
        )
        .unwrap();
    let it = s.get_item(&i).unwrap();
    assert_eq!(it.event_id, y);
    assert_eq!(it.item_type, ItemType::Photo);
    assert_eq!(it.content, "media-1");
    assert_eq!(it.place_lat, Some(52_520_000));
    assert_eq!(it.place_label.as_deref(), Some("Berlin"));
}

#[test]
fn update_item_rewrites_content_fields() {
    let mut s = Store::new();
    let y = s
        .create_event(EventKind::Year, None, String::from("2020-01-01"), None, None, None, now())
        .unwrap();
    let i = s
        .create_item(y.clone(), ItemType::Text, String::from("old"), None, None, None, None, None)
        .unwrap();
    s.update_item(
        &i,
        ItemType::Link,
        String::from("https://example.test"),
        Some(String::from("link caption")),
        None,
        None,
        None,
        None,
    )
    .unwrap();
    let it = s.get_item(&i).unwrap();
    assert_eq!(it.item_type, ItemType::Link);
    assert_eq!(it.content, "https://example.test");
    assert_eq!(it.event_id, y);

    let missing = String::from("i-55");
    let r = s.update_item(&missing, ItemType::Text, String::from("x"), None, None, None, None, None);
    assert_eq!(r.unwrap_err(), StoreError::NotFound);
}

#[test]
fn parse_enums_at_the_boundary() {
    assert_eq!(parse_event_kind("year").unwrap(), EventKind::Year);
    assert_eq!(parse_event_kind("period").unwrap(), EventKind::Period);
    assert_eq!(parse_event_kind("event").unwrap(), EventKind::Event);
    assert_eq!(parse_event_kind("item").unwrap(), EventKind::Item);
    assert_eq!(parse_event_kind("epoch").unwrap_err(), StoreError::Validation);
    assert_eq!(parse_item_type("text").unwrap(), ItemType::Text);
    assert_eq!(parse_item_type("photo").unwrap(), ItemType::Photo);
    assert_eq!(parse_item_type("video").unwrap(), ItemType::Video);
    assert_eq!(parse_item_type("link").unwrap(), ItemType::Link);
    assert_eq!(parse_item_type("audio").unwrap_err(), StoreError::Validation);
    assert_eq!(EventKind::Period.as_str(), "period");
    assert_eq!(ItemType::Video.as_str(), "video");
}
