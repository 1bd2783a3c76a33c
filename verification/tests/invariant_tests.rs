use lifeline_store::kinds::{EventKind, ItemType};
use lifeline_store::store::Store;

fn now() -> String {
    String::from("2024-01-01T00:00:00Z")
}

fn rank(k: EventKind) -> u8 {
    match k {
        EventKind::Year => 0,
        EventKind::Period => 1,
        EventKind::Event => 2,
        EventKind::Item => 3,
    }
}

fn populated() -> Store {
    let mut s = Store::new();
    let y = s
        .create_event(
            EventKind::Year,
            None,
            String::from("2020-01-01"),
            Some(String::from("2020-12-31")),
            None,
            None,
            now(),
        )
        .unwrap();
    let p = s
        .create_event(
            EventKind::Period,
            None,
            String::from("2020-06-01"),
            Some(String::from("2020-08-01")),
            Some(y.clone()),
            None,
            now(),
        )
        .unwrap();
    let e = s
        .create_event(
            EventKind::Event,
            None,
            String::from("2020-06-15"),
            None,
            Some(p.clone()),
            None,
            now(),
        )
        .unwrap();
    let m = s
        .create_event(
            EventKind::Item,
            None,
            String::from("2020-06-16"),
            None,
            Some(e.clone()),
            None,
            now(),
        )
        .unwrap();
    let i1 = s
        .create_item(e.clone(), ItemType::Text, String::from("t"), None, None, None, None, None)
        .unwrap();
    let i2 = s
        .create_item(m.clone(), ItemType::Photo, String::from("ph"), None, None, None, None, None)
        .unwrap();
    s.place_item(e, i1, 0, 0, 1, 0, 0).unwrap();
    s.place_item(m, i2, 5, 5, 1, 0, 1).unwrap();
    s
}

#[test]
fn every_non_year_event_has_a_resolving_higher_parent() {
    let s = populated();
    for e in &s.events {
        match &e.parent_id {
            None => assert_eq!(e.kind, EventKind::Year),
            Some(p) => {
                assert_ne!(e.kind, EventKind::Year);
                let parent = s.get_event(p).expect("parent must resolve");
                assert!(rank(parent.kind) < rank(e.kind));
            }
        }
    }
}

#[test]
fn every_closed_event_ends_no_earlier_than_it_starts() {
    let s = populated();
    for e in &s.events {
        if let Some(end) = &e.end_at {
            assert!(e.start_at.as_str() <= end.as_str());
        }
    }
}

#[test]
fn every_placement_has_exactly_one_item_in_its_event() {
    let s = populated();
    for c in &s.canvas {
        let matching: Vec<_> = s.items.iter().filter(|it| it.id == c.item_id).collect();
        assert_eq!(matching.len(), 1);
        assert_eq!(matching[0].event_id, c.event_id);
    }
}

#[test]
fn empty_store_answers_every_query_with_nothing() {
    let s = Store::new();
    let id = String::from("e-0");
    let lo = String::from("2000-01-01");
    let hi = String::from("2100-01-01");
    assert!(s.get_event(&id).is_none());
    assert!(s.list_children(&id).is_empty());
    assert!(s.list_items(&id).is_empty());
    assert!(s.list_events_by_time_range(&lo, &hi).is_empty());
    assert!(s.list_canvas(&id).is_empty());
    assert!(s.canvas_entries(&id).is_empty());
    assert!(s.unplaced_items(&id).is_empty());
}

#[test]
fn timestamps_compare_lexicographically() {
    let mut s = Store::new();
    // an instant with a time component sorts after the bare date
    s.create_event(
        EventKind::Year,
        None,
        String::from("2020-01-01T12:00:00Z"),
        None,
        None,
        None,
        now(),
    )
    .unwrap();
    s.create_event(EventKind::Year, None, String::from("2020-01-01"), None, None, None, now())
        .unwrap();
    let lo = String::from("2020-01-01");
    let hi = String::from("2020-01-02");
    let r = s.list_events_by_time_range(&lo, &hi);
    assert_eq!(r.len(), 2);
    assert_eq!(r[0].start_at, "2020-01-01");
    assert_eq!(r[1].start_at, "2020-01-01T12:00:00Z");
}

#[test]
fn event_cannot_become_its_own_parent() {
    let mut s = Store::new();
    let y = s
        .create_event(EventKind::Year, None, String::from("2020-01-01"), None, None, None, now())
        .unwrap();
    let p = s
        .create_event(
            EventKind::Period,
            None,
            String::from("2020-02-01"),
            None,
            Some(y.clone()),
            None,
            now(),
        )
        .unwrap();
    let r = s.update_event(
        &p,
        None,
        String::from("2020-02-01"),
        None,
        Some(p.clone()),
        None,
        now(),
    );
    assert_eq!(r.unwrap_err(), lifeline_store::errors::StoreError::InvalidHierarchy);
}
