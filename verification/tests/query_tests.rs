use lifeline_store::errors::StoreError;
use lifeline_store::kinds::{EventKind, ItemType};
use lifeline_store::store::Store;

fn now() -> String {
    String::from("2024-01-01T00:00:00Z")
}

#[test]
fn time_range_is_inclusive_exclusive_and_sorted() {
    let mut s = Store::new();
    let starts = ["2020-03-01", "2020-01-01", "2020-02-01", "2019-12-31", "2020-03-02"];
    for st in starts {
        s.create_event(EventKind::Year, None, String::from(st), None, None, None, now()).unwrap();
    }
    let lo = String::from("2020-01-01");
    let hi = String::from("2020-03-02");
    let r = s.list_events_by_time_range(&lo, &hi);
    let got: Vec<&str> = r.iter().map(|e| e.start_at.as_str()).collect();
    // 2019-12-31 is below the range, 2020-03-02 is excluded by the open
    // upper bound; the rest come back ordered by start ascending.
    assert_eq!(got, vec!["2020-01-01", "2020-02-01", "2020-03-01"]);
}

#[test]
fn list_children_returns_exactly_the_children() {
    let mut s = Store::new();
    let y1 = s
        .create_event(EventKind::Year, None, String::from("2020-01-01"), None, None, None, now())
        .unwrap();
    let y2 = s
        .create_event(EventKind::Year, None, String::from("2021-01-01"), None, None, None, now())
        .unwrap();
    let p1 = s
        .create_event(
            EventKind::Period,
            None,
            String::from("2020-02-01"),
            None,
            Some(y1.clone()),
            None,
            now(),
        )
        .unwrap();
    let p2 = s
        .create_event(
            EventKind::Period,
            None,
            String::from("2020-03-01"),
            None,
            Some(y1.clone()),
            None,
            now(),
        )
        .unwrap();
    s.create_event(
        EventKind::Period,
        None,
        String::from("2021-02-01"),
        None,
        Some(y2.clone()),
        None,
        now(),
    )
    .unwrap();
    let kids = s.list_children(&y1);
    let ids: Vec<String> = kids.iter().map(|e| e.id.clone()).collect();
    assert_eq!(ids, vec![p1, p2.clone()]);
    let none = s.list_children(&p2);
    assert!(none.is_empty());
}

#[test]
fn list_items_returns_the_owned_items() {
    let mut s = Store::new();
    let y = s
        .create_event(EventKind::Year, None, String::from("2020-01-01"), None, None, None, now())
        .unwrap();
    let a = s
        .create_item(y.clone(), ItemType::Text, String::from("a"), None, None, None, None, None)
        .unwrap();
    let b = s
        .create_item(y.clone(), ItemType::Video, String::from("b"), None, None, None, None, None)
        .unwrap();
    let items = s.list_items(&y);
    let ids: Vec<String> = items.iter().map(|it| it.id.clone()).collect();
    assert_eq!(ids, vec![a, b]);
}

#[test]
fn ancestors_walks_to_the_root_year() {
    let mut s = Store::new();
    let y = s
        .create_event(EventKind::Year, None, String::from("2020-01-01"), None, None, None, now())
        .unwrap();
    let p = s
        .create_event(
            EventKind::Period,
            None,
            String::from("2020-02-01"),
            None,
            Some(y.clone()),
            None,
            now(),
        )
        .unwrap();
    let e = s
        .create_event(
            EventKind::Event,
            None,
            String::from("2020-02-15"),
            None,
            Some(p.clone()),
            None,
            now(),
        )
        .unwrap();
    let chain = s.ancestors(&e).unwrap();
    let ids: Vec<String> = chain.iter().map(|a| a.id.clone()).collect();
    assert_eq!(ids, vec![p.clone(), y.clone()]);
    assert!(s.ancestors(&y).unwrap().is_empty());
    let missing = String::from("e-9000");
    assert_eq!(s.ancestors(&missing).unwrap_err(), StoreError::NotFound);
}

#[test]
fn canvas_join_separates_placed_and_unplaced() {
    let mut s = Store::new();
    let y = s
        .create_event(EventKind::Year, None, String::from("2020-01-01"), None, None, None, now())
        .unwrap();
    let placed = s
        .create_item(y.clone(), ItemType::Photo, String::from("p"), None, None, None, None, None)
        .unwrap();
    let loose = s
        .create_item(y.clone(), ItemType::Text, String::from("l"), None, None, None, None, None)
        .unwrap();
    s.place_item(y.clone(), placed.clone(), 3, 4, 1, 0, 0).unwrap();
    let entries = s.canvas_entries(&y);
    assert_eq!(entries.len(), 1);
    assert_eq!(entries[0].item.id, placed);
    assert_eq!(entries[0].placement.item_id, placed);
    assert_eq!((entries[0].placement.x, entries[0].placement.y), (3, 4));
    let rest = s.unplaced_items(&y);
    assert_eq!(rest.len(), 1);
    assert_eq!(rest[0].id, loose);
}
