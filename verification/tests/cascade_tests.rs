use lifeline_store::errors::StoreError;
use lifeline_store::kinds::{EventKind, ItemType};
use lifeline_store::store::Store;

fn now() -> String {
    String::from("2024-01-01T00:00:00Z")
}

/// Builds the hierarchy year Y1 -> period P1 -> event E1 with one text
/// item I1 placed on E1's canvas.
fn build_tree() -> (Store, String, String, String, String) {
    let mut s = Store::new();
    let y1 = s
        .create_event(EventKind::Year, None, String::from("2020-01-01"), None, None, None, now())
        .unwrap();
    let p1 = s
        .create_event(
            EventKind::Period,
            None,
            String::from("2020-06-01"),
            Some(String::from("2020-08-01")),
            Some(y1.clone()),
            None,
            now(),
        )
        .unwrap();
    let e1 = s
        .create_event(
            EventKind::Event,
            None,
            String::from("2020-06-15"),
            None,
            Some(p1.clone()),
            None,
            now(),
        )
        .unwrap();
    let i1 = s
        .create_item(e1.clone(), ItemType::Text, String::from("note"), None, None, None, None, None)
        .unwrap();
    s.place_item(e1.clone(), i1.clone(), 10, 20, 1, 0, 0).unwrap();
    (s, y1, p1, e1, i1)
}

#[test]
fn cascade_delete_removes_whole_subtree() {
    // Scenario: delete Y1 with cascade; none of Y1, P1, E1, I1 or the
    // placement remains.
    let (mut s, y1, p1, e1, i1) = build_tree();
    s.delete_event(&y1, true).unwrap();
    assert!(s.get_event(&y1).is_none());
    assert!(s.get_event(&p1).is_none());
    assert!(s.get_event(&e1).is_none());
    assert!(s.get_item(&i1).is_none());
    assert_eq!(s.events.len(), 0);
    assert_eq!(s.items.len(), 0);
    assert_eq!(s.canvas.len(), 0);
}

#[test]
fn second_cascade_delete_is_not_found() {
    let (mut s, y1, _p1, _e1, _i1) = build_tree();
    s.delete_event(&y1, true).unwrap();
    let r = s.delete_event(&y1, true);
    assert_eq!(r.unwrap_err(), StoreError::NotFound);
}

#[test]
fn cascade_delete_of_middle_node_spares_the_rest() {
    let (mut s, y1, p1, e1, i1) = build_tree();
    // a sibling period under the same year survives
    let p2 = s
        .create_event(
            EventKind::Period,
            None,
            String::from("2020-09-01"),
            None,
            Some(y1.clone()),
            None,
            now(),
        )
        .unwrap();
    s.delete_event(&p1, true).unwrap();
    assert!(s.get_event(&y1).is_some());
    assert!(s.get_event(&p2).is_some());
    assert!(s.get_event(&p1).is_none());
    assert!(s.get_event(&e1).is_none());
    assert!(s.get_item(&i1).is_none());
    assert_eq!(s.canvas.len(), 0);
}

#[test]
fn delete_without_cascade_conflicts_while_referenced() {
    // Scenario: deleting P1 without cascade while E1 still references it
    // fails with a conflict and leaves P1 present.
    let (mut s, _y1, p1, e1, _i1) = build_tree();
    let r = s.delete_event(&p1, false);
    assert_eq!(r.unwrap_err(), StoreError::Conflict);
    assert!(s.get_event(&p1).is_some());
    assert!(s.get_event(&e1).is_some());
}

#[test]
fn delete_without_cascade_conflicts_while_items_remain() {
    let (mut s, _y1, _p1, e1, i1) = build_tree();
    let r = s.delete_event(&e1, false);
    assert_eq!(r.unwrap_err(), StoreError::Conflict);
    s.delete_item(&i1).unwrap();
    s.delete_event(&e1, false).unwrap();
    assert!(s.get_event(&e1).is_none());
}

#[test]
fn delete_leaf_without_cascade_succeeds() {
    let mut s = Store::new();
    let y = s
        .create_event(EventKind::Year, None, String::from("2020-01-01"), None, None, None, now())
        .unwrap();
    s.delete_event(&y, false).unwrap();
    assert_eq!(s.events.len(), 0);
    let r = s.delete_event(&y, false);
    assert_eq!(r.unwrap_err(), StoreError::NotFound);
}

#[test]
fn delete_item_removes_its_placement() {
    let (mut s, _y1, _p1, e1, i1) = build_tree();
    assert_eq!(s.canvas.len(), 1);
    s.delete_item(&i1).unwrap();
    assert!(s.get_item(&i1).is_none());
    assert_eq!(s.canvas.len(), 0);
    assert!(s.get_event(&e1).is_some());
    let r = s.delete_item(&i1);
    assert_eq!(r.unwrap_err(), StoreError::NotFound);
}
