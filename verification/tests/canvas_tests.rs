use lifeline_store::errors::StoreError;
use lifeline_store::kinds::{EventKind, ItemType};
use lifeline_store::records::BBox;
use lifeline_store::store::Store;

fn now() -> String {
    String::from("2024-01-01T00:00:00Z")
}

fn store_with_item() -> (Store, String, String) {
    let mut s = Store::new();
    let y = s
        .create_event(EventKind::Year, None, String::from("2020-01-01"), None, None, None, now())
        .unwrap();
    let i = s
        .create_item(y.clone(), ItemType::Text, String::from("note"), None, None, None, None, None)
        .unwrap();
    (s, y, i)
}

#[test]
fn placing_twice_keeps_one_row_with_latest_values() {
    // Upsert: the same pair placed twice with different coordinates
    // leaves exactly one placement reflecting the latest call.
    let (mut s, y, i) = store_with_item();
    s.place_item(y.clone(), i.clone(), 10, 20, 1, 0, 0).unwrap();
    s.place_item(y.clone(), i.clone(), 30, 40, 2, 90, 5).unwrap();
    assert_eq!(s.canvas.len(), 1);
    let row = &s.canvas[0];
    assert_eq!(row.x, 30);
    assert_eq!(row.y, 40);
    assert_eq!(row.scale, 2);
    assert_eq!(row.rotation, 90);
    assert_eq!(row.z_index, 5);
}

#[test]
fn placing_unknown_or_foreign_item_conflicts() {
    let (mut s, y, i) = store_with_item();
    let other_year = s
        .create_event(EventKind::Year, None, String::from("2021-01-01"), None, None, None, now())
        .unwrap();
    // unknown item
    let ghost_id = String::from("i-99");
    let r = s.place_item(y.clone(), ghost_id, 0, 0, 1, 0, 0);
    assert_eq!(r.unwrap_err(), StoreError::Conflict);
    // item owned by another event
    let r2 = s.place_item(other_year, i.clone(), 0, 0, 1, 0, 0);
    assert_eq!(r2.unwrap_err(), StoreError::Conflict);
    assert_eq!(s.canvas.len(), 0);
}

#[test]
fn move_transform_restack_update_single_fields() {
    let (mut s, y, i) = store_with_item();
    s.place_item(y.clone(), i.clone(), 1, 2, 1, 0, 0).unwrap();
    s.move_item(&y, &i, 7, 8).unwrap();
    let row = &s.canvas[0];
    assert_eq!((row.x, row.y, row.scale, row.rotation, row.z_index), (7, 8, 1, 0, 0));
    s.transform_item(&y, &i, Some(3), None).unwrap();
    let row = &s.canvas[0];
    assert_eq!((row.x, row.y, row.scale, row.rotation, row.z_index), (7, 8, 3, 0, 0));
    s.transform_item(&y, &i, None, Some(45)).unwrap();
    let row = &s.canvas[0];
    assert_eq!((row.x, row.y, row.scale, row.rotation, row.z_index), (7, 8, 3, 45, 0));
    s.restack_item(&y, &i, 9).unwrap();
    let row = &s.canvas[0];
    assert_eq!((row.x, row.y, row.scale, row.rotation, row.z_index), (7, 8, 3, 45, 9));
}

#[test]
fn partial_updates_need_an_existing_placement() {
    let (mut s, y, i) = store_with_item();
    assert_eq!(s.move_item(&y, &i, 0, 0).unwrap_err(), StoreError::NotFound);
    assert_eq!(s.transform_item(&y, &i, Some(2), None).unwrap_err(), StoreError::NotFound);
    assert_eq!(s.restack_item(&y, &i, 1).unwrap_err(), StoreError::NotFound);
}

#[test]
fn remove_placement_is_idempotent() {
    let (mut s, y, i) = store_with_item();
    s.place_item(y.clone(), i.clone(), 1, 2, 1, 0, 0).unwrap();
    s.remove_placement(&y, &i);
    assert_eq!(s.canvas.len(), 0);
    // removing again is a no-op, not an error
    s.remove_placement(&y, &i);
    assert_eq!(s.canvas.len(), 0);
    assert!(s.get_item(&i).is_some());
}

#[test]
fn list_canvas_orders_by_z_index() {
    let (mut s, y, _i) = store_with_item();
    let mut ids = Vec::new();
    for z in [3i64, 1, 2] {
        let it = s
            .create_item(
                y.clone(),
                ItemType::Photo,
                format!("m-{}", z),
                None,
                None,
                None,
                None,
                None,
            )
            .unwrap();
        s.place_item(y.clone(), it.clone(), 0, 0, 1, 0, z).unwrap();
        ids.push(it);
    }
    let rows = s.list_canvas(&y);
    assert_eq!(rows.len(), 3);
    assert_eq!(rows[0].z_index, 1);
    assert_eq!(rows[1].z_index, 2);
    assert_eq!(rows[2].z_index, 3);
}

#[test]
fn viewport_query_filters_by_position() {
    let (mut s, y, i) = store_with_item();
    let i2 = s
        .create_item(y.clone(), ItemType::Text, String::from("far"), None, None, None, None, None)
        .unwrap();
    s.place_item(y.clone(), i.clone(), 5, 5, 1, 0, 0).unwrap();
    s.place_item(y.clone(), i2.clone(), 100, 100, 1, 0, 0).unwrap();
    let bbox = BBox { min_x: 0, min_y: 0, max_x: 10, max_y: 10 };
    let hits = s.list_in_viewport(&y, &bbox);
    assert_eq!(hits.len(), 1);
    assert_eq!(hits[0].item_id, i);
}
