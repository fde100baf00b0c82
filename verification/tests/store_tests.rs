use rostfacto::models::{Category, NewItem, NewRetro, Status, StoreError};
use rostfacto::store::Store;

fn board_with(title: &str, store: &mut Store) -> u64 {
    store.create_retro(NewRetro { title: title.to_string() })
}

fn item_on(store: &mut Store, rid: u64, cat: Category, text: &str) -> u64 {
    store
        .add_item(rid, cat, NewItem { text: text.to_string() })
        .expect("board exists")
        .id
}

#[test]
fn test_create_retro_and_get_board() {
    let mut store = Store::new();
    let rid = board_with("Sprint 5", &mut store);
    let board = store.get_board(rid).expect("board exists");
    assert_eq!(board.id, rid);
    assert_eq!(board.title, "Sprint 5");
}

#[test]
fn test_get_board_not_found() {
    let store = Store::new();
    assert_eq!(store.get_board(99999).unwrap_err(), StoreError::NotFound);
}

#[test]
fn test_list_retros_newest_first() {
    let mut store = Store::new();
    let first = board_with("first", &mut store);
    let second = board_with("second", &mut store);
    let third = board_with("third", &mut store);
    let listed: Vec<u64> = store.list_retros().iter().map(|r| r.id).collect();
    assert_eq!(listed, vec![third, second, first]);
}

#[test]
fn test_add_item_starts_created() {
    let mut store = Store::new();
    let rid = board_with("board", &mut store);
    let item = store
        .add_item(rid, Category::Good, NewItem { text: "ship it".to_string() })
        .expect("board exists");
    assert_eq!(item.status, Status::Created);
    assert_eq!(item.retro_id, rid);
    assert_eq!(item.text, "ship it");
    let stored = store.get_item(item.id).expect("item exists");
    assert_eq!(stored.status, Status::Created);
    assert_eq!(stored.text, "ship it");
}

#[test]
fn test_add_item_missing_board() {
    let mut store = Store::new();
    let r = store.add_item(99999, Category::Good, NewItem { text: "x".to_string() });
    assert_eq!(r.unwrap_err(), StoreError::NotFound);
}

#[test]
fn test_get_item_not_found() {
    let store = Store::new();
    assert_eq!(store.get_item(99999).unwrap_err(), StoreError::NotFound);
}

#[test]
fn test_toggle_created_to_highlighted() {
    let mut store = Store::new();
    let rid = board_with("board", &mut store);
    let id = item_on(&mut store, rid, Category::Good, "first");
    let out = store.toggle_status(id).expect("item exists");
    assert_eq!(out.item.status, Status::Highlighted);
    assert!(!out.board_now_fully_completed);
}

#[test]
fn test_toggle_blocked_while_other_highlighted() {
    let mut store = Store::new();
    let rid = board_with("board", &mut store);
    let first = item_on(&mut store, rid, Category::Good, "first");
    let second = item_on(&mut store, rid, Category::Bad, "second");
    store.toggle_status(first).expect("item exists");
    let out = store.toggle_status(second).expect("item exists");
    assert_eq!(out.item.status, Status::Created);
    assert_eq!(store.get_item(first).unwrap().status, Status::Highlighted);
}

#[test]
fn test_toggle_highlighted_to_completed() {
    let mut store = Store::new();
    let rid = board_with("board", &mut store);
    let id = item_on(&mut store, rid, Category::Good, "only");
    store.toggle_status(id).expect("item exists");
    let out = store.toggle_status(id).expect("item exists");
    assert_eq!(out.item.status, Status::Completed);
    assert!(out.board_now_fully_completed);
}

#[test]
fn test_toggle_completed_is_noop() {
    let mut store = Store::new();
    let rid = board_with("board", &mut store);
    let id = item_on(&mut store, rid, Category::Good, "only");
    store.toggle_status(id).expect("item exists");
    store.toggle_status(id).expect("item exists");
    let out = store.toggle_status(id).expect("item exists");
    assert_eq!(out.item.status, Status::Completed);
}

#[test]
fn test_toggle_archived_is_noop() {
    let mut store = Store::new();
    let rid = board_with("board", &mut store);
    let id = item_on(&mut store, rid, Category::Good, "only");
    store.archive_retro(rid).expect("board exists");
    let out = store.toggle_status(id).expect("item exists");
    assert_eq!(out.item.status, Status::Archived);
}

#[test]
fn test_toggle_missing_item() {
    let mut store = Store::new();
    assert_eq!(store.toggle_status(99999).unwrap_err(), StoreError::NotFound);
}

#[test]
fn test_toggle_frees_highlight_for_next_item() {
    let mut store = Store::new();
    let rid = board_with("board", &mut store);
    let first = item_on(&mut store, rid, Category::Good, "first");
    let second = item_on(&mut store, rid, Category::Bad, "second");
    store.toggle_status(first).expect("item exists");
    store.toggle_status(first).expect("item exists");
    let out = store.toggle_status(second).expect("item exists");
    assert_eq!(out.item.status, Status::Highlighted);
}

#[test]
fn test_mutual_exclusion_either_order() {
    for reversed in [false, true] {
        let mut store = Store::new();
        let rid = board_with("board", &mut store);
        let a = item_on(&mut store, rid, Category::Good, "a");
        let b = item_on(&mut store, rid, Category::Bad, "b");
        let (first, second) = if reversed { (b, a) } else { (a, b) };
        store.toggle_status(first).expect("item exists");
        store.toggle_status(second).expect("item exists");
        let highlighted: Vec<u64> = store
            .list_active_items(rid)
            .iter()
            .filter(|it| it.status == Status::Highlighted)
            .map(|it| it.id)
            .collect();
        assert_eq!(highlighted, vec![first]);
    }
}

#[test]
fn test_boards_do_not_contend() {
    let mut store = Store::new();
    let left = board_with("left", &mut store);
    let right = board_with("right", &mut store);
    let l = item_on(&mut store, left, Category::Good, "l");
    let r = item_on(&mut store, right, Category::Good, "r");
    assert_eq!(store.toggle_status(l).unwrap().item.status, Status::Highlighted);
    assert_eq!(store.toggle_status(r).unwrap().item.status, Status::Highlighted);
}

#[test]
fn test_cas_conflict_on_stale_expectation() {
    let mut store = Store::new();
    let rid = board_with("board", &mut store);
    let id = item_on(&mut store, rid, Category::Good, "only");
    let r = store.cas_update_status(id, Status::Highlighted, Status::Completed);
    assert_eq!(r.unwrap_err(), StoreError::Conflict);
    assert_eq!(store.get_item(id).unwrap().status, Status::Created);
}

#[test]
fn test_cas_refuses_second_highlight() {
    let mut store = Store::new();
    let rid = board_with("board", &mut store);
    let first = item_on(&mut store, rid, Category::Good, "first");
    let second = item_on(&mut store, rid, Category::Bad, "second");
    store.toggle_status(first).expect("item exists");
    let r = store.cas_update_status(second, Status::Created, Status::Highlighted);
    assert_eq!(r.unwrap_err(), StoreError::Conflict);
    assert_eq!(store.get_item(second).unwrap().status, Status::Created);
}

#[test]
fn test_cas_not_found() {
    let mut store = Store::new();
    let r = store.cas_update_status(99999, Status::Created, Status::Highlighted);
    assert_eq!(r.unwrap_err(), StoreError::NotFound);
}

#[test]
fn test_completion_detection() {
    let mut store = Store::new();
    let rid = board_with("board", &mut store);
    assert!(store.is_board_fully_resolved(rid));
    let id = item_on(&mut store, rid, Category::Good, "only");
    assert!(!store.is_board_fully_resolved(rid));
    store.toggle_status(id).expect("item exists");
    assert!(!store.is_board_fully_resolved(rid));
    store.toggle_status(id).expect("item exists");
    assert!(store.is_board_fully_resolved(rid));
    item_on(&mut store, rid, Category::Watch, "late");
    assert!(!store.is_board_fully_resolved(rid));
}

#[test]
fn test_archive_idempotent() {
    let mut store = Store::new();
    let rid = board_with("board", &mut store);
    item_on(&mut store, rid, Category::Good, "one");
    item_on(&mut store, rid, Category::Bad, "two");
    assert_eq!(store.archive_retro(rid).unwrap(), 2);
    let view = store.board_view(rid).unwrap();
    assert!(view.good_items.is_empty() && view.bad_items.is_empty() && view.watch_items.is_empty());
    assert_eq!(store.archive_retro(rid).unwrap(), 0);
    let again = store.board_view(rid).unwrap();
    assert!(again.good_items.is_empty() && again.bad_items.is_empty() && again.watch_items.is_empty());
}

#[test]
fn test_archive_missing_board() {
    let mut store = Store::new();
    assert_eq!(store.archive_retro(99999).unwrap_err(), StoreError::NotFound);
}

#[test]
fn test_aggregation_ordering() {
    let mut store = Store::new();
    let rid = board_with("board", &mut store);
    let t1 = item_on(&mut store, rid, Category::Watch, "first");
    let t2 = item_on(&mut store, rid, Category::Watch, "second");
    let t3 = item_on(&mut store, rid, Category::Watch, "third");
    let view = store.board_view(rid).unwrap();
    let watch_ids: Vec<u64> = view.watch_items.iter().map(|it| it.id).collect();
    assert_eq!(watch_ids, vec![t1, t2, t3]);
    assert!(view.good_items.is_empty());
    assert!(view.bad_items.is_empty());
}

#[test]
fn test_aggregation_excludes_archived() {
    let mut store = Store::new();
    let rid = board_with("board", &mut store);
    let keep = item_on(&mut store, rid, Category::Good, "keep");
    let gone = item_on(&mut store, rid, Category::Good, "gone");
    store
        .cas_update_status(gone, Status::Created, Status::Archived)
        .expect("item still created");
    let view = store.board_view(rid).unwrap();
    let good_ids: Vec<u64> = view.good_items.iter().map(|it| it.id).collect();
    assert_eq!(good_ids, vec![keep]);
}

#[test]
fn test_board_view_missing_board() {
    let store = Store::new();
    assert_eq!(store.board_view(99999).unwrap_err(), StoreError::NotFound);
}

#[test]
fn test_list_active_items_excludes_archived() {
    let mut store = Store::new();
    let rid = board_with("board", &mut store);
    let a = item_on(&mut store, rid, Category::Good, "a");
    let b = item_on(&mut store, rid, Category::Bad, "b");
    store
        .cas_update_status(a, Status::Created, Status::Archived)
        .expect("item still created");
    let active: Vec<u64> = store.list_active_items(rid).iter().map(|it| it.id).collect();
    assert_eq!(active, vec![b]);
}

#[test]
fn test_delete_retro_cascades() {
    let mut store = Store::new();
    let doomed = board_with("doomed", &mut store);
    let kept = board_with("kept", &mut store);
    item_on(&mut store, doomed, Category::Good, "gone");
    let survivor = item_on(&mut store, kept, Category::Good, "stays");
    store.delete_retro(doomed);
    assert_eq!(store.get_board(doomed).unwrap_err(), StoreError::NotFound);
    assert_eq!(store.items.len(), 1);
    assert_eq!(store.get_item(survivor).unwrap().retro_id, kept);
}

#[test]
fn test_delete_missing_board_changes_nothing() {
    let mut store = Store::new();
    let rid = board_with("board", &mut store);
    item_on(&mut store, rid, Category::Good, "still here");
    store.delete_retro(99999);
    assert_eq!(store.retros.len(), 1);
    assert_eq!(store.items.len(), 1);
}

#[test]
fn test_retro_workflow() {
    let mut store = Store::new();
    let rid = board_with("Sprint 5", &mut store);
    let ship = item_on(&mut store, rid, Category::Good, "ship it");
    let flaky = item_on(&mut store, rid, Category::Bad, "flaky tests");

    let out = store.toggle_status(ship).expect("item exists");
    assert_eq!(out.item.status, Status::Highlighted);
    assert!(!out.board_now_fully_completed);

    let out = store.toggle_status(flaky).expect("item exists");
    assert_eq!(out.item.status, Status::Created);

    let out = store.toggle_status(ship).expect("item exists");
    assert_eq!(out.item.status, Status::Completed);
    assert!(!out.board_now_fully_completed);

    let out = store.toggle_status(flaky).expect("item exists");
    assert_eq!(out.item.status, Status::Highlighted);

    let out = store.toggle_status(flaky).expect("item exists");
    assert_eq!(out.item.status, Status::Completed);
    assert!(out.board_now_fully_completed);

    assert_eq!(store.archive_retro(rid).unwrap(), 2);
    let view = store.board_view(rid).unwrap();
    assert!(view.good_items.is_empty());
    assert!(view.bad_items.is_empty());
    assert!(view.watch_items.is_empty());
}
