use dkb::board::Board;
use dkb::item::{Category, Item, Timestamp};
use dkb::storage::Location;

fn make_board_with_items() -> Board {
    let mut board = Board::default();
    let backlog_item = Item::new("Backlog task");
    let today_item = Item::new("Today task");
    let done_item = {
        let mut i = Item::new("Done task");
        i.completed_at = Some(dkb::item::now());
        i
    };
    board.insert_item(backlog_item, &Location::Backlog);
    board.insert_item(today_item, &Location::Active(Category::Today));
    board.insert_item(done_item, &Location::Done);
    board
}

#[test]
fn test_find_item_in_backlog() {
    let board = make_board_with_items();
    let id = board.backlog[0].id;
    let found = board.find_item(&id);
    assert!(found.is_some());
    assert_eq!(found.unwrap().title(), "Backlog task");
}

#[test]
fn test_find_item_location() {
    let board = make_board_with_items();
    let backlog_id = board.backlog[0].id;
    let today_id = board.active.today[0].id;
    let done_id = board.done[0].id;
    assert_eq!(board.find_item_location(&backlog_id), Some(Location::Backlog));
    assert_eq!(board.find_item_location(&today_id), Some(Location::Active(Category::Today)));
    assert_eq!(board.find_item_location(&done_id), Some(Location::Done));
}

#[test]
fn test_can_move_backlog_to_active() {
    let board = make_board_with_items();
    let id = board.backlog[0].id;
    assert!(board.can_move(&id, &Location::Active(Category::Today)));
}

#[test]
fn test_can_move_active_to_done() {
    let board = make_board_with_items();
    let id = board.active.today[0].id;
    assert!(board.can_move(&id, &Location::Done));
}

#[test]
fn test_can_move_done_to_active() {
    let board = make_board_with_items();
    let id = board.done[0].id;
    assert!(board.can_move(&id, &Location::Active(Category::Today)));
}

#[test]
fn test_cannot_move_backlog_to_done() {
    let board = make_board_with_items();
    let id = board.backlog[0].id;
    assert!(!board.can_move(&id, &Location::Done));
}

#[test]
fn test_move_item_updates_board_state() {
    let mut board = make_board_with_items();
    let id = board.backlog[0].id;
    let from_count = board.backlog.len();
    let result = board.move_item(&id, &Location::Active(Category::Today));
    assert!(result.is_some());
    let (from, to) = result.unwrap();
    assert_eq!(from, Location::Backlog);
    assert_eq!(to, Location::Active(Category::Today));
    assert_eq!(board.backlog.len(), from_count - 1);
    assert_eq!(board.active.today.iter().filter(|i| i.id == id).count(), 1);
}

#[test]
fn test_move_item_to_done_sets_completed_at() {
    let mut board = make_board_with_items();
    let id = board.active.today[0].id;
    board.move_item(&id, &Location::Done).unwrap();
    let done_item = board.done.iter().find(|i| i.id == id).unwrap();
    assert!(done_item.completed_at.is_some());
}

#[test]
fn test_move_item_from_done_clears_completed_at() {
    let mut board = make_board_with_items();
    let id = board.done[0].id;
    board.move_item(&id, &Location::Active(Category::Today)).unwrap();
    let reopened = board.active.today.iter().find(|i| i.id == id).unwrap();
    assert!(reopened.completed_at.is_none());
}

#[test]
fn refused_moves_change_nothing() {
    let mut board = make_board_with_items();
    let id = board.backlog[0].id;
    assert_eq!(board.move_item(&id, &Location::Done), None);
    assert_eq!(board.move_item(&id, &Location::Backlog), None);
    assert_eq!(board.move_item(&12345u128, &Location::Done), None);
    assert_eq!(board.backlog.len(), 1);
    assert_eq!(board.done.len(), 1);
    assert!(!board.can_move(&12345u128, &Location::Backlog));
    assert_eq!(board.find_item_location(&12345u128), None);
}

#[test]
fn column_order_and_state() {
    let mut board = Board::default();
    let a = Item::new("a");
    let b = Item::new("b");
    let c = Item::new("c");
    let (ia, ib, ic) = (a.id, b.id, c.id);
    for it in [a, b, c] {
        board.insert_item(it, &Location::Backlog);
    }
    board.set_column_order(&Location::Backlog, vec![ic, 999, ia]);
    let ids: Vec<u128> = board.backlog.iter().map(|i| i.id).collect();
    assert_eq!(ids, vec![ic, ia, ib]);
    let state = board.to_board_state();
    assert_eq!(state.version, 1);
    assert_eq!(state.order.len(), 6);
    assert_eq!(state.order[0].0, "backlog");
    assert_eq!(state.order[0].1, vec![ic, ia, ib]);
    assert_eq!(state.order[5].0, "done");
    assert!(state.order[5].1.is_empty());
}

#[test]
fn remove_and_insert_items() {
    let mut board = make_board_with_items();
    let id = board.active.today[0].id;
    assert!(board.remove_item(&id, &Location::Backlog).is_none());
    let it = board.remove_item(&id, &Location::Active(Category::Today)).unwrap();
    assert_eq!(it.id, id);
    assert!(board.active.today.is_empty());
    board.insert_item(it, &Location::Active(Category::NextWeek));
    assert_eq!(board.find_item_location(&id), Some(Location::Active(Category::NextWeek)));
    let moved = board.move_item(&id, &Location::Active(Category::Yesterday));
    assert_eq!(moved, Some((Location::Active(Category::NextWeek), Location::Active(Category::Yesterday))));
    let kept: Option<Timestamp> = board.active.yesterday[0].completed_at;
    assert!(kept.is_none());
}

#[test]
fn find_item_mut_changes_in_place() {
    let mut board = make_board_with_items();
    let id = board.active.today[0].id;
    {
        let item = board.find_item_mut(&id).unwrap();
        item.body = "Renamed".to_string();
    }
    assert_eq!(board.active.today[0].body, "Renamed");
    assert!(board.find_item_mut(&4242u128).is_none());
}
