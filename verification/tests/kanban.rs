use dkb::board::Board;
use dkb::item::{Category, Item};
use dkb::kanban::{
    next_item, prev_item, quick_add_location, quick_add_title, screen_items, toggle_done_target,
    Screen,
};
use dkb::storage::Location;

#[test]
fn selection_steps_and_wraps() {
    let items = vec![10u128, 20, 30];
    assert_eq!(next_item(&items, None), Some(10));
    assert_eq!(next_item(&items, Some(10)), Some(20));
    assert_eq!(next_item(&items, Some(30)), Some(10));
    assert_eq!(next_item(&items, Some(99)), Some(10));
    assert_eq!(prev_item(&items, None), Some(30));
    assert_eq!(prev_item(&items, Some(10)), Some(30));
    assert_eq!(prev_item(&items, Some(20)), Some(10));
    assert_eq!(prev_item(&items, Some(99)), Some(30));
    assert_eq!(next_item(&Vec::new(), Some(1)), None);
    assert_eq!(prev_item(&Vec::new(), None), None);
}

#[test]
fn next_then_prev_comes_back() {
    let items = vec![5u128, 6, 7, 8];
    for &cur in &items {
        assert_eq!(prev_item(&items, next_item(&items, Some(cur))), Some(cur));
        assert_eq!(next_item(&items, prev_item(&items, Some(cur))), Some(cur));
    }
}

#[test]
fn screens_show_their_columns() {
    let mut board = Board::default();
    let a = Item::new("a");
    let b = Item::new("b");
    let c = Item::new("c");
    let (ia, ib, ic) = (a.id, b.id, c.id);
    board.insert_item(a, &Location::Active(Category::ThisWeek));
    board.insert_item(b, &Location::Active(Category::Today));
    board.insert_item(c, &Location::Done);
    assert_eq!(screen_items(&board, Screen::Active), vec![ib, ia]);
    assert_eq!(screen_items(&board, Screen::Done), vec![ic]);
    assert!(screen_items(&board, Screen::Backlog).is_empty());
}

#[test]
fn toggling_and_quick_adding() {
    assert_eq!(toggle_done_target(&Location::Active(Category::Yesterday)), Some(Location::Done));
    assert_eq!(toggle_done_target(&Location::Done), Some(Location::Active(Category::Today)));
    assert_eq!(toggle_done_target(&Location::Backlog), None);
    assert_eq!(quick_add_location(Screen::Active), Location::Active(Category::Today));
    assert_eq!(quick_add_location(Screen::Done), Location::Backlog);
    assert_eq!(quick_add_location(Screen::Backlog), Location::Backlog);
    assert_eq!(quick_add_title("  buy milk \n"), Some("buy milk".to_string()));
    assert_eq!(quick_add_title(" \t "), None);
}

#[test]
fn test_screen_variants() {
    assert_eq!(Screen::Backlog, Screen::Backlog);
    assert_eq!(Screen::Active, Screen::Active);
    assert_eq!(Screen::Done, Screen::Done);
    assert_eq!(Screen::Settings, Screen::Settings);
    assert!(screen_items(&Board::default(), Screen::Settings).is_empty());
    assert_eq!(quick_add_location(Screen::Settings), Location::Backlog);
}
