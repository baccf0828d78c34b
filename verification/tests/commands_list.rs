use dkb::board::Board;
use dkb::item::{Category, Item};
use dkb::listing::{active_locations, build_item_from_body, collect_items, is_empty_body, render_list};
use dkb::storage::Location;

#[test]
fn test_active_locations_order() {
    let locs = active_locations();
    assert_eq!(locs[0], Location::Active(Category::Yesterday));
    assert_eq!(locs[1], Location::Active(Category::Today));
    assert_eq!(locs[2], Location::Active(Category::ThisWeek));
    assert_eq!(locs[3], Location::Active(Category::NextWeek));
}

#[test]
fn test_collect_items_today() {
    let mut board = Board::default();
    let i1 = Item::new("task a");
    board.active.today.push(i1.clone());
    board.active.today.push(Item::new("task b"));
    let items = collect_items(&board, &Location::Active(Category::Today));
    assert_eq!(items.len(), 2);
    assert_eq!(items[0].id, i1.id);
}

#[test]
fn test_render_list_no_current() {
    let i1 = Item::new("Only task");
    let items = vec![i1];
    let out = render_list(&items, None, 80);
    assert!(out.contains("0 Only task"));
    assert!(!out.contains('*'));
}

#[test]
fn render_list_marks_current_with_index() {
    let i1 = Item::new("First task");
    let i2 = Item::new("Second task");
    let items = vec![i1.clone(), i2.clone()];
    let out = render_list(&items, Some(i1.id), 80);
    assert_eq!(out, "* 0 First task\n  1 Second task");
}

#[test]
fn render_list_empty_and_index_width() {
    assert_eq!(render_list(&Vec::new(), None, 80), "");
    let items: Vec<Item> = (0..11).map(|k| Item::new(&format!("t{k}"))).collect();
    let out = render_list(&items, None, 80);
    let lines: Vec<&str> = out.split('\n').collect();
    assert_eq!(lines.len(), 11);
    assert_eq!(lines[0], "   0 t0");
    assert_eq!(lines[10], "  10 t10");
}

#[test]
fn collect_items_of_every_column() {
    let mut board = Board::default();
    let b = Item::new("b");
    let d = Item::new("d");
    board.backlog.push(b.clone());
    board.done.push(d.clone());
    assert_eq!(collect_items(&board, &Location::Backlog)[0].id, b.id);
    assert_eq!(collect_items(&board, &Location::Done)[0].id, d.id);
    assert!(collect_items(&board, &Location::Active(Category::Yesterday)).is_empty());
}

#[test]
fn test_build_item_extracts_body() {
    let id = uuid::Uuid::new_v4().as_u128();
    let item = build_item_from_body(id, "# My task\nsome detail\n");
    assert_eq!(item.id, id);
    assert_eq!(item.body, "# My task\nsome detail\n");
    assert!(item.completed_at.is_none());
}

#[test]
fn test_build_item_empty_aborts() {
    let id = uuid::Uuid::new_v4().as_u128();
    let item = build_item_from_body(id, "# ");
    assert!(item.body.trim().is_empty() || item.body.trim() == "#");
}

#[test]
fn empty_body_detection() {
    assert!(is_empty_body(""));
    assert!(is_empty_body(" \n\t "));
    assert!(is_empty_body(" # \n"));
    assert!(!is_empty_body(" x "));
    assert!(!is_empty_body("## x"));
}
