use dkb::board::Board;
use dkb::cli_state::CliState;
use dkb::item::{Category, Item};
use dkb::selection::{parse_selection, resolve_selection, SelectError, Selection};
use dkb::storage::Location;

#[test]
fn test_parse_empty_is_current() {
    assert!(matches!(parse_selection(""), Selection::Current));
}

#[test]
fn test_parse_number() {
    assert!(matches!(parse_selection("3"), Selection::Index(n) if n == 3));
}

#[test]
fn test_parse_category_index() {
    let s = parse_selection("yesterday/1");
    match s {
        Selection::CategoryIndex(loc, n) => {
            assert_eq!(loc, Location::Active(Category::Yesterday));
            assert_eq!(n, 1);
        }
        _ => panic!("wrong variant"),
    }
}

#[test]
fn test_parse_uuid_file() {
    let id = uuid::Uuid::new_v4();
    let s = parse_selection(&format!("{id}.md"));
    assert!(matches!(s, Selection::File(u) if u == id.as_u128()));
}

#[test]
fn parse_other_forms() {
    let id = uuid::Uuid::new_v4();
    assert!(matches!(parse_selection(&format!("  {id} ")), Selection::File(u) if u == id.as_u128()));
    assert!(matches!(parse_selection("   "), Selection::Current));
    assert!(matches!(parse_selection("+3"), Selection::Path(_)));
    assert!(matches!(parse_selection("tomorrow/1"), Selection::Path(_)));
    assert!(matches!(parse_selection("TW/0"), Selection::CategoryIndex(Location::Active(Category::ThisWeek), 0)));
    match parse_selection("notes/x.md") {
        Selection::Path(p) => assert_eq!(p, "notes/x.md"),
        _ => panic!("wrong variant"),
    }
}

#[test]
fn test_resolve_current() {
    let mut board = Board::default();
    let item = Item::new("task");
    let id = item.id;
    board.insert_item(item, &Location::Active(Category::Today));
    let mut state = CliState::default();
    state.set_current(id);
    let resolved = resolve_selection(&Selection::Current, &board, &state, "data");
    assert_eq!(resolved.unwrap(), id);
    let empty = CliState::default();
    assert_eq!(resolve_selection(&Selection::Current, &board, &empty, "data"), Err(SelectError::NoCurrent));
}

#[test]
fn select_test_resolve_index() {
    let mut board = Board::default();
    let a = Item::new("a");
    let b = Item::new("b");
    let (id1, id2) = (a.id, b.id);
    board.insert_item(a, &Location::Active(Category::Today));
    board.insert_item(b, &Location::Active(Category::Today));
    let mut state = CliState::default();
    state.set_last_list(vec![id1, id2]);
    let r0 = resolve_selection(&Selection::Index(0), &board, &state, "data");
    let r1 = resolve_selection(&Selection::Index(1), &board, &state, "data");
    assert_eq!(r0.unwrap(), id1);
    assert_eq!(r1.unwrap(), id2);
}

#[test]
fn test_resolve_index_out_of_range() {
    let state = CliState::default();
    let board = Board::default();
    let r = resolve_selection(&Selection::Index(0), &board, &state, "data");
    assert!(r.is_err());
    assert_eq!(r, Err(SelectError::IndexOutOfRange { index: 0, len: 0 }));
}

#[test]
fn test_resolve_category_index() {
    let mut board = Board::default();
    let first = Item::new("first");
    let second = Item::new("second");
    let id1 = first.id;
    board.insert_item(first, &Location::Backlog);
    board.insert_item(second, &Location::Backlog);
    let state = CliState::default();
    let r = resolve_selection(&Selection::CategoryIndex(Location::Backlog, 0), &board, &state, "data");
    assert_eq!(r.unwrap(), id1);
    let r = resolve_selection(&Selection::CategoryIndex(Location::Done, 0), &board, &state, "data");
    assert_eq!(
        r,
        Err(SelectError::CategoryIndexOutOfRange { location: Location::Done, index: 0, len: 0 })
    );
}

#[test]
fn test_resolve_file() {
    let mut board = Board::default();
    let item = Item::new("done task");
    let id = item.id;
    board.insert_item(item, &Location::Done);
    let state = CliState::default();
    let r = resolve_selection(&Selection::File(id), &board, &state, "data");
    assert_eq!(r.unwrap(), id);
    assert_eq!(resolve_selection(&Selection::File(7), &board, &state, "data"), Err(SelectError::NotOnBoard(7)));
}

#[test]
fn resolve_paths() {
    let mut board = Board::default();
    let item = Item::new("x");
    let id = item.id;
    board.insert_item(item, &Location::Backlog);
    let state = CliState::default();
    let path = format!("data/backlog/{}.md", uuid::Uuid::from_u128(id));
    assert_eq!(resolve_selection(&Selection::Path(path), &board, &state, "data"), Ok(id));
    assert_eq!(
        resolve_selection(&Selection::Path("notes/readme.md".to_string()), &board, &state, "data"),
        Err(SelectError::InvalidUuid)
    );
    assert_eq!(
        resolve_selection(&Selection::Path("/".to_string()), &board, &state, "data"),
        Err(SelectError::InvalidPath)
    );
}
