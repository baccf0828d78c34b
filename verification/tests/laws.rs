use dkb::i18n::Language;
use dkb::board::Board;
use dkb::item::{Category, Item};
use dkb::storage::Location;
use dkb::text_input::TextInputState;
use dkb::vi::{ViMode, ViState};

#[test]
fn undo_restores_and_redo_reapplies() {
    let mut s = TextInputState::new("héllo");
    s.move_to(3);
    s.insert("XY");
    assert_eq!(s.content(), "héXYllo");
    s.undo();
    assert_eq!(s.content(), "héllo");
    assert_eq!(s.selected_range(), 3..3);
    s.redo();
    assert_eq!(s.content(), "héXYllo");
    assert_eq!(s.selected_range(), 5..5);
    s.undo();
    s.backspace();
    assert_eq!(s.content(), "hllo");
    s.undo();
    assert_eq!(s.content(), "héllo");
    // an edit forgets what was undone
    s.delete();
    s.undo();
    s.insert("!");
    s.redo();
    assert_eq!(s.content(), "hé!llo");
}

#[test]
fn vi_x_then_u_restores_text() {
    let mut s = TextInputState::new("abc\ndef");
    s.move_to(1);
    let mut vi = ViState::new();
    assert!(vi.handle_key("x", &mut s));
    assert_eq!(s.content(), "ac\ndef");
    assert!(vi.handle_key("u", &mut s));
    assert_eq!(s.content(), "abc\ndef");
    assert_eq!(s.cursor_offset(), 1);
    assert_eq!(vi.mode, ViMode::Normal);
}

#[test]
fn vi_dd_then_u_restores_text() {
    let mut s = TextInputState::new("one\ntwo\nthree");
    s.move_to(5);
    let mut vi = ViState::new();
    vi.handle_key("d", &mut s);
    vi.handle_key("d", &mut s);
    assert_eq!(s.content(), "one\nthree");
    vi.handle_key("u", &mut s);
    assert_eq!(s.content(), "one\ntwo\nthree");
    assert_eq!(s.cursor_offset(), 5);
}

#[test]
fn moved_item_is_found_at_its_destination_once() {
    let mut board = Board::default();
    let items: Vec<Item> = (0..4).map(|k| Item::new(&format!("t{k}"))).collect();
    let ids: Vec<u128> = items.iter().map(|i| i.id).collect();
    for it in items {
        board.insert_item(it, &Location::Active(Category::Today));
    }
    board.move_item(&ids[1], &Location::Done).unwrap();
    assert_eq!(board.find_item_location(&ids[1]), Some(Location::Done));
    assert_eq!(board.done.last().unwrap().id, ids[1]);
    let total = board.backlog.len()
        + board.active.yesterday.len()
        + board.active.today.len()
        + board.active.this_week.len()
        + board.active.next_week.len()
        + board.done.len();
    assert_eq!(total, 4);
    assert_eq!(board.active.today.iter().filter(|i| i.id == ids[1]).count(), 0);
}

#[test]
fn stored_order_reads_back() {
    let mut board = Board::default();
    let items: Vec<Item> = (0..3).map(|k| Item::new(&format!("t{k}"))).collect();
    let ids: Vec<u128> = items.iter().map(|i| i.id).collect();
    for it in items {
        board.insert_item(it, &Location::Done);
    }
    let order = vec![ids[2], ids[0], ids[1]];
    board.set_column_order(&Location::Done, order.clone());
    assert_eq!(board.to_board_state().order[5].1, order);
}

#[test]
fn framed_document_splits_back() {
    let yaml = "created_at: 2026-01-01T00:00:00Z\nupdated_at: 2026-01-02T00:00:00Z\n\n";
    let body = "Title\n\nBody --- with dashes\n---\nmore";
    let doc = Item::frame_document(yaml, body);
    let (y, b) = Item::split_frontmatter(&doc).unwrap();
    assert_eq!(y, yaml.trim());
    assert_eq!(b, body);
}

#[test]
fn vi_yy_then_p_inserts_the_line() {
    let mut s = TextInputState::new("one\ntwo");
    s.move_to(0);
    let mut vi = ViState::new();
    vi.handle_key("y", &mut s);
    vi.handle_key("y", &mut s);
    assert_eq!(s.content(), "one\ntwo");
    vi.handle_key("p", &mut s);
    assert_eq!(s.content(), "one\none\ntwo");
    vi.handle_key("u", &mut s);
    assert_eq!(s.content(), "one\ntwo");
}

#[test]
fn utf16_offsets_round_trip_at_boundaries() {
    let s = TextInputState::new("a€😀b\n");
    let text = s.content().to_string();
    for o in 0..=text.len() {
        if text.is_char_boundary(o) {
            let u = s.offset_to_utf16(o);
            assert_eq!(u, text[..o].encode_utf16().count());
            assert_eq!(s.offset_from_utf16(u), o);
        }
    }
    assert_eq!(TextInputState::new("€").offset_from_utf16(1), 3);
}

#[test]
fn codes_ignore_case_and_separator() {
    for lang in Language::all() {
        let code = lang.code();
        assert_eq!(Language::from_code(&code.to_ascii_uppercase()), Some(lang));
        assert_eq!(Language::from_code(&code.to_ascii_lowercase()), Some(lang));
        assert_eq!(Language::from_code(&code.replace('-', "_")), Some(lang));
    }
    assert_eq!(Language::from_code("DE_de.utf-8"), Language::from_code("de_DE.UTF-8"));
}

#[test]
fn codes_ignore_padding_and_charset() {
    for lang in Language::all() {
        let code = lang.code();
        assert_eq!(Language::from_code(&format!(" {code} ")), Some(lang));
        assert_eq!(Language::from_code(&format!("{code}.UTF-8")), Some(lang));
    }
    for s in ["", " ", "xx", "de_DE", "zz.UTF-8"] {
        assert_eq!(Language::from_code(&format!(" {s} ")), Language::from_code(s));
        assert_eq!(Language::from_code(&format!("{s}.UTF-8")), Language::from_code(s));
    }
}

#[test]
fn first_operator_key_reads_no_text() {
    // a cursor inside a multi-byte character: the first `d` only records the operator
    let mut s = TextInputState::new("é");
    s.move_to(1);
    let mut vi = ViState::new();
    assert!(vi.handle_key("d", &mut s));
    assert_eq!(vi.pending_op, Some('d'));
    assert_eq!(s.content(), "é");
    // Visual `x` on an empty selection only leaves Visual mode
    let mut vi = ViState::new();
    vi.handle_key("v", &mut s);
    assert!(vi.handle_key("x", &mut s));
    assert_eq!(vi.mode, ViMode::Normal);
    assert_eq!(s.content(), "é");
}

#[test]
fn new_items_get_version_four_identifiers() {
    let id = Item::new("x").id;
    assert_eq!(uuid::Uuid::from_u128(id).get_version_num(), 4);
    assert_eq!((id >> 62) & 3, 2);
}
