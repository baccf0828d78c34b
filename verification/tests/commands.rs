use dkb::board::Board;
use dkb::cli_state::CliState;
use dkb::commands::{
    command_target, command_words, delete_options, item_file_path, item_ids, list_items,
    new_item_location, parse_command, resolve_editor, split_words, Command, CommandError,
};
use dkb::item::{Category, Item};
use dkb::selection::SelectError;
use dkb::storage::Location;

fn strings(v: &[&str]) -> Vec<String> {
    v.iter().map(|s| s.to_string()).collect()
}

#[test]
fn commands_and_aliases() {
    assert_eq!(parse_command(&strings(&[])), Err(CommandError::Usage));
    assert_eq!(parse_command(&strings(&["n"])), Ok(Command::New(None)));
    assert_eq!(parse_command(&strings(&["new", "today"])), Ok(Command::New(Some("today".into()))));
    assert_eq!(parse_command(&strings(&["ls", "b", "x"])), Ok(Command::List(Some("b".into()))));
    assert_eq!(parse_command(&strings(&["list"])), Ok(Command::List(None)));
    assert_eq!(parse_command(&strings(&["p"])), Err(CommandError::PickNeedsArgument));
    assert_eq!(parse_command(&strings(&["pick", "2"])), Ok(Command::Pick("2".into())));
    assert_eq!(parse_command(&strings(&["ed", "1", "2"])), Ok(Command::Edit(strings(&["1", "2"]))));
    assert_eq!(parse_command(&strings(&["mv", "1"])), Err(CommandError::MoveNeedsArguments));
    assert_eq!(
        parse_command(&strings(&["move", "1", "done"])),
        Ok(Command::Move("1".into(), "done".into()))
    );
    assert_eq!(
        parse_command(&strings(&["rm", "-f", "0", "--force", "3"])),
        Ok(Command::Delete { args: strings(&["0", "3"]), force: true })
    );
    assert_eq!(
        parse_command(&strings(&["delete", "4"])),
        Ok(Command::Delete { args: strings(&["4"]), force: false })
    );
    assert_eq!(parse_command(&strings(&["frob"])), Err(CommandError::Unknown("frob".into())));
}

#[test]
fn delete_flags_are_removed() {
    assert_eq!(delete_options(&strings(&["-f"])), (Vec::new(), true));
    assert_eq!(delete_options(&strings(&["a", "-F", "b"])), (strings(&["a", "-F", "b"]), false));
}

#[test]
fn words_split_on_white_space() {
    assert_eq!(split_words("  code --wait\t-n "), strings(&["code", "--wait", "-n"]));
    assert_eq!(split_words(""), Vec::<String>::new());
    assert_eq!(split_words(" \n "), Vec::<String>::new());
    assert_eq!(command_words("less -R", "less"), strings(&["less", "-R"]));
    assert_eq!(command_words("  ", "vi"), strings(&["vi"]));
}

#[test]
fn editor_setting_precedence() {
    assert_eq!(resolve_editor(Some("code"), Some("nano")), "code");
    assert_eq!(resolve_editor(None, Some("nano")), "nano");
    assert_eq!(resolve_editor(None, None), "vi");
}

#[test]
fn new_items_go_to_the_named_column() {
    assert_eq!(new_item_location(None), Location::Backlog);
    assert_eq!(new_item_location(Some("tw")), Location::Active(Category::ThisWeek));
    assert_eq!(new_item_location(Some("nowhere")), Location::Backlog);
}

#[test]
fn listing_all_active_columns() {
    let mut board = Board::default();
    let a = Item::new("a");
    let b = Item::new("b");
    let c = Item::new("c");
    let (ia, ib, ic) = (a.id, b.id, c.id);
    board.insert_item(a, &Location::Active(Category::NextWeek));
    board.insert_item(b, &Location::Active(Category::Yesterday));
    board.insert_item(c, &Location::Backlog);
    assert_eq!(item_ids(&list_items(&board, None)), vec![ib, ia]);
    assert_eq!(item_ids(&list_items(&board, Some(Location::Backlog))), vec![ic]);
}

#[test]
fn targets_of_commands() {
    let mut board = Board::default();
    let a = Item::new("a");
    let ia = a.id;
    board.insert_item(a, &Location::Backlog);
    let mut state = CliState::default();
    assert_eq!(command_target(None, &board, &state, "d"), Err(SelectError::NoCurrent));
    state.set_current(ia);
    assert_eq!(command_target(None, &board, &state, "d"), Ok(ia));
    assert_eq!(command_target(Some("b/0"), &board, &state, "d"), Ok(ia));
    assert_eq!(
        command_target(Some("3"), &board, &state, "d"),
        Err(SelectError::IndexOutOfRange { index: 3, len: 0 })
    );
}

#[test]
fn item_files_under_the_data_directory() {
    let id = 0x0123_4567_89ab_cdef_0123_4567_89ab_cdefu128;
    assert_eq!(
        item_file_path("/data/", id, &Location::Active(Category::Today)),
        "/data/active/today/01234567-89ab-cdef-0123-456789abcdef.md"
    );
}

#[test]
fn test_resolve_editor_visual() {
    assert_eq!(resolve_editor(Some("vim"), None), "vim");
}

#[test]
fn test_resolve_editor_fallback_to_editor() {
    assert_eq!(resolve_editor(None, Some("nano")), "nano");
}

#[test]
fn test_resolve_editor_default_vi() {
    assert_eq!(resolve_editor(None, None), "vi");
}
