use dkb::terminal::{format_list_line, terminal_width};

#[test]
fn test_format_normal_line() {
    let line = format_list_line(0, false, "Buy groceries", 1, 40);
    assert_eq!(line, "  0 Buy groceries");
}

#[test]
fn test_format_current_line() {
    let line = format_list_line(1, true, "Current task", 1, 40);
    assert_eq!(line, "* 1 Current task");
}

#[test]
fn test_right_justify_with_width() {
    let line = format_list_line(3, false, "task", 2, 10);
    assert_eq!(line, "   3 task");
}

#[test]
fn test_truncation() {
    let line = format_list_line(0, false, "a very long title that exceeds the width", 1, 10);
    assert_eq!(line, "  0 a ver");
}

#[test]
fn test_truncation_with_current_marker() {
    let line = format_list_line(0, true, "a very long title that exceeds the width", 1, 10);
    assert_eq!(line, "* 0 a ver");
}

#[test]
fn terminal_width_is_eighty() {
    assert_eq!(terminal_width(), 80);
}

#[test]
fn format_line_wider_index_and_narrow_width() {
    assert_eq!(format_list_line(12, false, "x", 3, 40), "   12 x");
    assert_eq!(format_list_line(123, true, "x", 1, 40), "* 123 x");
    // the prefix alone is wider than the line: no room for the title
    assert_eq!(format_list_line(5, false, "title", 1, 3), "  5 ");
    // non-ASCII titles are cut by characters
    assert_eq!(format_list_line(0, false, "äöüßéèà", 1, 8), "  0 äöü");
}
