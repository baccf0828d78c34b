use dkb::item::{Category, Item, Status};

#[test]
fn test_item_new_sets_title_from_first_line() {
    let item = Item::new("Fix the login bug");
    assert_eq!(item.title(), "Fix the login bug");
    assert_eq!(item.body, "Fix the login bug");
    assert!(item.created_at.secs <= chrono::Utc::now().timestamp());
    assert_eq!(item.created_at, item.updated_at);
    assert!(item.completed_at.is_none());
}

#[test]
fn test_item_new_with_multiline_body() {
    let item = Item::new("Fix the login bug\n\nDetails about the bug here");
    assert_eq!(item.title(), "Fix the login bug");
    assert_eq!(item.body, "Fix the login bug\n\nDetails about the bug here");
}

#[test]
fn test_extract_title_from_body() {
    assert_eq!(Item::extract_title("Hello world"), "Hello world");
    assert_eq!(Item::extract_title("Hello world\nrest"), "Hello world");
    assert_eq!(Item::extract_title("\n\nHello world\nrest"), "Hello world");
    assert_eq!(Item::extract_title(""), "");
    assert_eq!(Item::extract_title("\n\n\n"), "");
}

#[test]
fn extract_title_edge_cases() {
    assert_eq!(Item::extract_title("  \t\n  indented \r\nnext"), "  indented ");
    assert_eq!(Item::extract_title("last line only"), "last line only");
    assert_eq!(Item::extract_title(" \n \n"), "");
}

#[test]
fn test_status_variants() {
    let _backlog = Status::Backlog;
    let _active = Status::Active;
    let _done = Status::Done;
}

#[test]
fn test_category_variants() {
    let _y = Category::Yesterday;
    let _t = Category::Today;
    let _tw = Category::ThisWeek;
    let _nw = Category::NextWeek;
}

const YAML: &str = "created_at: 2026-08-13T10:30:00Z\nupdated_at: 2026-08-13T14:22:00Z\n";

#[test]
fn test_serialize_item_with_frontmatter() {
    let mut item = Item::new("My task title");
    item.body = "My task title\n\nSome **markdown** body.".to_string();
    let serialized = Item::frame_document(YAML, &item.body);
    assert!(serialized.starts_with("---\n"));
    assert!(serialized.contains("created_at:"));
    assert!(serialized.contains("updated_at:"));
    assert!(!serialized.contains("completed_at:"));
    assert!(serialized.contains("---\nMy task title"));
}

#[test]
fn test_parse_frontmatter() {
    let content = "---\ncreated_at: 2026-08-13T10:30:00Z\nupdated_at: 2026-08-13T14:22:00Z\ncompleted_at: null\n---\nFix the login bug\n\nDetails here";
    let (yaml, body) = Item::split_frontmatter(content).unwrap();
    assert_eq!(body, "Fix the login bug\n\nDetails here");
    let fm: serde_yaml::Value = serde_yaml::from_str(&yaml).unwrap();
    assert!(fm["completed_at"].is_null());
}

#[test]
fn test_parse_frontmatter_with_completed_at() {
    let content = "---\ncreated_at: 2026-08-13T10:30:00Z\nupdated_at: 2026-08-13T14:22:00Z\ncompleted_at: 2026-08-13T16:00:00Z\n---\nDone task";
    let (yaml, body) = Item::split_frontmatter(content).unwrap();
    let fm: serde_yaml::Value = serde_yaml::from_str(&yaml).unwrap();
    assert!(!fm["completed_at"].is_null());
    assert_eq!(body, "Done task");
}

#[test]
fn test_round_trip_serialize_parse() {
    let mut item = Item::new("Round trip test");
    item.body = "Round trip test\n\nBody text".to_string();
    let serialized = Item::frame_document(YAML, &item.body);
    let (yaml, body) = Item::split_frontmatter(&serialized).unwrap();
    assert_eq!(body, "Round trip test\n\nBody text");
    assert_eq!(yaml, YAML.trim());
}

#[test]
fn test_parse_frontmatter_no_frontmatter() {
    let content = "Just a body\nwith text";
    let (yaml, body) = Item::split_frontmatter(content).unwrap();
    assert_eq!(body, "Just a body\nwith text");
    assert_eq!(yaml, "");
}

#[test]
fn frontmatter_edge_cases() {
    // a byte order mark before the front matter is skipped
    let (yaml, body) = Item::split_frontmatter("\u{feff}---\na: 1\n---\nbody").unwrap();
    assert_eq!((yaml.as_str(), body.as_str()), ("a: 1", "body"));
    // blank lines after the closing delimiter are dropped
    let (_, body) = Item::split_frontmatter("---\na: 1\n---\n\n\nbody").unwrap();
    assert_eq!(body, "body");
    // a closing delimiter at the very end leaves an empty body
    let (yaml, body) = Item::split_frontmatter("---\na: 1\n---").unwrap();
    assert_eq!((yaml.as_str(), body.as_str()), ("a: 1", ""));
    // an unclosed front matter is an error
    assert!(Item::split_frontmatter("---\na: 1\nno end").is_none());
    assert!(Item::split_frontmatter("---\na: 1\n---x").is_none());
}

#[test]
fn frame_document_trims_trailing_space_of_yaml() {
    assert_eq!(Item::frame_document("a: 1\n\n", "b"), "---\na: 1\n---\nb");
}

#[test]
fn test_clean_title_formatting() {
    assert_eq!(dkb::item::Item::clean_title("# Heading One"), "Heading One");
    assert_eq!(dkb::item::Item::clean_title("### Subheading"), "Subheading");
    assert_eq!(dkb::item::Item::clean_title("**Bold Title**"), "Bold Title");
    assert_eq!(dkb::item::Item::clean_title("*Italic Title*"), "Italic Title");
    assert_eq!(dkb::item::Item::clean_title("`Code Title`"), "Code Title");
    assert_eq!(dkb::item::Item::clean_title("[Link Title](https://example.com)"), "Link Title");
    assert_eq!(dkb::item::Item::clean_title("~~Strikethrough~~"), "Strikethrough");
    assert_eq!(dkb::item::Item::clean_title("## **Complex** `Title` with [Link](url)"), "Complex Title with Link");
}

#[test]
fn clean_title_edge_cases() {
    assert_eq!(Item::clean_title(""), "");
    assert_eq!(Item::clean_title("  #  "), "");
    assert_eq!(Item::clean_title("[not a link] (x)"), "[not a link] (x)");
    assert_eq!(Item::clean_title("[open](no close"), "[open](no close");
    assert_eq!(Item::clean_title("a [**b**](c) d"), "a b d");
    assert_eq!(Item::clean_title("C# notes"), "C# notes");
}
