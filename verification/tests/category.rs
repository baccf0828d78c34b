use dkb::category::parse_category;
use dkb::item::Category;
use dkb::storage::Location;

#[test]
fn test_short_aliases() {
    assert_eq!(parse_category("b"), Some(Location::Backlog));
    assert_eq!(parse_category("y"), Some(Location::Active(Category::Yesterday)));
    assert_eq!(parse_category("t"), Some(Location::Active(Category::Today)));
    assert_eq!(parse_category("tw"), Some(Location::Active(Category::ThisWeek)));
    assert_eq!(parse_category("nw"), Some(Location::Active(Category::NextWeek)));
    assert_eq!(parse_category("d"), Some(Location::Done));
}

#[test]
fn test_long_aliases() {
    assert_eq!(parse_category("backlog"), Some(Location::Backlog));
    assert_eq!(parse_category("yesterday"), Some(Location::Active(Category::Yesterday)));
    assert_eq!(parse_category("today"), Some(Location::Active(Category::Today)));
    assert_eq!(parse_category("thisweek"), Some(Location::Active(Category::ThisWeek)));
    assert_eq!(parse_category("nextweek"), Some(Location::Active(Category::NextWeek)));
    assert_eq!(parse_category("done"), Some(Location::Done));
}

#[test]
fn test_underscored_forms() {
    assert_eq!(parse_category("this_week"), Some(Location::Active(Category::ThisWeek)));
    assert_eq!(parse_category("next_week"), Some(Location::Active(Category::NextWeek)));
}

#[test]
fn test_case_insensitive() {
    assert_eq!(parse_category("TODAY"), Some(Location::Active(Category::Today)));
    assert_eq!(parse_category("Done"), Some(Location::Done));
}

#[test]
fn test_unknown() {
    assert_eq!(parse_category("tomorrow"), None);
    assert_eq!(parse_category(""), None);
}

#[test]
fn category_mixed_case_underscore() {
    assert_eq!(parse_category("This_Week"), Some(Location::Active(Category::ThisWeek)));
    assert_eq!(parse_category("NW"), Some(Location::Active(Category::NextWeek)));
    assert_eq!(parse_category(" today"), None);
}
