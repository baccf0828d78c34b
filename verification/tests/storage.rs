use dkb::item::{Category, Status, Timestamp};
use dkb::storage::{Location, Storage};
use std::path::PathBuf;

#[test]
fn test_location_to_path_backlog() {
    let loc = Location::Backlog;
    assert_eq!(PathBuf::from(loc.to_path()), PathBuf::from("backlog"));
    assert_eq!(loc.status(), Status::Backlog);
    assert!(loc.category().is_none());
}

#[test]
fn test_location_to_path_active_today() {
    let loc = Location::Active(Category::Today);
    assert_eq!(PathBuf::from(loc.to_path()), PathBuf::from("active/today"));
    assert_eq!(loc.status(), Status::Active);
    assert_eq!(loc.category(), Some(Category::Today));
}

#[test]
fn test_location_to_path_done() {
    let loc = Location::Done;
    assert_eq!(PathBuf::from(loc.to_path()), PathBuf::from("done"));
    assert_eq!(loc.status(), Status::Done);
    assert!(loc.category().is_none());
}

#[test]
fn test_location_from_path() {
    assert_eq!(Location::from_path("backlog"), Location::Backlog);
    assert_eq!(Location::from_path("active/yesterday"), Location::Active(Category::Yesterday));
    assert_eq!(Location::from_path("active/today"), Location::Active(Category::Today));
    assert_eq!(Location::from_path("active/this_week"), Location::Active(Category::ThisWeek));
    assert_eq!(Location::from_path("active/next_week"), Location::Active(Category::NextWeek));
    assert_eq!(Location::from_path("done"), Location::Done);
}

#[test]
fn location_paths_read_back() {
    let all = [
        Location::Backlog,
        Location::Active(Category::Yesterday),
        Location::Active(Category::Today),
        Location::Active(Category::ThisWeek),
        Location::Active(Category::NextWeek),
        Location::Done,
    ];
    for loc in all {
        assert_eq!(Location::from_path(loc.to_path()), loc);
    }
    assert_eq!(Location::from_path("done//"), Location::Done);
    assert_eq!(Location::from_path("elsewhere"), Location::Backlog);
}

#[test]
fn storage_directories_and_item_paths() {
    assert_eq!(
        Storage::directories(),
        vec!["backlog", "active/yesterday", "active/today", "active/this_week", "active/next_week", "done"]
    );
    let id = 0x0123_4567_89ab_cdef_0123_4567_89ab_cdefu128;
    assert_eq!(
        Storage::item_path(id, &Location::Done),
        "done/01234567-89ab-cdef-0123-456789abcdef.md"
    );
}

#[test]
fn completion_time_after_a_move() {
    let now = Timestamp { secs: 100, nanos: 5 };
    let before = Some(Timestamp { secs: 7, nanos: 0 });
    let today = Location::Active(Category::Today);
    assert_eq!(Storage::completed_at_after_move(&today, &Location::Done, None, now), Some(now));
    assert_eq!(Storage::completed_at_after_move(&Location::Done, &today, before, now), None);
    assert_eq!(Storage::completed_at_after_move(&Location::Backlog, &today, before, now), before);
    assert_eq!(Storage::completed_at_after_move(&Location::Done, &Location::Done, before, now), Some(now));
}
