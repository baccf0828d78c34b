use dkb::editor::{save_plan, SavePlan};
use dkb::item::Category;
use dkb::storage::Location;

#[test]
fn saving_needs_a_title() {
    assert_eq!(save_plan("", false, Some(1), &vec![true; 6]), SavePlan::Skip);
    assert_eq!(save_plan(" \n\t\n", true, None, &vec![]), SavePlan::Skip);
}

#[test]
fn saving_a_new_item_creates_it() {
    assert_eq!(save_plan("Title", true, Some(1), &vec![]), SavePlan::Create);
}

#[test]
fn saving_an_existing_item_finds_its_column() {
    let present = vec![false, false, false, false, false, true];
    assert_eq!(
        save_plan("T", false, Some(9), &present),
        SavePlan::Overwrite { id: 9, location: Location::Done, completed: true }
    );
    let present = vec![false, true, false, false, false, true];
    assert_eq!(
        save_plan("T", false, Some(9), &present),
        SavePlan::Overwrite { id: 9, location: Location::Active(Category::Yesterday), completed: false }
    );
    assert_eq!(
        save_plan("T", false, Some(9), &vec![false; 6]),
        SavePlan::Overwrite { id: 9, location: Location::Active(Category::Today), completed: false }
    );
    assert_eq!(save_plan("T", false, None, &vec![false; 6]), SavePlan::Nothing);
}
