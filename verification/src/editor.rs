//! What saving the item editor does: the decision taken from the editor's
//! state, before anything is written.
use vstd::prelude::*;

use crate::item::{Category, Item};
use crate::storage::{loc_at, Location};

verus! {

/// What a save writes.
#[derive(Debug, Clone, Copy, PartialEq, Eq, Structural)]
pub enum SavePlan {
    /// The text has no title line: nothing is saved and nothing announced.
    Skip,
    /// A new item is created in Today from the text.
    Create,
    /// The edited item is written back in `location`, its completion time
    /// set exactly when that location is Done.
    Overwrite { id: u128, location: Location, completed: bool },
    /// No item is being edited: nothing is written, the save is announced.
    Nothing,
}

/// Index of the first column whose folder holds the item file, or 6.
pub open spec fn first_present(present: Seq<bool>, i: int) -> int
    decreases 6 - i,
{
    if i < 0 || i >= 6 || i >= present.len() {
        6
    } else if present[i] {
        i
    } else {
        first_present(present, i + 1)
    }
}

/// The column an edited item is written back to: the first (in column order)
/// whose folder holds its file, else Today.
pub open spec fn save_location(present: Seq<bool>) -> Location {
    let k = first_present(present, 0);
    if k < 6 {
        loc_at(k)
    } else {
        Location::Active(Category::Today)
    }
}

/// The save decision for the editor's text.
pub open spec fn plan_of(title: Seq<char>, is_new: bool, editing: Option<u128>, present: Seq<bool>) -> SavePlan {
    if title.len() == 0 {
        SavePlan::Skip
    } else if is_new {
        SavePlan::Create
    } else {
        match editing {
            Some(id) => SavePlan::Overwrite {
                id,
                location: save_location(present),
                completed: save_location(present) == Location::Done,
            },
            None => SavePlan::Nothing,
        }
    }
}

/// Decides what saving the editor does: `content` is the editor's text,
/// `is_new` tells whether no file exists for it yet, `editing` is the item
/// being edited, and `present[i]` tells whether the folder of column `i`
/// (in column order) holds that item's file.
pub fn save_plan(content: &str, is_new: bool, editing: Option<u128>, present: &Vec<bool>) -> (r:
    SavePlan)
    ensures
        r == plan_of(crate::item::title_of(content@), is_new, editing, present@),
{
    let title = Item::extract_title(content);
    if title.as_str().unicode_len() == 0 {
        return SavePlan::Skip;
    }
    if is_new {
        return SavePlan::Create;
    }
    match editing {
        Some(id) => {
            let mut k: usize = 0;
            while k < 6 && k < present.len() && !present[k]
                invariant
                    k <= 6,
                    first_present(present@, 0) == first_present(present@, k as int),
                decreases 6 - k,
            {
                k = k + 1;
            }
            let location = if k < 6 && k < present.len() {
                column_at(k)
            } else {
                Location::Active(Category::Today)
            };
            let completed = match location {
                Location::Done => true,
                _ => false,
            };
            SavePlan::Overwrite { id, location, completed }
        },
        None => SavePlan::Nothing,
    }
}

/// The column at index `k` in column order.
fn column_at(k: usize) -> (r: Location)
    requires
        k < 6,
    ensures
        r == loc_at(k as int),
{
    if k == 0 {
        Location::Backlog
    } else if k == 1 {
        Location::Active(Category::Yesterday)
    } else if k == 2 {
        Location::Active(Category::Today)
    } else if k == 3 {
        Location::Active(Category::ThisWeek)
    } else if k == 4 {
        Location::Active(Category::NextWeek)
    } else {
        Location::Done
    }
}

proof fn lemma_first_present(present: Seq<bool>, k: int, i: int)
    requires
        0 <= k <= i < 6,
        i < present.len(),
        present[i],
        forall|j: int| 0 <= j < i ==> !present[j],
    ensures
        first_present(present, k) == i,
    decreases i - k,
{
    if k < i {
        lemma_first_present(present, k + 1, i);
    }
}

proof fn lemma_none_present(present: Seq<bool>, k: int)
    requires
        0 <= k,
        forall|j: int| 0 <= j < 6 && j < present.len() ==> !present[j],
    ensures
        first_present(present, k) == 6,
    decreases 6 - k,
{
    if k < 6 && k < present.len() {
        lemma_none_present(present, k + 1);
    }
}

/// Saving an existing item writes it back to the first column, in the order
/// Backlog, Yesterday, Today, This week, Next week, Done, whose folder holds
/// its file, and marks it completed exactly when that column is Done.
pub proof fn law_save_in_place(title: Seq<char>, id: u128, present: Seq<bool>, i: int)
    requires
        title.len() > 0,
        0 <= i < 6,
        i < present.len(),
        present[i],
        forall|j: int| 0 <= j < i ==> !present[j],
    ensures
        plan_of(title, false, Some(id), present) == (SavePlan::Overwrite {
            id,
            location: seq![
                Location::Backlog,
                Location::Active(Category::Yesterday),
                Location::Active(Category::Today),
                Location::Active(Category::ThisWeek),
                Location::Active(Category::NextWeek),
                Location::Done,
            ][i],
            completed: i == 5,
        }),
{
    lemma_first_present(present, 0, i);
}

/// Saving an existing item whose file no column holds writes it to Today,
/// not completed.
pub proof fn law_save_unfound_to_today(title: Seq<char>, id: u128, present: Seq<bool>)
    requires
        title.len() > 0,
        forall|j: int| 0 <= j < 6 && j < present.len() ==> !present[j],
    ensures
        plan_of(title, false, Some(id), present) == (SavePlan::Overwrite {
            id,
            location: Location::Active(Category::Today),
            completed: false,
        }),
{
    lemma_none_present(present, 0);
}

} // verus!
