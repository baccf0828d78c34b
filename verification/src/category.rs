//! Names of board columns accepted on the command line.
use vstd::prelude::*;

use crate::item::Category;
use crate::storage::Location;
use crate::text::{lowercase, str_eq, to_lower};

verus! {

broadcast use vstd::string::group_string_axioms;

/// The column a (lower-cased) name or alias stands for.
pub open spec fn category_of(lower: Seq<char>) -> Option<Location> {
    if lower == "b"@ || lower == "backlog"@ {
        Some(Location::Backlog)
    } else if lower == "y"@ || lower == "yesterday"@ {
        Some(Location::Active(Category::Yesterday))
    } else if lower == "t"@ || lower == "today"@ {
        Some(Location::Active(Category::Today))
    } else if lower == "tw"@ || lower == "thisweek"@ || lower == "this_week"@ {
        Some(Location::Active(Category::ThisWeek))
    } else if lower == "nw"@ || lower == "nextweek"@ || lower == "next_week"@ {
        Some(Location::Active(Category::NextWeek))
    } else if lower == "d"@ || lower == "done"@ {
        Some(Location::Done)
    } else {
        None
    }
}

/// The column named by `s`, in any letter case: a short alias (`b`, `y`, `t`,
/// `tw`, `nw`, `d`) or the full name, with or without an underscore.
pub fn parse_category(s: &str) -> (r: Option<Location>)
    ensures
        r == category_of(to_lower(s@)),
{
    let lower = lowercase(s);
    let l = lower.as_str();
    if str_eq(l, "b") || str_eq(l, "backlog") {
        Some(Location::Backlog)
    } else if str_eq(l, "y") || str_eq(l, "yesterday") {
        Some(Location::Active(Category::Yesterday))
    } else if str_eq(l, "t") || str_eq(l, "today") {
        Some(Location::Active(Category::Today))
    } else if str_eq(l, "tw") || str_eq(l, "thisweek") || str_eq(l, "this_week") {
        Some(Location::Active(Category::ThisWeek))
    } else if str_eq(l, "nw") || str_eq(l, "nextweek") || str_eq(l, "next_week") {
        Some(Location::Active(Category::NextWeek))
    } else if str_eq(l, "d") || str_eq(l, "done") {
        Some(Location::Done)
    } else {
        None
    }
}

} // verus!
