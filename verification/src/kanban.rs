//! The board window's decisions: which items a screen shows, how the
//! selection steps through them, where keyboard moves and quick additions go.
use vstd::prelude::*;

use crate::board::{ids_of, Board};
use crate::commands::item_ids;
use crate::item::{Category, Item, Status};
use crate::listing::collect_items;
use crate::storage::Location;
use crate::text::{chars_of, trim_bounds, trimmed};

verus! {

broadcast use vstd::string::group_string_axioms;

/// The screens of the board window.
#[derive(Debug, Clone, Copy, PartialEq, Eq, Structural)]
pub enum Screen {
    Backlog,
    Active,
    Done,
    Settings,
}

/// The items a screen shows: the backlog, the four active columns one after
/// the other, done, or none on the settings screen.
pub open spec fn screen_items_of(board: Seq<Seq<Item>>, screen: Screen) -> Seq<Item> {
    match screen {
        Screen::Backlog => board[0],
        Screen::Active => board[1] + board[2] + board[3] + board[4],
        Screen::Done => board[5],
        Screen::Settings => Seq::empty(),
    }
}

/// The identifiers of the items a screen shows, in order.
pub fn screen_items(board: &Board, screen: Screen) -> (r: Vec<u128>)
    ensures
        r@ == ids_of(screen_items_of(board@, screen)),
{
    let items = match screen {
        Screen::Backlog => collect_items(board, &Location::Backlog),
        Screen::Active => crate::commands::list_items(board, None),
        Screen::Done => collect_items(board, &Location::Done),
        Screen::Settings => Vec::new(),
    };
    proof {
        if screen == Screen::Settings {
            assert(items@ =~= Seq::<Item>::empty());
        }
    }
    item_ids(&items)
}

/// Index of the first `id` in `items`, or -1.
pub open spec fn index_in(items: Seq<u128>, id: u128) -> int
    decreases items.len(),
{
    if items.len() == 0 {
        -1
    } else if index_in(items.drop_last(), id) >= 0 {
        index_in(items.drop_last(), id)
    } else if items.last() == id {
        items.len() - 1
    } else {
        -1
    }
}

proof fn lemma_index_in(items: Seq<u128>, id: u128)
    ensures
        -1 <= index_in(items, id) < items.len(),
        index_in(items, id) >= 0 ==> items[index_in(items, id)] == id,
        index_in(items, id) >= 0 ==> forall|j: int| 0 <= j < index_in(items, id) ==> items[j] != id,
        index_in(items, id) < 0 ==> forall|j: int| 0 <= j < items.len() ==> items[j] != id,
    decreases items.len(),
{
    if items.len() > 0 {
        lemma_index_in(items.drop_last(), id);
        assert(forall|j: int| 0 <= j < items.len() - 1 ==> items.drop_last()[j] == items[j]);
    }
}

/// The position of `id` in `items`.
fn position_of(items: &Vec<u128>, id: u128) -> (r: Option<usize>)
    ensures
        match r {
            Some(i) => i as int == index_in(items@, id) && i < items@.len(),
            None => index_in(items@, id) < 0,
        },
{
    proof {
        lemma_index_in(items@, id);
    }
    let mut i: usize = 0;
    while i < items.len()
        invariant
            i <= items@.len(),
            forall|j: int| 0 <= j < i ==> items@[j] != id,
            -1 <= index_in(items@, id) < items@.len(),
            index_in(items@, id) >= 0 ==> items@[index_in(items@, id)] == id,
            index_in(items@, id) >= 0 ==> forall|j: int|
                0 <= j < index_in(items@, id) ==> items@[j] != id,
            index_in(items@, id) < 0 ==> forall|j: int| 0 <= j < items@.len() ==> items@[j] != id,
        decreases items@.len() - i,
    {
        if items[i] == id {
            return Some(i);
        }
        i = i + 1;
    }
    None
}

/// The item selected after "next": the first one without a selection (or
/// when the selection is not shown), else the one after it, wrapping
/// around; `None` when nothing is shown.
pub open spec fn next_of(items: Seq<u128>, selected: Option<u128>) -> Option<u128> {
    if items.len() == 0 {
        None
    } else {
        match selected {
            None => Some(items[0]),
            Some(cur) => {
                let i = index_in(items, cur);
                if i < 0 {
                    Some(items[0])
                } else {
                    Some(items[(i + 1) % (items.len() as int)])
                }
            },
        }
    }
}

/// The item selected after "previous": the last one without a selection (or
/// when the selection is not shown), else the one before it, wrapping
/// around; `None` when nothing is shown.
pub open spec fn prev_of(items: Seq<u128>, selected: Option<u128>) -> Option<u128> {
    if items.len() == 0 {
        None
    } else {
        match selected {
            None => Some(items[items.len() - 1]),
            Some(cur) => {
                let i = index_in(items, cur);
                if i < 0 {
                    Some(items[items.len() - 1])
                } else {
                    Some(items[(i + items.len() - 1) % (items.len() as int)])
                }
            },
        }
    }
}

/// The selection after "next item"; `None` leaves it as it is.
pub fn next_item(items: &Vec<u128>, selected: Option<u128>) -> (r: Option<u128>)
    ensures
        r == next_of(items@, selected),
{
    let n = items.len();
    if n == 0 {
        return None;
    }
    match selected {
        None => Some(items[0]),
        Some(cur) => match position_of(items, cur) {
            None => Some(items[0]),
            Some(i) => {
                let j = if i + 1 == n {
                    0
                } else {
                    i + 1
                };
                assert(j as int == (i + 1) % (n as int)) by (nonlinear_arith)
                    requires
                        i < n,
                        j == (if i + 1 == n {
                            0
                        } else {
                            i + 1
                        }),
                ;
                Some(items[j])
            },
        },
    }
}

/// The selection after "previous item"; `None` leaves it as it is.
pub fn prev_item(items: &Vec<u128>, selected: Option<u128>) -> (r: Option<u128>)
    ensures
        r == prev_of(items@, selected),
{
    let n = items.len();
    if n == 0 {
        return None;
    }
    match selected {
        None => Some(items[n - 1]),
        Some(cur) => match position_of(items, cur) {
            None => Some(items[n - 1]),
            Some(i) => {
                let j = if i == 0 {
                    n - 1
                } else {
                    i - 1
                };
                assert(j as int == (i + n - 1) % (n as int)) by (nonlinear_arith)
                    requires
                        i < n,
                        j == (if i == 0 {
                            n - 1
                        } else {
                            i - 1
                        }),
                ;
                Some(items[j])
            },
        },
    }
}

/// Where "toggle done" sends an item: active items to done, done items to
/// today; backlog items stay.
pub open spec fn toggle_target_of(from: Location) -> Option<Location> {
    match from.status_of() {
        Status::Active => Some(Location::Done),
        Status::Done => Some(Location::Active(Category::Today)),
        Status::Backlog => None,
    }
}

/// Where "toggle done" sends an item in `from`.
pub fn toggle_done_target(from: &Location) -> (r: Option<Location>)
    ensures
        r == toggle_target_of(*from),
{
    match from.status() {
        Status::Active => Some(Location::Done),
        Status::Done => Some(Location::Active(Category::Today)),
        Status::Backlog => None,
    }
}

/// The column a quick addition goes to: today on the active screen, the
/// backlog on the others.
pub open spec fn quick_add_location_of(screen: Screen) -> Location {
    match screen {
        Screen::Active => Location::Active(Category::Today),
        _ => Location::Backlog,
    }
}

/// The column a quick addition on `screen` goes to.
pub fn quick_add_location(screen: Screen) -> (r: Location)
    ensures
        r == quick_add_location_of(screen),
{
    match screen {
        Screen::Active => Location::Active(Category::Today),
        _ => Location::Backlog,
    }
}

/// The title of a quick addition: the typed text trimmed, or `None` (no
/// item) when that is empty.
pub fn quick_add_title(text: &str) -> (r: Option<String>)
    ensures
        trimmed(text@).len() == 0 ==> r is None,
        trimmed(text@).len() > 0 ==> (r matches Some(t) && t@ == trimmed(text@)),
{
    let cs = chars_of(text);
    let (a, b) = trim_bounds(&cs, 0, cs.len());
    if a == b {
        None
    } else {
        Some(text.substring_char(a, b).to_owned())
    }
}

/// "Next" then "previous" comes back to the selected item, when the shown
/// items are all different and the selection is among them.
pub proof fn law_next_then_prev(items: Seq<u128>, cur: u128)
    requires
        items.no_duplicates(),
        items.contains(cur),
    ensures
        prev_of(items, next_of(items, Some(cur))) == Some(cur),
        next_of(items, prev_of(items, Some(cur))) == Some(cur),
{
    let n = items.len() as int;
    lemma_index_in(items, cur);
    let i = index_in(items, cur);
    assert(i >= 0) by {
        let k = choose|k: int| 0 <= k < n && items[k] == cur;
        assert(items[k] == cur);
    }
    let j = (i + 1) % n;
    lemma_index_in(items, items[j]);
    assert(index_in(items, items[j]) == j) by {
        let q = index_in(items, items[j]);
        if q != j {
            assert(items[q] == items[j]);
        }
    }
    assert((j + n - 1) % n == i) by (nonlinear_arith)
        requires
            0 <= i < n,
            j == (i + 1) % n,
    ;
    let p = (i + n - 1) % n;
    assert(0 <= p < n) by (nonlinear_arith)
        requires
            0 <= i < n,
            p == (i + n - 1) % n,
    ;
    lemma_index_in(items, items[p]);
    assert(index_in(items, items[p]) == p) by {
        let q = index_in(items, items[p]);
        if q != p {
            assert(items[q] == items[p]);
        }
    }
    assert((p + 1) % n == i) by (nonlinear_arith)
        requires
            0 <= i < n,
            p == (i + n - 1) % n,
    ;
}

} // verus!
