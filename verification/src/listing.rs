//! The command-line listing of items and the checks used when creating items.
use vstd::prelude::*;

use crate::board::Board;
use crate::item::{now, title_of, Category, Item};
use crate::storage::Location;
use crate::terminal::{format_list_line, list_line, sat_sub};
use crate::text::{chars_of, decimal, decimal_string, str_eq, trim_bounds, trimmed};

verus! {

broadcast use vstd::string::group_string_axioms;

/// The four active columns, in board order.
pub fn active_locations() -> (r: [Location; 4])
    ensures
        r@ == seq![
            Location::Active(Category::Yesterday),
            Location::Active(Category::Today),
            Location::Active(Category::ThisWeek),
            Location::Active(Category::NextWeek),
        ],
{
    let r = [
        Location::Active(Category::Yesterday),
        Location::Active(Category::Today),
        Location::Active(Category::ThisWeek),
        Location::Active(Category::NextWeek),
    ];
    assert(r@ =~= seq![
        Location::Active(Category::Yesterday),
        Location::Active(Category::Today),
        Location::Active(Category::ThisWeek),
        Location::Active(Category::NextWeek),
    ]);
    r
}

/// A copy of the items of a column.
pub fn collect_items(board: &Board, loc: &Location) -> (r: Vec<Item>)
    ensures
        r@ == board@[loc.index()],
{
    let b = board.clone();
    match loc {
        Location::Backlog => b.backlog,
        Location::Active(Category::Yesterday) => b.active.yesterday,
        Location::Active(Category::Today) => b.active.today,
        Location::Active(Category::ThisWeek) => b.active.this_week,
        Location::Active(Category::NextWeek) => b.active.next_week,
        Location::Done => b.done,
    }
}

/// The lines of a listing: each item's index, a marker for the current item,
/// and its title; the index column is as wide as the largest index.
pub open spec fn listing_lines(items: Seq<Item>, current: Option<u128>, width: int) -> Seq<
    Seq<char>,
> {
    let w = decimal(sat_sub(items.len() as int, 1) as nat).len() as int;
    Seq::new(
        items.len(),
        |i: int|
            list_line(i as nat, current == Some(items[i].id), title_of(items[i].body@), w, width),
    )
}

/// Lines joined with newlines.
pub open spec fn join_lines(lines: Seq<Seq<char>>) -> Seq<char>
    decreases lines.len(),
{
    if lines.len() == 0 {
        Seq::empty()
    } else if lines.len() == 1 {
        lines[0]
    } else {
        join_lines(lines.drop_last()) + "\n"@ + lines.last()
    }
}

/// The listing of `items` for a terminal `width` characters wide.
pub fn render_list(items: &Vec<Item>, current: Option<u128>, width: usize) -> (r: String)
    ensures
        r@ == join_lines(listing_lines(items@, current, width as int)),
{
    let max_index = if items.len() > 0 {
        items.len() - 1
    } else {
        0
    };
    let digits = decimal_string(max_index);
    let index_col_width = chars_of(digits.as_str()).len();
    let ghost lines = listing_lines(items@, current, width as int);
    let mut out = String::new();
    let mut i: usize = 0;
    while i < items.len()
        invariant
            i <= items@.len(),
            index_col_width == decimal(sat_sub(items@.len() as int, 1) as nat).len(),
            lines == listing_lines(items@, current, width as int),
            out@ == join_lines(lines.take(i as int)),
        decreases items@.len() - i,
    {
        let item = &items[i];
        let is_current = match current {
            Some(c) => c == item.id,
            None => false,
        };
        let title = item.title();
        let line = format_list_line(i, is_current, title.as_str(), index_col_width, width);
        assert(lines.take(i as int + 1).drop_last() =~= lines.take(i as int));
        if i > 0 {
            out.append("\n");
        }
        out.append(line.as_str());
        proof {
            if i == 0 {
                assert(out@ =~= join_lines(lines.take(1)));
            }
        }
        i = i + 1;
    }
    assert(lines.take(i as int) =~= lines);
    out
}

/// A body counts as empty when, trimmed, it is nothing or a lone `#`.
pub open spec fn empty_body(body: Seq<char>) -> bool {
    trimmed(body).len() == 0 || trimmed(body) == "#"@
}

/// Whether an edited body is empty (blank, or only a heading marker).
pub fn is_empty_body(body: &str) -> (r: bool)
    ensures
        r == empty_body(body@),
{
    let cs = chars_of(body);
    let (a, b) = trim_bounds(&cs, 0, cs.len());
    let t = body.substring_char(a, b);
    a == b || str_eq(t, "#")
}

/// A new item with the given identifier and body, created and updated now.
pub fn build_item_from_body(id: u128, body: &str) -> (r: Item)
    ensures
        r.id == id,
        r.body@ == body@,
        r.created_at == r.updated_at,
        r.completed_at is None,
{
    let t = now();
    Item { id, body: body.to_owned(), created_at: t, updated_at: t, completed_at: None }
}

} // verus!
