//! How the command line names an item: the current one, an index into the
//! last listing, an index into a column, a file name, or a path.
use vstd::prelude::*;

use crate::board::{first_index, location_of, Board};
use crate::category::{category_of, parse_category};
use crate::cli_state::CliState;
use crate::ids::{parse_id, parse_uuid};
use crate::item::Category;
use crate::storage::Location;
use crate::text::{
    chars_of, find_char_exec, find_char_from, is_digit, parse_usize, parse_usize_of, to_lower,
    trim_bounds, trimmed,
};

verus! {

broadcast use vstd::string::group_string_axioms;

/// A way of naming an item.
#[derive(Debug)]
pub enum Selection {
    /// The current item.
    Current,
    /// An index into the last listing.
    Index(usize),
    /// An index into a column.
    CategoryIndex(Location, usize),
    /// An item file name (`<uuid>` or `<uuid>.md`).
    File(u128),
    /// A path to an item file.
    Path(String),
}

/// The abstract value of a `Selection`.
pub enum SelectionView {
    Current,
    Index(usize),
    CategoryIndex(Location, usize),
    File(u128),
    Path(Seq<char>),
}

impl View for Selection {
    type V = SelectionView;

    open spec fn view(&self) -> SelectionView {
        match self {
            Selection::Current => SelectionView::Current,
            Selection::Index(n) => SelectionView::Index(*n),
            Selection::CategoryIndex(l, n) => SelectionView::CategoryIndex(*l, *n),
            Selection::File(id) => SelectionView::File(*id),
            Selection::Path(p) => SelectionView::Path(p@),
        }
    }
}

/// Why a selection names no item on the board.
#[derive(Debug, Clone, Copy, PartialEq, Eq, Structural)]
pub enum SelectError {
    /// No current item is set.
    NoCurrent,
    /// The index is past the end of the last listing.
    IndexOutOfRange { index: usize, len: usize },
    /// The index is past the end of the column.
    CategoryIndexOutOfRange { location: Location, index: usize, len: usize },
    /// The item is not on the board.
    NotOnBoard(u128),
    /// The path has no file name.
    InvalidPath,
    /// The file name of the path is not a UUID.
    InvalidUuid,
}

/// `Path::file_stem`: the file name without its extension.
pub uninterp spec fn file_stem_of(path: Seq<char>) -> Option<Seq<char>>;

/// Calls `std::path::Path::file_stem`. Claimed: the result depends on the
/// path text alone (named by `file_stem_of`); a stem of a `str` path is
/// always text.
#[verifier::external_body]
fn path_file_stem(p: &str) -> (r: Option<String>)
    ensures
        match r {
            Some(s) => file_stem_of(p@) == Some(s@),
            None => file_stem_of(p@) is None,
        },
{
    match std::path::Path::new(p).file_stem() {
        Some(stem) => stem.to_str().map(|t| t.to_owned()),
        None => None,
    }
}

/// `s` without a trailing `.md`.
pub open spec fn strip_md(s: Seq<char>) -> Seq<char> {
    if s.len() >= 3 && s.subrange(s.len() - 3, s.len() as int) == ".md"@ {
        s.subrange(0, s.len() - 3)
    } else {
        s
    }
}

/// How an argument names an item. The argument is trimmed; empty means the
/// current item; `<column>/<n>` an index into a column; digits an index into
/// the last listing; a UUID (optionally with `.md`) a file; anything else a
/// path.
pub open spec fn selection_of(arg: Seq<char>) -> SelectionView {
    let t = trimmed(arg);
    let slash = find_char_from(t, '/', 0);
    if t.len() == 0 {
        SelectionView::Current
    } else if slash >= 0 && parse_usize_of(t.subrange(slash + 1, t.len() as int)) is Some
        && category_of(to_lower(t.subrange(0, slash))) is Some {
        SelectionView::CategoryIndex(
            category_of(to_lower(t.subrange(0, slash)))->0,
            parse_usize_of(t.subrange(slash + 1, t.len() as int))->0,
        )
    } else if parse_usize_of(t) is Some && (forall|i: int| 0 <= i < t.len() ==> is_digit(#[trigger] t[i])) {
        SelectionView::Index(parse_usize_of(t)->0)
    } else if parse_uuid(strip_md(t)) is Some {
        SelectionView::File(parse_uuid(strip_md(t))->0)
    } else {
        SelectionView::Path(t)
    }
}

/// Reads a selection from a command-line argument.
pub fn parse_selection(arg: &str) -> (r: Selection)
    ensures
        r@ == selection_of(arg@),
{
    let all = chars_of(arg);
    let (a, b) = trim_bounds(&all, 0, all.len());
    let trimmed_str = arg.substring_char(a, b);
    let cs = chars_of(trimmed_str);
    let n = cs.len();
    if n == 0 {
        return Selection::Current;
    }
    match find_char_exec(&cs, '/', 0) {
        Some(idx) => {
            match parse_usize(trimmed_str.substring_char(idx + 1, n)) {
                Some(k) => {
                    match parse_category(trimmed_str.substring_char(0, idx)) {
                        Some(loc) => {
                            return Selection::CategoryIndex(loc, k);
                        },
                        None => {},
                    }
                },
                None => {},
            }
        },
        None => {},
    }
    match parse_usize(trimmed_str) {
        Some(k) => {
            let mut all_digits = true;
            let mut i: usize = 0;
            while i < n
                invariant
                    i <= n,
                    n == cs@.len(),
                    all_digits == (forall|j: int| 0 <= j < i ==> is_digit(#[trigger] cs@[j])),
                decreases n - i,
            {
                if !('0' <= cs[i] && cs[i] <= '9') {
                    all_digits = false;
                }
                i = i + 1;
            }
            if all_digits {
                return Selection::Index(k);
            }
        },
        None => {},
    }
    let stripped = if n >= 3 && cs[n - 3] == '.' && cs[n - 2] == 'm' && cs[n - 1] == 'd' {
        proof {
            reveal_strlit(".md");
            assert(cs@.subrange(n - 3, n as int) =~= ".md"@);
        }
        trimmed_str.substring_char(0, n - 3)
    } else {
        proof {
            reveal_strlit(".md");
            if n >= 3 && cs@.subrange(n - 3, n as int) == ".md"@ {
                assert(cs@.subrange(n - 3, n as int)[0] == '.');
                assert(cs@.subrange(n - 3, n as int)[1] == 'm');
                assert(cs@.subrange(n - 3, n as int)[2] == 'd');
            }
        }
        trimmed_str.substring_char(0, n)
    };
    assert(n < 3 ==> stripped@ =~= cs@);
    assert(cs@.subrange(0, n as int) =~= cs@);
    match parse_id(stripped) {
        Some(id) => Selection::File(id),
        None => Selection::Path(trimmed_str.to_owned()),
    }
}

/// The folder-style name of a column used in messages.
pub fn loc_display(loc: Location) -> (r: &'static str)
    ensures
        r@ == (match loc {
            Location::Backlog => "backlog"@,
            Location::Active(Category::Yesterday) => "yesterday"@,
            Location::Active(Category::Today) => "today"@,
            Location::Active(Category::ThisWeek) => "this_week"@,
            Location::Active(Category::NextWeek) => "next_week"@,
            Location::Done => "done"@,
        }),
{
    match loc {
        Location::Backlog => "backlog",
        Location::Active(Category::Yesterday) => "yesterday",
        Location::Active(Category::Today) => "today",
        Location::Active(Category::ThisWeek) => "this_week",
        Location::Active(Category::NextWeek) => "next_week",
        Location::Done => "done",
    }
}

/// The item a selection names, or why it names none.
pub open spec fn resolved(
    sel: SelectionView,
    board: Seq<Seq<crate::item::Item>>,
    last_list: Seq<u128>,
    current: Option<u128>,
) -> Result<u128, SelectError> {
    match sel {
        SelectionView::Current => match current {
            Some(id) => Ok(id),
            None => Err(SelectError::NoCurrent),
        },
        SelectionView::Index(n) => if (n as int) < last_list.len() {
            Ok(last_list[n as int])
        } else {
            Err(SelectError::IndexOutOfRange { index: n, len: last_list.len() as usize })
        },
        SelectionView::CategoryIndex(loc, n) => {
            let col = board[loc.index()];
            if (n as int) < col.len() {
                Ok(col[n as int].id)
            } else {
                Err(
                    SelectError::CategoryIndexOutOfRange {
                        location: loc,
                        index: n,
                        len: col.len() as usize,
                    },
                )
            }
        },
        SelectionView::File(id) => if location_of(board, id) is Some {
            Ok(id)
        } else {
            Err(SelectError::NotOnBoard(id))
        },
        SelectionView::Path(p) => match file_stem_of(p) {
            None => Err(SelectError::InvalidPath),
            Some(stem) => match parse_uuid(stem) {
                None => Err(SelectError::InvalidUuid),
                Some(id) => if location_of(board, id) is Some {
                    Ok(id)
                } else {
                    Err(SelectError::NotOnBoard(id))
                },
            },
        },
    }
}

/// The item a selection names on `board`, given the command-line state.
pub fn resolve_selection(sel: &Selection, board: &Board, state: &CliState, _data_dir: &str) -> (r:
    Result<u128, SelectError>)
    ensures
        r == resolved(sel@, board@, state.last_list@, state.current),
{
    match sel {
        Selection::Current => match state.current {
            Some(id) => Ok(id),
            None => Err(SelectError::NoCurrent),
        },
        Selection::Index(n) => match state.resolve_index(*n) {
            Some(id) => Ok(id),
            None => Err(SelectError::IndexOutOfRange { index: *n, len: state.last_list.len() }),
        },
        Selection::CategoryIndex(loc, n) => {
            let ids = crate::listing::collect_items(board, loc);
            if *n < ids.len() {
                Ok(ids[*n].id)
            } else {
                Err(
                    SelectError::CategoryIndexOutOfRange {
                        location: *loc,
                        index: *n,
                        len: ids.len(),
                    },
                )
            }
        },
        Selection::File(id) => {
            if board.find_item(id).is_some() {
                Ok(*id)
            } else {
                Err(SelectError::NotOnBoard(*id))
            }
        },
        Selection::Path(p) => {
            match path_file_stem(p.as_str()) {
                None => Err(SelectError::InvalidPath),
                Some(stem) => match parse_id(stem.as_str()) {
                    None => Err(SelectError::InvalidUuid),
                    Some(id) => {
                        if board.find_item(&id).is_some() {
                            Ok(id)
                        } else {
                            Err(SelectError::NotOnBoard(id))
                        }
                    },
                },
            }
        },
    }
}

} // verus!
