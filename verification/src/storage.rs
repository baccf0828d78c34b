//! Where items live: a folder per board column, one Markdown file per item.
use vstd::prelude::*;

use crate::ids::{id_text, uuid_text};
use crate::item::{Category, Status, Timestamp};
use crate::text::{chars_of, str_eq};

verus! {

broadcast use vstd::string::group_string_axioms;

/// A column of the board.
#[derive(Debug, Clone, Copy, PartialEq, Eq, Structural)]
pub enum Location {
    Backlog,
    Active(Category),
    Done,
}

/// Index of `s` after dropping trailing `c` characters.
pub open spec fn drop_trailing(s: Seq<char>, c: char, e: int) -> int
    decreases e,
{
    if e <= 0 {
        0
    } else if s[e - 1] == c {
        drop_trailing(s, c, e - 1)
    } else {
        e
    }
}

/// The location a folder path names, ignoring trailing slashes; unknown
/// paths name the backlog.
pub open spec fn location_from_path(path: Seq<char>) -> Location {
    let p = path.subrange(0, drop_trailing(path, '/', path.len() as int));
    if p == "backlog"@ {
        Location::Backlog
    } else if p == "done"@ {
        Location::Done
    } else if p == "active/yesterday"@ {
        Location::Active(Category::Yesterday)
    } else if p == "active/today"@ {
        Location::Active(Category::Today)
    } else if p == "active/this_week"@ {
        Location::Active(Category::ThisWeek)
    } else if p == "active/next_week"@ {
        Location::Active(Category::NextWeek)
    } else {
        Location::Backlog
    }
}

/// The location in column order: backlog, the four active columns, done.
pub open spec fn loc_at(i: int) -> Location {
    if i == 0 {
        Location::Backlog
    } else if i == 1 {
        Location::Active(Category::Yesterday)
    } else if i == 2 {
        Location::Active(Category::Today)
    } else if i == 3 {
        Location::Active(Category::ThisWeek)
    } else if i == 4 {
        Location::Active(Category::NextWeek)
    } else {
        Location::Done
    }
}

impl Location {
    /// The folder of the location, relative to the data directory.
    pub open spec fn path_of(self) -> Seq<char> {
        match self {
            Location::Backlog => "backlog"@,
            Location::Active(Category::Yesterday) => "active/yesterday"@,
            Location::Active(Category::Today) => "active/today"@,
            Location::Active(Category::ThisWeek) => "active/this_week"@,
            Location::Active(Category::NextWeek) => "active/next_week"@,
            Location::Done => "done"@,
        }
    }

    /// Position of the location in column order.
    pub open spec fn index(self) -> int {
        match self {
            Location::Backlog => 0,
            Location::Active(Category::Yesterday) => 1,
            Location::Active(Category::Today) => 2,
            Location::Active(Category::ThisWeek) => 3,
            Location::Active(Category::NextWeek) => 4,
            Location::Done => 5,
        }
    }

    pub open spec fn status_of(self) -> Status {
        match self {
            Location::Backlog => Status::Backlog,
            Location::Active(_) => Status::Active,
            Location::Done => Status::Done,
        }
    }

    /// The folder of the location, relative to the data directory.
    pub fn to_path(&self) -> (r: &'static str)
        ensures
            r@ == self.path_of(),
    {
        match self {
            Location::Backlog => "backlog",
            Location::Active(Category::Yesterday) => "active/yesterday",
            Location::Active(Category::Today) => "active/today",
            Location::Active(Category::ThisWeek) => "active/this_week",
            Location::Active(Category::NextWeek) => "active/next_week",
            Location::Done => "done",
        }
    }

    /// The location a folder path names (trailing slashes ignored); the
    /// backlog for any other path.
    pub fn from_path(path: &str) -> (r: Location)
        ensures
            r == location_from_path(path@),
    {
        let cs = chars_of(path);
        let mut e = cs.len();
        while e > 0 && cs[e - 1] == '/'
            invariant
                e <= cs@.len(),
                cs@ == path@,
                drop_trailing(path@, '/', path@.len() as int) == drop_trailing(
                    path@,
                    '/',
                    e as int,
                ),
            decreases e,
        {
            e = e - 1;
        }
        let p = path.substring_char(0, e);
        if str_eq(p, "backlog") {
            Location::Backlog
        } else if str_eq(p, "done") {
            Location::Done
        } else if str_eq(p, "active/yesterday") {
            Location::Active(Category::Yesterday)
        } else if str_eq(p, "active/today") {
            Location::Active(Category::Today)
        } else if str_eq(p, "active/this_week") {
            Location::Active(Category::ThisWeek)
        } else if str_eq(p, "active/next_week") {
            Location::Active(Category::NextWeek)
        } else {
            Location::Backlog
        }
    }

    /// Backlog, active or done.
    pub fn status(&self) -> (r: Status)
        ensures
            r == self.status_of(),
    {
        match self {
            Location::Backlog => Status::Backlog,
            Location::Active(_) => Status::Active,
            Location::Done => Status::Done,
        }
    }

    /// The time horizon of an active location.
    pub fn category(&self) -> (r: Option<Category>)
        ensures
            r == (match self {
                Location::Active(c) => Some(*c),
                _ => None,
            }),
    {
        match self {
            Location::Active(cat) => Some(*cat),
            _ => None,
        }
    }
}

/// The board's files under a data directory.
pub struct Storage;

/// What becomes of the completion time when an item moves: set to `now` when
/// it enters Done, cleared when it leaves Done, kept otherwise.
pub open spec fn completion_after_move(
    from: Status,
    to: Status,
    previous: Option<Timestamp>,
    now: Timestamp,
) -> Option<Timestamp> {
    if to == Status::Done {
        Some(now)
    } else if from == Status::Done {
        None
    } else {
        previous
    }
}

/// The file of an item, relative to the data directory.
pub open spec fn item_path_of(id: u128, location: Location) -> Seq<char> {
    location.path_of() + "/"@ + uuid_text(id) + ".md"@
}

impl Storage {
    /// The folders of the six columns, in column order.
    pub fn directories() -> (r: Vec<&'static str>)
        ensures
            r@.len() == 6,
            forall|i: int| 0 <= i < 6 ==> (#[trigger] r@[i])@ == loc_at(i).path_of(),
    {
        let mut r: Vec<&'static str> = Vec::new();
        r.push(Location::Backlog.to_path());
        r.push(Location::Active(Category::Yesterday).to_path());
        r.push(Location::Active(Category::Today).to_path());
        r.push(Location::Active(Category::ThisWeek).to_path());
        r.push(Location::Active(Category::NextWeek).to_path());
        r.push(Location::Done.to_path());
        r
    }

    /// The file of item `id` in `location`, relative to the data directory.
    pub fn item_path(id: u128, location: &Location) -> (r: String)
        ensures
            r@ == item_path_of(id, *location),
    {
        let mut r = String::from_str(location.to_path());
        r.append("/");
        let name = id_text(id);
        r.append(name.as_str());
        r.append(".md");
        r
    }

    /// The completion time of an item moved from `from` to `to` at `now`.
    pub fn completed_at_after_move(
        from: &Location,
        to: &Location,
        previous: Option<Timestamp>,
        now: Timestamp,
    ) -> (r: Option<Timestamp>)
        ensures
            r == completion_after_move(from.status_of(), to.status_of(), previous, now),
    {
        match to.status() {
            Status::Done => Some(now),
            _ => {
                if from.status() == Status::Done {
                    None
                } else {
                    previous
                }
            },
        }
    }
}

/// The completion time across a move: an item that enters Done is completed
/// at the moment of the move; one that leaves Done for any other column is no
/// longer completed; one that moves between columns other than Done keeps
/// what it had.
pub proof fn law_completion_on_move(
    from: Location,
    to: Location,
    previous: Option<Timestamp>,
    now: Timestamp,
)
    ensures
        to.status_of() == Status::Done ==> completion_after_move(
            from.status_of(),
            to.status_of(),
            previous,
            now,
        ) == Some(now),
        from.status_of() == Status::Done && to.status_of() != Status::Done
            ==> completion_after_move(from.status_of(), to.status_of(), previous, now) is None,
        from.status_of() != Status::Done && to.status_of() != Status::Done
            ==> completion_after_move(from.status_of(), to.status_of(), previous, now)
            == previous,
{
}

/// Every location reads back from its own folder path.
pub proof fn law_location_path_round_trip(l: Location)
    ensures
        location_from_path(l.path_of()) == l,
{
    reveal_strlit("backlog");
    reveal_strlit("done");
    reveal_strlit("active/yesterday");
    reveal_strlit("active/today");
    reveal_strlit("active/this_week");
    reveal_strlit("active/next_week");
    let p = l.path_of();
    let n = p.len() as int;
    assert(p[n - 1] != '/');
    assert(drop_trailing(p, '/', n) == n);
    assert(p.subrange(0, n) =~= p);
    assert("backlog"@.len() != "done"@.len());
    assert("backlog"@.len() != "active/today"@.len());
    assert("done"@.len() != "active/today"@.len());
    assert("active/yesterday"@.len() != "active/today"@.len());
    assert("active/today"@.len() != "active/this_week"@.len());
    assert("active/this_week"@[7] != "active/next_week"@[7]);
    assert("active/yesterday"@.len() == "active/next_week"@.len() ==> "active/yesterday"@[7]
        != "active/next_week"@[7]);
    assert("backlog"@.len() != "active/yesterday"@.len());
    assert("done"@.len() != "active/yesterday"@.len());
    assert("backlog"@.len() != "active/this_week"@.len());
    assert("done"@.len() != "active/this_week"@.len());
    assert("backlog"@.len() != "active/next_week"@.len());
    assert("done"@.len() != "active/next_week"@.len());
    assert("active/today"@.len() != "active/next_week"@.len());
    assert("active/yesterday"@[7] != "active/this_week"@[7]);
}

} // verus!
