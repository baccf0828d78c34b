//! The decisions of the `dk` command line: which command the arguments ask
//! for, which item a command acts on, what a listing shows, and how the
//! editor and the pager are started.
use vstd::prelude::*;

use crate::board::{ids_of, Board};
use crate::category::{category_of, parse_category};
use crate::cli_state::CliState;
use crate::item::{Category, Item};
use crate::listing::collect_items;
use crate::selection::{parse_selection, resolve_selection, resolved, selection_of, SelectError};
use crate::config::{join_path, joined};
use crate::storage::{item_path_of, Location, Storage};
use crate::text::{chars_of, is_white, skip_white, str_eq, to_lower};

verus! {

broadcast use vstd::string::group_string_axioms;

/// The item a command acts on: the current one without an argument, else
/// the one the argument selects.
pub open spec fn target_of(
    arg: Option<Seq<char>>,
    board: Seq<Seq<Item>>,
    last_list: Seq<u128>,
    current: Option<u128>,
) -> Result<u128, SelectError> {
    match arg {
        None => match current {
            Some(id) => Ok(id),
            None => Err(SelectError::NoCurrent),
        },
        Some(a) => resolved(selection_of(a), board, last_list, current),
    }
}

/// The item a command acts on (`show`, `path`, `edit`, `delete`): the
/// current item when no argument is given, else the item the argument
/// selects.
pub fn command_target(arg: Option<&str>, board: &Board, state: &CliState, data_dir: &str) -> (r:
    Result<u128, SelectError>)
    ensures
        r == target_of(
            match arg {
                Some(a) => Some(a@),
                None => None,
            },
            board@,
            state.last_list@,
            state.current,
        ),
{
    match arg {
        None => match state.current {
            Some(id) => Ok(id),
            None => Err(SelectError::NoCurrent),
        },
        Some(a) => {
            let sel = parse_selection(a);
            resolve_selection(&sel, board, state, data_dir)
        },
    }
}

/// The items `dk list` shows: those of one column, or those of the four
/// active columns one after the other.
pub open spec fn listed_items(board: Seq<Seq<Item>>, loc: Option<Location>) -> Seq<Item> {
    match loc {
        Some(l) => board[l.index()],
        None => board[1] + board[2] + board[3] + board[4],
    }
}

/// The items `dk list` shows, in order.
pub fn list_items(board: &Board, loc: Option<Location>) -> (r: Vec<Item>)
    ensures
        r@ == listed_items(board@, loc),
{
    match loc {
        Some(l) => collect_items(board, &l),
        None => {
            let mut items = collect_items(board, &Location::Active(Category::Yesterday));
            let mut today = collect_items(board, &Location::Active(Category::Today));
            let mut this_week = collect_items(board, &Location::Active(Category::ThisWeek));
            let mut next_week = collect_items(board, &Location::Active(Category::NextWeek));
            items.append(&mut today);
            items.append(&mut this_week);
            items.append(&mut next_week);
            items
        },
    }
}

/// The identifiers of listed items, which `dk list` stores for later
/// selection by index.
pub fn item_ids(items: &Vec<Item>) -> (r: Vec<u128>)
    ensures
        r@ == ids_of(items@),
{
    let mut r: Vec<u128> = Vec::new();
    let mut i: usize = 0;
    while i < items.len()
        invariant
            i <= items@.len(),
            r@ == ids_of(items@.take(i as int)),
        decreases items@.len() - i,
    {
        r.push(items[i].id);
        proof {
            assert(ids_of(items@.take(i + 1)) =~= ids_of(items@.take(i as int)).push(items@[i as int].id));
        }
        i = i + 1;
    }
    assert(items@.take(items@.len() as int) =~= items@);
    r
}

/// The column `dk new` creates an item in: the named one, else the backlog.
pub open spec fn new_location_of(arg: Option<Seq<char>>) -> Location {
    match arg {
        Some(a) => match category_of(to_lower(a)) {
            Some(l) => l,
            None => Location::Backlog,
        },
        None => Location::Backlog,
    }
}

/// The column `dk new` creates an item in.
pub fn new_item_location(arg: Option<&str>) -> (r: Location)
    ensures
        r == new_location_of(
            match arg {
                Some(a) => Some(a@),
                None => None,
            },
        ),
{
    match arg {
        Some(a) => match parse_category(a) {
            Some(l) => l,
            None => Location::Backlog,
        },
        None => Location::Backlog,
    }
}

/// Index of the first white-space character in `cs[a..b]`, or `b`.
pub open spec fn word_end(cs: Seq<char>, a: int, b: int) -> int
    decreases b - a,
{
    if a >= b {
        b
    } else if is_white(cs[a]) {
        a
    } else {
        word_end(cs, a + 1, b)
    }
}

pub proof fn lemma_word_end(cs: Seq<char>, a: int, b: int)
    requires
        a <= b,
    ensures
        a <= word_end(cs, a, b) <= b,
    decreases b - a,
{
    if a < b {
        lemma_word_end(cs, a + 1, b);
    }
}

/// The words of `cs[i..]`: the runs of characters between white space, as
/// `str::split_whitespace` gives them.
pub open spec fn words_from(cs: Seq<char>, i: int) -> Seq<Seq<char>>
    decreases cs.len() - i,
{
    let n = cs.len() as int;
    if i < 0 || i >= n {
        seq![]
    } else {
        let s = skip_white(cs, i, n);
        if s >= n {
            seq![]
        } else {
            let e = word_end(cs, s, n);
            proof {
                lemma_skip_white_bound(cs, i, n);
                lemma_word_end(cs, s + 1, n);
            }
            seq![cs.subrange(s, e)] + words_from(cs, e)
        }
    }
}

pub proof fn lemma_skip_white_bound(cs: Seq<char>, a: int, b: int)
    requires
        0 <= a <= b <= cs.len(),
    ensures
        a <= skip_white(cs, a, b) <= b,
        skip_white(cs, a, b) < b ==> !is_white(cs[skip_white(cs, a, b)]),
    decreases b - a,
{
    if a < b {
        lemma_skip_white_bound(cs, a + 1, b);
    }
}

/// The words of a text.
pub open spec fn words(cs: Seq<char>) -> Seq<Seq<char>> {
    words_from(cs, 0)
}

/// The words of `s`, as `str::split_whitespace` splits it.
pub fn split_words(s: &str) -> (r: Vec<String>)
    ensures
        r@.map_values(|w: String| w@) == words(s@),
{
    let cs = chars_of(s);
    let n = cs.len();
    let mut out: Vec<String> = Vec::new();
    let mut i: usize = 0;
    assert(out@.map_values(|w: String| w@) + words_from(cs@, 0) =~= words_from(cs@, 0));
    while i < n
        invariant
            i <= n == cs@.len(),
            cs@ == s@,
            words(s@) == out@.map_values(|w: String| w@) + words_from(cs@, i as int),
        decreases n - i,
    {
        let mut j = i;
        while j < n && is_white_exec(cs[j])
            invariant
                i <= j <= n == cs@.len(),
                skip_white(cs@, i as int, n as int) == skip_white(cs@, j as int, n as int),
            decreases n - j,
        {
            j = j + 1;
        }
        if j >= n {
            assert(words_from(cs@, i as int) =~= Seq::<Seq<char>>::empty());
            i = n;
        } else {
            let mut e = j + 1;
            proof {
                lemma_skip_white_bound(cs@, i as int, n as int);
            }
            while e < n && !is_white_exec(cs[e])
                invariant
                    j < e <= n == cs@.len(),
                    word_end(cs@, j as int, n as int) == word_end(cs@, e as int, n as int),
                decreases n - e,
            {
                e = e + 1;
            }
            let ghost before = out@.map_values(|w: String| w@);
            out.push(s.substring_char(j, e).to_owned());
            proof {
                assert(out@.map_values(|w: String| w@) =~= before.push(cs@.subrange(j as int, e as int)));
                assert(before + (seq![cs@.subrange(j as int, e as int)] + words_from(cs@, e as int))
                    =~= before.push(cs@.subrange(j as int, e as int)) + words_from(cs@, e as int));
            }
            i = e;
        }
    }
    assert(out@.map_values(|w: String| w@) + words_from(cs@, n as int) =~= out@.map_values(
        |w: String| w@,
    ));
    out
}

fn is_white_exec(c: char) -> (r: bool)
    ensures
        r == is_white(c),
{
    crate::text::char_is_whitespace(c)
}

/// The editor setting used: `$VISUAL`, else `$EDITOR`, else `vi`.
pub open spec fn editor_of(visual: Option<Seq<char>>, editor: Option<Seq<char>>) -> Seq<char> {
    match visual {
        Some(v) => v,
        None => match editor {
            Some(e) => e,
            None => "vi"@,
        },
    }
}

/// The editor setting: the value of `VISUAL` if set, else that of `EDITOR`,
/// else `vi`.
pub fn resolve_editor(visual: Option<&str>, editor: Option<&str>) -> (r: String)
    ensures
        r@ == editor_of(
            match visual {
                Some(v) => Some(v@),
                None => None,
            },
            match editor {
                Some(e) => Some(e@),
                None => None,
            },
        ),
{
    match visual {
        Some(v) => v.to_owned(),
        None => match editor {
            Some(e) => e.to_owned(),
            None => "vi".to_owned(),
        },
    }
}

/// A command line from a setting such as `code --wait`: its first word is
/// the program (`fallback` when there is none), the other words its first
/// arguments.
pub open spec fn command_of(setting: Seq<char>, fallback: Seq<char>) -> Seq<Seq<char>> {
    let w = words(setting);
    if w.len() == 0 {
        seq![fallback]
    } else {
        w
    }
}

/// The program and first arguments a setting such as `$PAGER` names.
pub fn command_words(setting: &str, fallback: &str) -> (r: Vec<String>)
    ensures
        r@.map_values(|w: String| w@) == command_of(setting@, fallback@),
        r@.len() >= 1,
{
    let w = split_words(setting);
    if w.len() == 0 {
        let mut r: Vec<String> = Vec::new();
        r.push(fallback.to_owned());
        assert(r@.map_values(|x: String| x@) =~= seq![fallback@]);
        r
    } else {
        w
    }
}

/// Why the command line asks for nothing that can be done.
#[derive(Debug, Clone, PartialEq, Eq)]
pub enum CommandError {
    /// No command was given.
    Usage,
    /// `pick` needs an argument.
    PickNeedsArgument,
    /// `move` needs a selection and a category.
    MoveNeedsArguments,
    /// The command is not known.
    Unknown(String),
}

/// A command of `dk`, with its arguments.
#[derive(Debug, Clone, PartialEq, Eq)]
pub enum Command {
    New(Option<String>),
    List(Option<String>),
    Pick(String),
    Edit(Vec<String>),
    Move(String, String),
    Delete { args: Vec<String>, force: bool },
}

/// The arguments of `delete` without the `-f`/`--force` flags, and whether
/// one was given.
pub open spec fn delete_args_of(args: Seq<Seq<char>>) -> (Seq<Seq<char>>, bool)
    decreases args.len(),
{
    if args.len() == 0 {
        (seq![], false)
    } else {
        let (rest, force) = delete_args_of(args.drop_last());
        let a = args.last();
        if a == "-f"@ || a == "--force"@ {
            (rest, true)
        } else {
            (rest.push(a), force)
        }
    }
}

/// Splits the arguments of `delete` into the selections and the force flag.
pub fn delete_options(args: &Vec<String>) -> (r: (Vec<String>, bool))
    ensures
        (r.0@.map_values(|s: String| s@), r.1) == delete_args_of(args@.map_values(|s: String| s@)),
{
    let ghost all = args@.map_values(|s: String| s@);
    let mut kept: Vec<String> = Vec::new();
    let mut force = false;
    let mut i: usize = 0;
    while i < args.len()
        invariant
            i <= args@.len(),
            all == args@.map_values(|s: String| s@),
            (kept@.map_values(|s: String| s@), force) == delete_args_of(all.take(i as int)),
        decreases args@.len() - i,
    {
        let a = args[i].as_str();
        proof {
            assert(all.take(i + 1).drop_last() =~= all.take(i as int));
            assert(all.take(i + 1).last() == a@);
        }
        if str_eq(a, "-f") || str_eq(a, "--force") {
            force = true;
        } else {
            let ghost before = kept@.map_values(|s: String| s@);
            kept.push(args[i].clone());
            proof {
                assert(kept@.map_values(|s: String| s@) =~= before.push(a@));
            }
        }
        i = i + 1;
    }
    assert(all.take(args@.len() as int) =~= all);
    (kept, force)
}

/// The abstract value of a `Command`.
pub enum CommandView {
    New(Option<Seq<char>>),
    List(Option<Seq<char>>),
    Pick(Seq<char>),
    Edit(Seq<Seq<char>>),
    Move(Seq<char>, Seq<char>),
    Delete { args: Seq<Seq<char>>, force: bool },
}

/// The abstract value of a `CommandError`.
pub enum CommandErrorView {
    Usage,
    PickNeedsArgument,
    MoveNeedsArguments,
    Unknown(Seq<char>),
}

impl View for Command {
    type V = CommandView;

    open spec fn view(&self) -> CommandView {
        match self {
            Command::New(a) => CommandView::New(
                match a {
                    Some(s) => Some(s@),
                    None => None,
                },
            ),
            Command::List(a) => CommandView::List(
                match a {
                    Some(s) => Some(s@),
                    None => None,
                },
            ),
            Command::Pick(a) => CommandView::Pick(a@),
            Command::Edit(v) => CommandView::Edit(v@.map_values(|s: String| s@)),
            Command::Move(a, b) => CommandView::Move(a@, b@),
            Command::Delete { args, force } => CommandView::Delete {
                args: args@.map_values(|s: String| s@),
                force: *force,
            },
        }
    }
}

impl View for CommandError {
    type V = CommandErrorView;

    open spec fn view(&self) -> CommandErrorView {
        match self {
            CommandError::Usage => CommandErrorView::Usage,
            CommandError::PickNeedsArgument => CommandErrorView::PickNeedsArgument,
            CommandError::MoveNeedsArguments => CommandErrorView::MoveNeedsArguments,
            CommandError::Unknown(c) => CommandErrorView::Unknown(c@),
        }
    }
}

/// The command the arguments (after the program name) ask for: the first
/// names it (`new`/`n`, `list`/`ls`, `pick`/`p`, `edit`/`ed`, `move`/`mv`,
/// `delete`/`rm`), the rest are its arguments.
pub open spec fn command_from(args: Seq<Seq<char>>) -> Result<CommandView, CommandErrorView> {
    if args.len() == 0 {
        Err(CommandErrorView::Usage)
    } else {
        let c = args[0];
        let rest = args.subrange(1, args.len() as int);
        let first = if rest.len() > 0 {
            Some(rest[0])
        } else {
            None
        };
        if c == "new"@ || c == "n"@ {
            Ok(CommandView::New(first))
        } else if c == "list"@ || c == "ls"@ {
            Ok(CommandView::List(first))
        } else if c == "pick"@ || c == "p"@ {
            if rest.len() == 0 {
                Err(CommandErrorView::PickNeedsArgument)
            } else {
                Ok(CommandView::Pick(rest[0]))
            }
        } else if c == "edit"@ || c == "ed"@ {
            Ok(CommandView::Edit(rest))
        } else if c == "move"@ || c == "mv"@ {
            if rest.len() < 2 {
                Err(CommandErrorView::MoveNeedsArguments)
            } else {
                Ok(CommandView::Move(rest[0], rest[1]))
            }
        } else if c == "delete"@ || c == "rm"@ {
            Ok(
                CommandView::Delete {
                    args: delete_args_of(rest).0,
                    force: delete_args_of(rest).1,
                },
            )
        } else {
            Err(CommandErrorView::Unknown(c))
        }
    }
}

/// Reads the command line of `dk` (the arguments after the program name).
pub fn parse_command(args: &Vec<String>) -> (r: Result<Command, CommandError>)
    ensures
        command_from(args@.map_values(|s: String| s@)) == match r {
            Ok(c) => Ok::<CommandView, CommandErrorView>(c@),
            Err(e) => Err::<CommandView, CommandErrorView>(e@),
        },
{
    let ghost all = args@.map_values(|s: String| s@);
    if args.len() == 0 {
        return Err(CommandError::Usage);
    }
    let c = args[0].as_str();
    let mut rest: Vec<String> = Vec::new();
    let mut i: usize = 1;
    while i < args.len()
        invariant
            1 <= i <= args@.len(),
            all == args@.map_values(|s: String| s@),
            rest@.map_values(|s: String| s@) == all.subrange(1, i as int),
        decreases args@.len() - i,
    {
        let ghost before = rest@.map_values(|s: String| s@);
        let x = args[i].clone();
        assert(x@ == all[i as int]);
        rest.push(x);
        proof {
            assert(rest@.map_values(|s: String| s@) =~= before.push(x@));
            assert(all.subrange(1, i + 1) =~= all.subrange(1, i as int).push(all[i as int]));
        }
        i = i + 1;
    }
    let ghost rv = all.subrange(1, all.len() as int);
    assert(rest@.map_values(|s: String| s@) == rv);
    assert(c@ == all[0]);
    let first: Option<String> = if rest.len() > 0 {
        Some(rest[0].clone())
    } else {
        None
    };
    if str_eq(c, "new") || str_eq(c, "n") {
        Ok(Command::New(first))
    } else if str_eq(c, "list") || str_eq(c, "ls") {
        Ok(Command::List(first))
    } else if str_eq(c, "pick") || str_eq(c, "p") {
        if rest.len() == 0 {
            Err(CommandError::PickNeedsArgument)
        } else {
            Ok(Command::Pick(rest[0].clone()))
        }
    } else if str_eq(c, "edit") || str_eq(c, "ed") {
        Ok(Command::Edit(rest))
    } else if str_eq(c, "move") || str_eq(c, "mv") {
        if rest.len() < 2 {
            Err(CommandError::MoveNeedsArguments)
        } else {
            Ok(Command::Move(rest[0].clone(), rest[1].clone()))
        }
    } else if str_eq(c, "delete") || str_eq(c, "rm") {
        let (kept, force) = delete_options(&rest);
        Ok(Command::Delete { args: kept, force })
    } else {
        Err(CommandError::Unknown(c.to_owned()))
    }
}

/// The file of an item under the data directory.
pub fn item_file_path(data_dir: &str, id: u128, location: &Location) -> (r: String)
    ensures
        r@ == joined(data_dir@, item_path_of(id, *location)),
{
    let rel = Storage::item_path(id, location);
    join_path(data_dir, rel.as_str())
}

} // verus!
