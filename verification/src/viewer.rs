//! Which application shows Markdown files: the preference, the candidates
//! looked for, and the arguments of the `open` command.
use vstd::prelude::*;

use crate::config::{home_chars, join_path, joined};

verus! {

broadcast use vstd::string::group_string_axioms;

/// The Markdown viewer chosen in the settings.
#[derive(Debug, Clone, PartialEq, Eq)]
pub enum ViewerPreference {
    /// The first viewer found among the known ones.
    Auto,
    /// An application given by its path.
    Custom(String),
}

impl View for ViewerPreference {
    /// `None` for `Auto`, else the custom path.
    type V = Option<Seq<char>>;

    open spec fn view(&self) -> Option<Seq<char>> {
        match self {
            ViewerPreference::Auto => None,
            ViewerPreference::Custom(p) => Some(p@),
        }
    }
}

impl Default for ViewerPreference {
    fn default() -> (r: Self)
        ensures
            r@ == None::<Seq<char>>,
    {
        ViewerPreference::Auto
    }
}

/// The viewer applications looked for, in order of preference.
pub open spec fn candidate_apps() -> Seq<Seq<char>> {
    seq!["Marked.app"@, "Marked 2.app"@, "MD-Viewer.app"@]
}

/// Where the viewers are looked for: for each application in turn, the
/// system `/Applications` folder and then, with a home directory, the
/// user's own `Applications` folder.
pub open spec fn candidates_of(home: Option<Seq<char>>) -> Seq<Seq<char>> {
    let apps = candidate_apps();
    match home {
        None => apps.map_values(|a: Seq<char>| joined("/Applications"@, a)),
        Some(h) => seq![
            joined("/Applications"@, apps[0]),
            joined(joined(h, "Applications"@), apps[0]),
            joined("/Applications"@, apps[1]),
            joined(joined(h, "Applications"@), apps[1]),
            joined("/Applications"@, apps[2]),
            joined(joined(h, "Applications"@), apps[2]),
        ],
    }
}

/// The paths where a viewer application is looked for.
pub fn candidate_viewer_paths(home: Option<&str>) -> (r: Vec<String>)
    ensures
        r@.map_values(|p: String| p@) == candidates_of(home_chars(home)),
{
    let apps = ["Marked.app", "Marked 2.app", "MD-Viewer.app"];
    let ghost want = candidates_of(home_chars(home));
    proof {
        reveal_strlit("Marked.app");
        reveal_strlit("Marked 2.app");
        reveal_strlit("MD-Viewer.app");
    }
    assert(apps@.map_values(|a: &str| a@) =~= candidate_apps());
    let mut paths: Vec<String> = Vec::new();
    let user = match home {
        Some(h) => Some(join_path(h, "Applications")),
        None => None,
    };
    let mut k: usize = 0;
    while k < 3
        invariant
            k <= 3,
            apps@.map_values(|a: &str| a@) == candidate_apps(),
            want == candidates_of(home_chars(home)),
            user matches Some(u) ==> home is Some && u@ == joined(home->0@, "Applications"@),
            user is None ==> home is None,
            home is None ==> paths@.map_values(|p: String| p@) == want.take(k as int),
            home is Some ==> paths@.map_values(|p: String| p@) == want.take(2 * k),
        decreases 3 - k,
    {
        let app = apps[k];
        assert(app@ == candidate_apps()[k as int]);
        paths.push(join_path("/Applications", app));
        if let Some(u) = &user {
            paths.push(join_path(u.as_str(), app));
        }
        proof {
            if home is None {
                assert(paths@.map_values(|p: String| p@) =~= want.take(k + 1));
            } else {
                assert(paths@.map_values(|p: String| p@) =~= want.take(2 * k + 2));
            }
        }
        k = k + 1;
    }
    proof {
        if home is None {
            assert(want.take(3) =~= want);
        } else {
            assert(want.take(6) =~= want);
        }
    }
    paths
}

/// Index of the first candidate that exists, or -1.
pub open spec fn first_existing(exists: Seq<bool>, i: int) -> int
    decreases exists.len() - i,
{
    if i < 0 || i >= exists.len() {
        -1
    } else if exists[i] {
        i
    } else {
        first_existing(exists, i + 1)
    }
}

/// The first candidate path that exists (`exists[i]` tells whether
/// `candidates[i]` does), or `None`.
pub fn detect_default_viewer(candidates: &Vec<String>, exists: &Vec<bool>) -> (r: Option<String>)
    requires
        candidates@.len() == exists@.len(),
    ensures
        first_existing(exists@, 0) == -1 ==> r is None,
        first_existing(exists@, 0) != -1 ==> (r matches Some(p) && p@ == candidates@[first_existing(
            exists@,
            0,
        )]@),
{
    let mut i: usize = 0;
    while i < exists.len()
        invariant
            i <= exists@.len() == candidates@.len(),
            first_existing(exists@, 0) == first_existing(exists@, i as int),
        decreases exists@.len() - i,
    {
        if exists[i] {
            return Some(candidates[i].clone());
        }
        i = i + 1;
    }
    None
}

/// The viewer to open files with: a custom path as it is, else the detected
/// one (`None`: the system's default handler).
pub fn resolve_viewer_path(pref: &ViewerPreference, detected: Option<String>) -> (r: Option<String>)
    ensures
        pref@ is Some ==> (r matches Some(p) && p@ == pref@->0),
        pref@ is None ==> r == detected,
{
    match pref {
        ViewerPreference::Auto => detected,
        ViewerPreference::Custom(path) => Some(path.clone()),
    }
}

/// The arguments of the `open` command that shows `file` (with `app`, in
/// that application).
pub open spec fn open_args_of(file: Seq<char>, app: Option<Seq<char>>) -> Seq<Seq<char>> {
    match app {
        Some(a) => seq!["-a"@, a, file],
        None => seq![file],
    }
}

/// The arguments of the `open` command that shows `file`.
pub fn open_command_args(file: &str, app: Option<&str>) -> (r: Vec<String>)
    ensures
        r@.map_values(|s: String| s@) == open_args_of(file@, home_chars(app)),
{
    let mut args: Vec<String> = Vec::new();
    if let Some(a) = app {
        args.push("-a".to_owned());
        args.push(a.to_owned());
    }
    args.push(file.to_owned());
    assert(args@.map_values(|s: String| s@) =~= open_args_of(file@, home_chars(app)));
    args
}

} // verus!
