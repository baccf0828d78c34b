//! Settings: where they and the data live, their defaults, and how a loaded
//! file is settled (home-relative paths expanded, a data directory that is
//! the settings directory itself moved to its `data` subfolder).
use vstd::prelude::*;

use crate::i18n::Language;
use crate::text::{chars_eq_at, chars_of, end_at, end_index, lemma_end_at};
use crate::viewer::ViewerPreference;

verus! {

broadcast use vstd::string::group_string_axioms;

/// How the colours of the interface are chosen.
#[derive(Debug, Clone, Copy, PartialEq, Eq, Structural)]
pub enum ThemeMode {
    Light,
    Dark,
    System,
}

impl Default for ThemeMode {
    fn default() -> (r: Self)
        ensures
            r == ThemeMode::System,
    {
        ThemeMode::System
    }
}

/// The settings of the application.
#[derive(Debug, Clone)]
pub struct Config {
    pub data_dir: String,
    pub vi_mode: bool,
    pub line_numbers: bool,
    pub theme_mode: ThemeMode,
    pub language: Language,
    pub markdown_viewer: ViewerPreference,
    pub font_family: String,
}

/// The home directory as characters.
pub open spec fn home_chars(home: Option<&str>) -> Option<Seq<char>> {
    match home {
        Some(h) => Some(h@),
        None => None,
    }
}

/// `rel` appended to `base` as a path: an absolute `rel` replaces `base`, an
/// empty `base` gives `rel`, else a `/` separates them unless `base` ends in
/// one.
pub open spec fn joined(base: Seq<char>, rel: Seq<char>) -> Seq<char> {
    if rel.len() > 0 && rel[0] == '/' {
        rel
    } else if base.len() == 0 {
        rel
    } else if base[base.len() - 1] == '/' {
        base + rel
    } else {
        base + seq!['/'] + rel
    }
}

/// Appends the relative or absolute path `rel` to `base`.
pub fn join_path(base: &str, rel: &str) -> (r: String)
    ensures
        r@ == joined(base@, rel@),
{
    let n = rel.unicode_len();
    if n > 0 && rel.get_char(0) == '/' {
        return rel.to_owned();
    }
    let m = base.unicode_len();
    if m == 0 {
        return rel.to_owned();
    }
    let mut r = base.to_owned();
    if base.get_char(m - 1) != '/' {
        r.append("/");
    }
    r.append(rel);
    proof {
        reveal_strlit("/");
    }
    r
}

/// The folder that holds the settings file, under the home directory.
pub open spec fn config_dir_of(home: Option<Seq<char>>) -> Seq<char> {
    match home {
        Some(h) => joined(h, "Library/Application Support/dkb"@),
        None => "Library/Application Support/dkb"@,
    }
}

/// `path` with a leading `~/` replaced by the home directory, when there is
/// one.
pub open spec fn tilde_expanded(path: Seq<char>, home: Option<Seq<char>>) -> Seq<char> {
    if path.len() >= 2 && path[0] == '~' && path[1] == '/' && home is Some {
        joined(home->0, path.subrange(2, path.len() as int))
    } else {
        path
    }
}

/// The components of `s[i..]`: the pieces between slashes, empty pieces and
/// `.` pieces left out.
pub open spec fn rest_components(s: Seq<char>, i: int) -> Seq<Seq<char>>
    decreases s.len() - i,
{
    if i < 0 || i >= s.len() {
        seq![]
    } else if s[i] == '/' {
        rest_components(s, i + 1)
    } else {
        let j = end_at(s, '/', i, s.len() as int);
        proof {
            lemma_end_at(s, '/', i + 1, s.len() as int);
        }
        if s.subrange(i, j) == seq!['.'] {
            rest_components(s, j)
        } else {
            seq![s.subrange(i, j)] + rest_components(s, j)
        }
    }
}

/// Where the components of a path start: after a root `/`, or after a `.`
/// that stands first.
pub open spec fn components_start(s: Seq<char>) -> int {
    if s.len() > 0 && s[0] == '/' {
        1
    } else if s.len() > 0 && s[0] == '.' && (s.len() == 1 || s[1] == '/') {
        1
    } else {
        0
    }
}

/// The components of a path as `Path::components` reads them: a root or a
/// leading `.`, then the pieces between slashes without empty and `.` ones.
pub open spec fn components(s: Seq<char>) -> Seq<Seq<char>> {
    if components_start(s) == 1 {
        seq![s.subrange(0, 1)] + rest_components(s, 1)
    } else {
        rest_components(s, 0)
    }
}

/// The characters `cs[a..b]` as a vector.
fn piece(cs: &Vec<char>, a: usize, b: usize) -> (r: Vec<char>)
    requires
        a <= b <= cs@.len(),
    ensures
        r@ == cs@.subrange(a as int, b as int),
{
    let mut r: Vec<char> = Vec::new();
    let mut i = a;
    while i < b
        invariant
            a <= i <= b <= cs@.len(),
            r@ == cs@.subrange(a as int, i as int),
        decreases b - i,
    {
        r.push(cs[i]);
        proof {
            assert(r@ =~= cs@.subrange(a as int, i + 1));
        }
        i = i + 1;
    }
    r
}

/// The components of `cs`, each as a vector of characters.
fn component_list(cs: &Vec<char>) -> (r: Vec<Vec<char>>)
    ensures
        r@.map_values(|v: Vec<char>| v@) == components(cs@),
{
    let n = cs.len();
    let mut out: Vec<Vec<char>> = Vec::new();
    let mut i: usize = 0;
    if n > 0 && (cs[0] == '/' || (cs[0] == '.' && (n == 1 || cs[1] == '/'))) {
        out.push(piece(cs, 0, 1));
        i = 1;
    }
    assert(components(cs@) == out@.map_values(|v: Vec<char>| v@) + rest_components(cs@, i as int))
        by {
        if i == 0 {
            assert(out@.map_values(|v: Vec<char>| v@) + rest_components(cs@, 0) =~= rest_components(
                cs@,
                0,
            ));
        } else {
            assert(out@.map_values(|v: Vec<char>| v@) =~= seq![cs@.subrange(0, 1)]);
        }
    }
    while i < n
        invariant
            i <= n == cs@.len(),
            components(cs@) == out@.map_values(|v: Vec<char>| v@) + rest_components(
                cs@,
                i as int,
            ),
        decreases n - i,
    {
        if cs[i] == '/' {
            i = i + 1;
        } else {
            let j = end_index(cs, '/', i, n);
            proof {
                lemma_end_at(cs@, '/', i + 1, n as int);
            }
            let dot = j == i + 1 && cs[i] == '.';
            proof {
                assert(dot == (cs@.subrange(i as int, j as int) == seq!['.'])) by {
                    if j == i + 1 && cs@[i as int] == '.' {
                        assert(cs@.subrange(i as int, j as int) =~= seq!['.']);
                    } else if j == i + 1 {
                        assert(cs@.subrange(i as int, j as int)[0] != seq!['.'][0]);
                    } else {
                        assert(cs@.subrange(i as int, j as int).len() != seq!['.'].len());
                    }
                }
            }
            if !dot {
                let ghost before = out@.map_values(|v: Vec<char>| v@);
                out.push(piece(cs, i, j));
                proof {
                    assert(out@.map_values(|v: Vec<char>| v@) =~= before.push(
                        cs@.subrange(i as int, j as int),
                    ));
                    assert(before + (seq![cs@.subrange(i as int, j as int)] + rest_components(
                        cs@,
                        j as int,
                    )) =~= before.push(cs@.subrange(i as int, j as int)) + rest_components(
                        cs@,
                        j as int,
                    ));
                }
            }
            i = j;
        }
    }
    assert(out@.map_values(|v: Vec<char>| v@) + rest_components(cs@, n as int) =~= out@.map_values(
        |v: Vec<char>| v@,
    ));
    out
}

/// `a` and `b` name the same path, component by component (so `a/b/`,
/// `a//b` and `a/./b` are all the same path).
pub fn same_path(a: &str, b: &str) -> (r: bool)
    ensures
        r == (components(a@) == components(b@)),
{
    let ca = chars_of(a);
    let cb = chars_of(b);
    let la = component_list(&ca);
    let lb = component_list(&cb);
    let ghost va = la@.map_values(|v: Vec<char>| v@);
    let ghost vb = lb@.map_values(|v: Vec<char>| v@);
    if la.len() != lb.len() {
        assert(va.len() != vb.len());
        return false;
    }
    let mut k: usize = 0;
    while k < la.len()
        invariant
            k <= la@.len() == lb@.len(),
            va == la@.map_values(|v: Vec<char>| v@),
            vb == lb@.map_values(|v: Vec<char>| v@),
            va == components(a@),
            vb == components(b@),
            forall|q: int| 0 <= q < k ==> va[q] == vb[q],
        decreases la@.len() - k,
    {
        let x = &la[k];
        let y = &lb[k];
        if !ranges_equal(x, 0, x.len(), y, 0, y.len()) {
            assert(x@.subrange(0, x@.len() as int) =~= x@);
            assert(y@.subrange(0, y@.len() as int) =~= y@);
            assert(va[k as int] != vb[k as int]);
            return false;
        }
        assert(x@.subrange(0, x@.len() as int) =~= x@);
        assert(y@.subrange(0, y@.len() as int) =~= y@);
        k = k + 1;
    }
    assert(va =~= vb);
    true
}

/// `a[a0..a1]` and `b[b0..b1]` hold the same characters.
fn ranges_equal(a: &Vec<char>, a0: usize, a1: usize, b: &Vec<char>, b0: usize, b1: usize) -> (r:
    bool)
    requires
        a0 <= a1 <= a@.len(),
        b0 <= b1 <= b@.len(),
    ensures
        r == (a@.subrange(a0 as int, a1 as int) == b@.subrange(b0 as int, b1 as int)),
{
    if a1 - a0 != b1 - b0 {
        assert(a@.subrange(a0 as int, a1 as int).len() != b@.subrange(b0 as int, b1 as int).len());
        return false;
    }
    let n = a1 - a0;
    let mut i: usize = 0;
    while i < n
        invariant
            i <= n == a1 - a0 == b1 - b0,
            a0 <= a1 <= a@.len(),
            b0 <= b1 <= b@.len(),
            forall|j: int|
                0 <= j < i ==> #[trigger] a@.subrange(a0 as int, a1 as int)[j] == b@.subrange(
                    b0 as int,
                    b1 as int,
                )[j],
        decreases n - i,
    {
        if a[a0 + i] != b[b0 + i] {
            assert(a@.subrange(a0 as int, a1 as int)[i as int] != b@.subrange(
                b0 as int,
                b1 as int,
            )[i as int]);
            return false;
        }
        i = i + 1;
    }
    assert(a@.subrange(a0 as int, a1 as int) =~= b@.subrange(b0 as int, b1 as int));
    true
}

/// The data directory a settled file holds: the stored one with `~/`
/// expanded, or the default one when that is the settings folder itself.
pub open spec fn settled_dir(stored: Seq<char>, home: Option<Seq<char>>) -> Seq<char> {
    let d = tilde_expanded(stored, home);
    if components(d) == components(config_dir_of(home)) {
        joined(config_dir_of(home), "data"@)
    } else {
        d
    }
}

/// The viewer a settled file holds: a custom path has `~/` expanded.
pub open spec fn settled_viewer(v: Option<Seq<char>>, home: Option<Seq<char>>) -> Option<
    Seq<char>,
> {
    match v {
        None => None,
        Some(p) => Some(tilde_expanded(p, home)),
    }
}

impl Config {
    /// The folder that holds the settings file.
    pub fn config_dir(home: Option<&str>) -> (r: String)
        ensures
            r@ == config_dir_of(home_chars(home)),
    {
        match home {
            Some(h) => join_path(h, "Library/Application Support/dkb"),
            None => "Library/Application Support/dkb".to_owned(),
        }
    }

    /// The data directory used unless the settings name another one.
    pub fn default_data_dir(home: Option<&str>) -> (r: String)
        ensures
            r@ == joined(config_dir_of(home_chars(home)), "data"@),
    {
        let dir = Config::config_dir(home);
        join_path(dir.as_str(), "data")
    }

    /// The settings file.
    pub fn config_file_path(home: Option<&str>) -> (r: String)
        ensures
            r@ == joined(config_dir_of(home_chars(home)), "config.toml"@),
    {
        let dir = Config::config_dir(home);
        join_path(dir.as_str(), "config.toml")
    }

    /// `path` with a leading `~/` replaced by the home directory.
    pub fn expand_tilde(path: &str, home: Option<&str>) -> (r: String)
        ensures
            r@ == tilde_expanded(path@, home_chars(home)),
    {
        let n = path.unicode_len();
        if n >= 2 && path.get_char(0) == '~' && path.get_char(1) == '/' {
            if let Some(h) = home {
                return join_path(h, path.substring_char(2, n));
            }
        }
        path.to_owned()
    }

    /// The settings used when there is no file (or it cannot be read).
    pub fn defaults(home: Option<&str>) -> (r: Config)
        ensures
            r.data_dir@ == joined(config_dir_of(home_chars(home)), "data"@),
            !r.vi_mode,
            !r.line_numbers,
            r.theme_mode == ThemeMode::System,
            r.language == Language::Auto,
            r.markdown_viewer@ == None::<Seq<char>>,
            r.font_family@ == "Menlo"@,
    {
        Config {
            data_dir: Config::default_data_dir(home),
            vi_mode: false,
            line_numbers: false,
            theme_mode: ThemeMode::System,
            language: Language::Auto,
            markdown_viewer: ViewerPreference::Auto,
            font_family: "Menlo".to_owned(),
        }
    }

    /// Settles settings read from a file: `~/` in the data directory and in
    /// a custom viewer path is expanded, and a data directory that is the
    /// settings folder itself becomes the default one. The flag tells whether
    /// the file must be written back (only in that last case).
    pub fn settled(self, home: Option<&str>) -> (r: (Config, bool))
        ensures
            r.0.data_dir@ == settled_dir(self.data_dir@, home_chars(home)),
            r.1 == (components(tilde_expanded(self.data_dir@, home_chars(home))) == components(
                config_dir_of(home_chars(home)),
            )),
            r.0.markdown_viewer@ == settled_viewer(self.markdown_viewer@, home_chars(home)),
            r.0.vi_mode == self.vi_mode,
            r.0.line_numbers == self.line_numbers,
            r.0.theme_mode == self.theme_mode,
            r.0.language == self.language,
            r.0.font_family == self.font_family,
    {
        let mut config = self;
        let expanded = Config::expand_tilde(config.data_dir.as_str(), home);
        let dir = Config::config_dir(home);
        let save = same_path(expanded.as_str(), dir.as_str());
        if save {
            config.data_dir = Config::default_data_dir(home);
        } else {
            config.data_dir = expanded;
        }
        let viewer = match &config.markdown_viewer {
            ViewerPreference::Auto => ViewerPreference::Auto,
            ViewerPreference::Custom(p) => ViewerPreference::Custom(
                Config::expand_tilde(p.as_str(), home),
            ),
        };
        config.markdown_viewer = viewer;
        (config, save)
    }
}

/// The monospace fonts the settings offer.
pub fn monospace_fonts() -> (r: Vec<&'static str>)
    ensures
        r@.map_values(|f: &str| f@) == seq![
            "Menlo"@,
            "SF Mono"@,
            "Monaco"@,
            "Courier New"@,
            "Courier"@,
            "Consolas"@,
            "Fira Code"@,
            "JetBrains Mono"@,
        ],
{
    let r = vec![
        "Menlo",
        "SF Mono",
        "Monaco",
        "Courier New",
        "Courier",
        "Consolas",
        "Fira Code",
        "JetBrains Mono",
    ];
    assert(r@.map_values(|f: &str| f@) =~= seq![
        "Menlo"@,
        "SF Mono"@,
        "Monaco"@,
        "Courier New"@,
        "Courier"@,
        "Consolas"@,
        "Fira Code"@,
        "JetBrains Mono"@,
    ]);
    r
}

} // verus!
