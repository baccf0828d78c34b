//! Kanban items: a Markdown body with timestamps, stored as a document with a
//! front matter block.
use chrono::Utc;
use vstd::prelude::*;

use crate::ids::new_id;
use crate::text::{
    back_white, char_is_whitespace, chars_of, find_exec, find_from, is_white, lemma_find_first,
    lemma_trim_of_range, lemma_trimmed_after_white, lemma_trimmed_of_trim_end, occurs_at,
    occurs_at_exec, trim_of, trimmed, trimmed_part, end_at, end_index, lemma_end_at, trim_bounds,
};

verus! {

broadcast use vstd::string::group_string_axioms;

/// Where an item is in its life.
#[derive(Debug, Clone, Copy, PartialEq, Eq, Structural)]
pub enum Status {
    Backlog,
    Active,
    Done,
}

/// The time horizon of an active item.
#[derive(Debug, Clone, Copy, PartialEq, Eq, Structural)]
pub enum Category {
    Yesterday,
    Today,
    ThisWeek,
    NextWeek,
}

/// A UTC instant: whole seconds since the Unix epoch and the nanoseconds
/// within that second.
#[derive(Debug, Clone, Copy, PartialEq, Eq, Structural)]
pub struct Timestamp {
    pub secs: i64,
    pub nanos: u32,
}

impl Timestamp {
    /// The Unix epoch, which stands for a missing time stamp.
    pub fn epoch() -> (r: Timestamp)
        ensures
            r.secs == 0 && r.nanos == 0,
    {
        Timestamp { secs: 0, nanos: 0 }
    }
}

/// Calls `chrono::Utc::now` and keeps its seconds and sub-second nanoseconds.
/// Nothing is claimed of the value: it is the time of the call.
#[verifier::external_body]
pub fn now() -> Timestamp {
    let t = Utc::now();
    Timestamp { secs: t.timestamp(), nanos: t.timestamp_subsec_nanos() }
}

/// An item: its identifier, Markdown body and time stamps.
#[derive(Debug)]
pub struct Item {
    pub id: u128,
    pub body: String,
    pub created_at: Timestamp,
    pub updated_at: Timestamp,
    pub completed_at: Option<Timestamp>,
}

impl Clone for Item {
    fn clone(&self) -> (r: Self)
        ensures
            r == *self,
    {
        Item {
            id: self.id,
            body: self.body.clone(),
            created_at: self.created_at,
            updated_at: self.updated_at,
            completed_at: self.completed_at,
        }
    }
}

/// The time stamps kept in an item's front matter.
#[derive(Debug, Clone, Copy, PartialEq, Eq, Structural)]
pub struct ItemFrontmatter {
    pub created_at: Option<Timestamp>,
    pub updated_at: Option<Timestamp>,
    pub completed_at: Option<Timestamp>,
}

impl ItemFrontmatter {
    /// No time stamps.
    pub fn empty() -> (r: ItemFrontmatter)
        ensures
            r.created_at is None && r.updated_at is None && r.completed_at is None,
    {
        ItemFrontmatter { created_at: None, updated_at: None, completed_at: None }
    }
}

/// Scan for the title: `a` starts the current line, `k` is the next character
/// to look at, `seen` records a non-whitespace character on the line so far.
pub open spec fn title_scan(cs: Seq<char>, a: int, k: int, seen: bool) -> Seq<char>
    decreases cs.len() - k,
{
    if k < 0 || k >= cs.len() {
        if seen && 0 <= a <= cs.len() {
            cs.subrange(a, cs.len() as int)
        } else {
            Seq::empty()
        }
    } else if cs[k] == '\n' {
        if seen {
            let e = if k > a && cs[k - 1] == '\r' {
                k - 1
            } else {
                k
            };
            cs.subrange(a, e)
        } else {
            title_scan(cs, k + 1, k + 1, false)
        }
    } else {
        title_scan(cs, a, k + 1, seen || !is_white(cs[k]))
    }
}

/// The title of a body: its first line that is not blank, without the line
/// ending (`\n` or `\r\n`); empty when every line is blank.
pub open spec fn title_of(body: Seq<char>) -> Seq<char> {
    title_scan(body, 0, 0, false)
}

/// The front matter delimiter line.
pub open spec fn delimiter() -> Seq<char> {
    "---"@
}

/// `cs` without trailing whitespace.
pub open spec fn trim_end_of(cs: Seq<char>) -> Seq<char> {
    cs.subrange(0, back_white(cs, 0, cs.len() as int))
}

/// A document: the delimiter, the front matter without trailing whitespace,
/// the delimiter again, then the body, each on its own line.
pub open spec fn document(yaml: Seq<char>, body: Seq<char>) -> Seq<char> {
    "---\n"@ + trim_end_of(yaml) + "\n---\n"@ + body
}

/// Index of the first character of `cs` from `k` on that is not `c`.
pub open spec fn skip_char(cs: Seq<char>, c: char, k: int) -> int
    decreases cs.len() - k,
{
    if k < 0 || k >= cs.len() {
        cs.len() as int
    } else if cs[k] == c {
        skip_char(cs, c, k + 1)
    } else {
        k
    }
}

/// How a document splits into front matter and body: the front matter is
/// trimmed (empty when there is none) and the body loses its leading newlines.
/// A leading byte order mark is ignored. `None` when the front matter block is
/// not closed, or when its closing delimiter is followed by more text on the
/// same line.
pub open spec fn frontmatter_parts(content: Seq<char>) -> Option<(Seq<char>, Seq<char>)> {
    let n = content.len() as int;
    let s = skip_char(content, '\u{feff}', 0);
    if !occurs_at(content, "---"@, s) {
        Some((Seq::empty(), content.subrange(s, n)))
    } else {
        let t = s + 3;
        let i = find_from(content, "\n---\n"@, t);
        if i >= 0 {
            Some((trim_of(content, t, i), content.subrange(skip_char(content, '\n', i + 5), n)))
        } else {
            let j = find_from(content, "\n---"@, t);
            if j < 0 || j + 4 < n {
                None
            } else {
                Some((trim_of(content, t, j), Seq::empty()))
            }
        }
    }
}


/// Markdown emphasis and code markers, which a displayed title leaves out.
pub open spec fn is_marker(c: char) -> bool {
    c == '*' || c == '`' || c == '~'
}

/// `cs[a..b]` as plain text: markers dropped, and each link `[text](target)`
/// replaced by its text, itself made plain.
pub open spec fn plain_in(cs: Seq<char>, a: int, b: int) -> Seq<char>
    decreases b - a,
{
    if a < 0 || a >= b || b > cs.len() {
        seq![]
    } else if is_marker(cs[a]) {
        plain_in(cs, a + 1, b)
    } else {
        let j = end_at(cs, ']', a + 1, b);
        let k = end_at(cs, ')', j + 2, b);
        proof {
            lemma_end_at(cs, ']', a + 1, b);
        }
        if cs[a] == '[' && j + 1 < b && cs[j + 1] == '(' && k < b {
            proof {
                lemma_end_at(cs, ')', j + 2, b);
            }
            plain_in(cs, a + 1, j) + plain_in(cs, k + 1, b)
        } else {
            seq![cs[a]] + plain_in(cs, a + 1, b)
        }
    }
}

/// A title as a card shows it: trimmed, without leading `#` marks, made
/// plain, and trimmed again.
pub open spec fn clean_title_of(title: Seq<char>) -> Seq<char> {
    let t = trimmed(title);
    trimmed(plain_in(t, skip_char(t, '#', 0), t.len() as int))
}

/// Appends `cs[a..b]` made plain to `out`.
fn plain_into(cs: &Vec<char>, s: &str, a: usize, b: usize, out: &mut String)
    requires
        a <= b <= cs@.len(),
        cs@ == s@,
    ensures
        final(out)@ == old(out)@ + plain_in(cs@, a as int, b as int),
    decreases b - a,
{
    let ghost start = out@;
    let mut i = a;
    while i < b
        invariant
            a <= i <= b <= cs@.len(),
            cs@ == s@,
            out@ + plain_in(cs@, i as int, b as int) == start + plain_in(cs@, a as int, b as int),
        decreases b - i,
    {
        let c = cs[i];
        if c == '*' || c == '`' || c == '~' {
            i = i + 1;
        } else {
            let j = end_index(cs, ']', i + 1, b);
            let mut link = false;
            let mut k = b;
            if c == '[' && j < b && j + 1 < b && cs[j + 1] == '(' {
                k = end_index(cs, ')', j + 2, b);
                link = k < b;
            }
            if link {
                let ghost before = out@;
                plain_into(cs, s, i + 1, j, out);
                proof {
                    assert(out@ + plain_in(cs@, k + 1, b as int) =~= before + plain_in(
                        cs@,
                        i as int,
                        b as int,
                    ));
                }
                i = k + 1;
            } else {
                let ghost before = out@;
                out.append(s.substring_char(i, i + 1));
                proof {
                    assert(s@.subrange(i as int, i + 1) =~= seq![c]);
                    assert(out@ + plain_in(cs@, i + 1, b as int) =~= before + plain_in(
                        cs@,
                        i as int,
                        b as int,
                    ));
                }
                i = i + 1;
            }
        }
    }
    assert(out@ =~= start + plain_in(cs@, a as int, b as int));
}

impl Item {
    /// A new item with a fresh random identifier, created and updated now.
    pub fn new(title: &str) -> (r: Self)
        ensures
            r.body@ == title@,
            (r.id >> 76u128) & 15 == 4,
            (r.id >> 62u128) & 3 == 2,
            r.created_at == r.updated_at,
            r.completed_at is None,
    {
        let t = now();
        Item { id: new_id(), body: title.to_owned(), created_at: t, updated_at: t, completed_at: None }
    }

    /// The title as a card shows it: Markdown heading marks, emphasis and
    /// code markers left out, links reduced to their text.
    pub fn clean_title(title: &str) -> (r: String)
        ensures
            r@ == clean_title_of(title@),
    {
        let all = chars_of(title);
        let (a, b) = trim_bounds(&all, 0, all.len());
        let t = title.substring_char(a, b);
        let cs = chars_of(t);
        let h = skip_char_exec(&cs, '#', 0);
        let mut out = String::new();
        plain_into(&cs, t, h, cs.len(), &mut out);
        let oc = chars_of(out.as_str());
        let (x, y) = trim_bounds(&oc, 0, oc.len());
        out.as_str().substring_char(x, y).to_owned()
    }

    /// The item's title: the first non-blank line of its body.
    pub fn title(&self) -> (r: String)
        ensures
            r@ == title_of(self.body@),
    {
        Self::extract_title(self.body.as_str())
    }

    /// The first non-blank line of `body`, without its line ending.
    pub fn extract_title(body: &str) -> (r: String)
        ensures
            r@ == title_of(body@),
    {
        let cs = chars_of(body);
        let n = cs.len();
        let mut a: usize = 0;
        let mut k: usize = 0;
        let mut seen = false;
        while k < n
            invariant
                n == cs@.len(),
                cs@ == body@,
                a <= k <= n,
                title_of(body@) == title_scan(cs@, a as int, k as int, seen),
            decreases n - k,
        {
            if cs[k] == '\n' {
                if seen {
                    let e = if k > a && cs[k - 1] == '\r' {
                        k - 1
                    } else {
                        k
                    };
                    return body.substring_char(a, e).to_owned();
                }
                a = k + 1;
                seen = false;
            } else if !char_is_whitespace(cs[k]) {
                seen = true;
            }
            k = k + 1;
        }
        if seen {
            body.substring_char(a, n).to_owned()
        } else {
            String::new()
        }
    }

    /// Writes a document from front matter text and a body.
    pub fn frame_document(yaml: &str, body: &str) -> (r: String)
        ensures
            r@ == document(yaml@, body@),
    {
        let cs = chars_of(yaml);
        let n = cs.len();
        let mut e = n;
        while e > 0 && char_is_whitespace(cs[e - 1])
            invariant
                e <= n,
                n == cs@.len(),
                back_white(cs@, 0, n as int) == back_white(cs@, 0, e as int),
            decreases e,
        {
            e = e - 1;
        }
        let mut r = String::from_str("---\n");
        r.append(yaml.substring_char(0, e));
        r.append("\n---\n");
        r.append(body);
        r
    }

    /// Splits a document into its trimmed front matter and its body.
    pub fn split_frontmatter(content: &str) -> (r: Option<(String, String)>)
        ensures
            match r {
                Some((y, b)) => frontmatter_parts(content@) == Some((y@, b@)),
                None => frontmatter_parts(content@) is None,
            },
    {
        let cs = chars_of(content);
        let n = cs.len();
        let s = skip_char_exec(&cs, '\u{feff}', 0);
        let dashes = chars_of("---");
        if !occurs_at_exec(&cs, &dashes, s) {
            return Some((String::new(), content.substring_char(s, n).to_owned()));
        }
        proof {
            reveal_strlit("---");
            reveal_strlit("\n---\n");
            reveal_strlit("\n---");
        }
        let t = s + 3;
        let close = chars_of("\n---\n");
        match find_exec(&cs, &close, t) {
            Some(i) => {
                proof {
                    lemma_found(cs@, close@, t as int);
                }
                let yaml = trimmed_part(content, &cs, t, i);
                let b = skip_char_exec(&cs, '\n', i + 5);
                Some((yaml, content.substring_char(b, n).to_owned()))
            },
            None => {
                let close_eof = chars_of("\n---");
                match find_exec(&cs, &close_eof, t) {
                    Some(j) => {
                        proof {
                            lemma_found(cs@, close_eof@, t as int);
                        }
                        if j + 4 < n {
                            None
                        } else {
                            Some((trimmed_part(content, &cs, t, j), String::new()))
                        }
                    },
                    None => None,
                }
            },
        }
    }
}

/// A found occurrence lies within the text, after the start of the search.
proof fn lemma_found(cs: Seq<char>, pat: Seq<char>, k: int)
    ensures
        find_from(cs, pat, k) >= 0 ==> k <= find_from(cs, pat, k) && find_from(cs, pat, k)
            + pat.len() <= cs.len(),
    decreases cs.len() + 1 - k,
{
    if k >= 0 && k + pat.len() <= cs.len() && !occurs_at(cs, pat, k) {
        lemma_found(cs, pat, k + 1);
    }
}

/// First index from `k` on whose character is not `c`.
fn skip_char_exec(cs: &Vec<char>, c: char, k: usize) -> (r: usize)
    ensures
        r == skip_char(cs@, c, k as int),
        r <= cs@.len(),
{
    if k >= cs.len() {
        return cs.len();
    }
    let mut i = k;
    while i < cs.len() && cs[i] == c
        invariant
            k <= i <= cs@.len(),
            skip_char(cs@, c, k as int) == skip_char(cs@, c, i as int),
        decreases cs@.len() - i,
    {
        i = i + 1;
    }
    i
}

/// Framing front matter and a body into a document and splitting it again
/// gives back the front matter, trimmed, and the body, as long as no line of
/// the front matter starts with `---` (which would close it early) and the
/// body does not start with a newline (which the split drops).
pub proof fn law_frontmatter_round_trip(yaml: Seq<char>, body: Seq<char>)
    requires
        forall|k: int| !occurs_at(seq!['\n'] + trim_end_of(yaml), "\n---"@, k),
        body.len() == 0 || body[0] != '\n',
    ensures
        frontmatter_parts(document(yaml, body)) == Some((trimmed(yaml), body)),
{
    reveal_strlit("---\n");
    reveal_strlit("\n---\n");
    reveal_strlit("---");
    reveal_strlit("\n---");
    let y = trim_end_of(yaml);
    let m = y.len() as int;
    let d = document(yaml, body);
    let n = d.len() as int;
    assert(n == 9 + m + body.len());
    assert(d[0] == '-');
    assert(skip_char(d, '\u{feff}', 0) == 0);
    assert(d.subrange(0, 3) =~= "---"@);
    let x = seq!['\n'] + y;
    assert(d.subrange(3, 4 + m) =~= x);
    assert(d.subrange(4 + m, 9 + m) =~= "\n---\n"@);
    assert forall|q: int| 3 <= q < 4 + m implies !occurs_at(d, "\n---\n"@, q) by {
        if occurs_at(d, "\n---\n"@, q) {
            let p = q - 3;
            if p + 4 <= m + 1 {
                assert forall|z: int| 0 <= z < 4 implies x.subrange(p, p + 4)[z] == "\n---"@[z] by {
                    assert(x[p + z] == d[q + z]);
                    assert(d.subrange(q, q + 5)[z] == d[q + z]);
                }
                assert(x.subrange(p, p + 4) =~= "\n---"@);
                assert(occurs_at(x, "\n---"@, p));
            } else {
                let z = 4 + m - q;
                assert(d[4 + m] == '\n');
                assert(d.subrange(q, q + 5)[z] == d[q + z]);
            }
        }
    }
    lemma_find_first(d, "\n---\n"@, 3, 4 + m);
    lemma_trim_of_range(d, 3, 4 + m);
    lemma_trimmed_after_white('\n', y);
    lemma_trimmed_of_trim_end(yaml);
    assert(skip_char(d, '\n', 9 + m) == 9 + m);
    assert(d.subrange(9 + m, n) =~= body);
}

} // verus!
