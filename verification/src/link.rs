//! Links between items inside Markdown bodies: `[text](<uuid>.md)` and
//! `[[<uuid>]]` / `[[<uuid>|text]]`, and the walk that counts the sub-items
//! an item reaches through them.
use std::ops::Range;
use vstd::prelude::*;

use crate::ids::{id_text, parse_id, parse_uuid, uuid_text};
use crate::selection::strip_md;
use crate::text::{
    byte_len, byte_pos, char_starts, chars_of, find_char_exec, find_char_from, find_exec,
    find_from, occurs_at, trim_bounds, trim_of,
};

verus! {

broadcast use vstd::string::group_string_axioms;

/// A link found in a body: its byte range, the item it targets and its text.
#[derive(Debug, PartialEq, Eq)]
pub struct LinkSpan {
    pub range: Range<usize>,
    pub target_id: u128,
    pub text: String,
}

impl Clone for LinkSpan {
    fn clone(&self) -> (r: Self)
        ensures
            r == *self,
    {
        LinkSpan {
            range: self.range.start..self.range.end,
            target_id: self.target_id,
            text: self.text.clone(),
        }
    }
}

/// The abstract value of a `LinkSpan`.
pub struct SpanView {
    pub start: int,
    pub end: int,
    pub target: u128,
    pub text: Seq<char>,
}

impl View for LinkSpan {
    type V = SpanView;

    open spec fn view(&self) -> SpanView {
        SpanView {
            start: self.range.start as int,
            end: self.range.end as int,
            target: self.target_id,
            text: self.text@,
        }
    }
}

/// The wiki link starting at character `k` (`[[` already seen): the character
/// index after it, its target and its text.
pub open spec fn wiki_at(cs: Seq<char>, k: int) -> Option<(int, u128, Seq<char>)> {
    let c = find_from(cs, "]]"@, k + 2);
    if c < 0 {
        None
    } else {
        let bar = find_char_from(cs, '|', k + 2);
        let split = 0 <= bar < c;
        let target = if split {
            trim_of(cs, k + 2, bar)
        } else {
            trim_of(cs, k + 2, c)
        };
        let text = if split {
            trim_of(cs, bar + 1, c)
        } else {
            trim_of(cs, k + 2, c)
        };
        match parse_uuid(strip_md(target)) {
            Some(id) => Some((c + 2, id, text)),
            None => None,
        }
    }
}

/// The Markdown link starting at character `k` (`[` already seen): the
/// character index after it, its target and its text.
pub open spec fn md_at(cs: Seq<char>, k: int) -> Option<(int, u128, Seq<char>)> {
    let cb = find_char_from(cs, ']', k + 1);
    if cb >= 0 && cb + 1 < cs.len() && cs[cb + 1] == '(' {
        let cp = find_char_from(cs, ')', cb + 2);
        if cp >= 0 {
            match parse_uuid(strip_md(trim_of(cs, cb + 2, cp))) {
                Some(id) => Some((cp + 1, id, cs.subrange(k + 1, cb))),
                None => None,
            }
        } else {
            None
        }
    } else {
        None
    }
}

/// The link starting at character `k`, if any: a wiki link when `[[` starts
/// there, else a Markdown link when `[` does.
pub open spec fn link_at(cs: Seq<char>, k: int) -> Option<(int, u128, Seq<char>)> {
    if k + 1 < cs.len() && cs[k] == '[' && cs[k + 1] == '[' {
        wiki_at(cs, k)
    } else if 0 <= k < cs.len() && cs[k] == '[' {
        md_at(cs, k)
    } else {
        None
    }
}

/// The links found scanning from character `k`: after a link the scan goes on
/// past its end, otherwise at the next character.
pub open spec fn links_from(cs: Seq<char>, k: int) -> Seq<SpanView>
    decreases cs.len() - k,
{
    if k < 0 || k >= cs.len() {
        Seq::empty()
    } else {
        match link_at(cs, k) {
            Some((e, id, text)) => {
                if k < e <= cs.len() {
                    seq![SpanView { start: byte_pos(cs, k), end: byte_pos(cs, e), target: id, text }]
                        + links_from(cs, e)
                } else {
                    Seq::empty()
                }
            },
            None => links_from(cs, k + 1),
        }
    }
}

/// The links of a body, in order.
pub open spec fn links_of(content: Seq<char>) -> Seq<SpanView> {
    links_from(content, 0)
}

/// The first link whose byte range holds `offset` (ends included).
pub open spec fn link_holding(spans: Seq<SpanView>, offset: int) -> Option<SpanView>
    decreases spans.len(),
{
    if spans.len() == 0 {
        None
    } else if spans[0].start <= offset && offset <= spans[0].end {
        Some(spans[0])
    } else {
        link_holding(spans.drop_first(), offset)
    }
}

/// `[text](<uuid>.md)`.
pub open spec fn markdown_link(text: Seq<char>, id: u128) -> Seq<char> {
    "["@ + text + "]("@ + uuid_text(id) + ".md)"@
}

proof fn lemma_find_bounds(cs: Seq<char>, pat: Seq<char>, k: int)
    ensures
        find_from(cs, pat, k) >= 0 ==> k <= find_from(cs, pat, k) && find_from(cs, pat, k)
            + pat.len() <= cs.len(),
        find_from(cs, pat, k) >= -1,
    decreases cs.len() + 1 - k,
{
    if k >= 0 && k + pat.len() <= cs.len() && !occurs_at(cs, pat, k) {
        lemma_find_bounds(cs, pat, k + 1);
    }
}

proof fn lemma_find_char_bounds(cs: Seq<char>, c: char, k: int)
    ensures
        find_char_from(cs, c, k) >= 0 ==> k <= find_char_from(cs, c, k) < cs.len() && cs[find_char_from(cs, c, k)] == c,
        find_char_from(cs, c, k) >= -1,
    decreases cs.len() - k,
{
    if k >= 0 && k < cs.len() && cs[k] != c {
        lemma_find_char_bounds(cs, c, k + 1);
    }
}

/// A link found at `k` ends after `k` and within the text.
proof fn lemma_link_end(cs: Seq<char>, k: int)
    requires
        0 <= k < cs.len(),
    ensures
        link_at(cs, k) matches Some((e, _, _)) ==> k < e <= cs.len(),
{
    reveal_strlit("]]");
    lemma_find_bounds(cs, "]]"@, k + 2);
    lemma_find_char_bounds(cs, ']', k + 1);
    let cb = find_char_from(cs, ']', k + 1);
    lemma_find_char_bounds(cs, ')', cb + 2);
}

/// `s` (characters `a..b` of it) with a trailing `.md` removed.
fn strip_md_part<'a>(s: &'a str, cs: &Vec<char>, a: usize, b: usize) -> (r: &'a str)
    requires
        cs@ == s@,
        a <= b <= cs@.len(),
    ensures
        r@ == strip_md(s@.subrange(a as int, b as int)),
{
    proof {
        reveal_strlit(".md");
    }
    let ghost t = s@.subrange(a as int, b as int);
    if b - a >= 3 && cs[b - 3] == '.' && cs[b - 2] == 'm' && cs[b - 1] == 'd' {
        assert(t.subrange(t.len() - 3, t.len() as int) =~= ".md"@);
        assert(t.subrange(0, t.len() - 3) =~= s@.subrange(a as int, b - 3));
        s.substring_char(a, b - 3)
    } else {
        proof {
            if t.len() >= 3 && t.subrange(t.len() - 3, t.len() as int) == ".md"@ {
                assert(t.subrange(t.len() - 3, t.len() as int)[0] == '.');
                assert(t.subrange(t.len() - 3, t.len() as int)[1] == 'm');
                assert(t.subrange(t.len() - 3, t.len() as int)[2] == 'd');
            }
        }
        s.substring_char(a, b)
    }
}

/// The target and text of the link starting at character `k`, if any.
fn link_at_exec(s: &str, cs: &Vec<char>, k: usize) -> (r: Option<(usize, u128, String)>)
    requires
        cs@ == s@,
        k < cs@.len(),
    ensures
        match r {
            Some((e, id, text)) => link_at(s@, k as int) == Some((e as int, id, text@)),
            None => link_at(s@, k as int) is None,
        },
{
    let n = cs.len();
    proof {
        reveal_strlit("]]");
    }
    if k + 1 < n && cs[k] == '[' && cs[k + 1] == '[' {
        let closing = chars_of("]]");
        match find_exec(cs, &closing, k + 2) {
            None => None,
            Some(c) => {
                proof {
                    lemma_find_bounds(cs@, closing@, k as int + 2);
                }
                let bar = find_char_exec(cs, '|', k + 2);
                let split = match bar {
                    Some(x) => x < c,
                    None => false,
                };
                let (target_a, target_b) = match bar {
                    Some(x) => if x < c {
                        trim_bounds(cs, k + 2, x)
                    } else {
                        trim_bounds(cs, k + 2, c)
                    },
                    None => trim_bounds(cs, k + 2, c),
                };
                let (text_a, text_b) = match bar {
                    Some(x) => if x < c {
                        trim_bounds(cs, x + 1, c)
                    } else {
                        trim_bounds(cs, k + 2, c)
                    },
                    None => trim_bounds(cs, k + 2, c),
                };
                let target = strip_md_part(s, cs, target_a, target_b);
                match parse_id(target) {
                    Some(id) => Some((c + 2, id, s.substring_char(text_a, text_b).to_owned())),
                    None => None,
                }
            },
        }
    } else if cs[k] == '[' {
        match find_char_exec(cs, ']', k + 1) {
            None => None,
            Some(cb) => {
                if cb + 1 < n && cs[cb + 1] == '(' {
                    match find_char_exec(cs, ')', cb + 2) {
                        None => None,
                        Some(cp) => {
                            let (ua, ub) = trim_bounds(cs, cb + 2, cp);
                            let target = strip_md_part(s, cs, ua, ub);
                            match parse_id(target) {
                                Some(id) => Some(
                                    (cp + 1, id, s.substring_char(k + 1, cb).to_owned()),
                                ),
                                None => None,
                            }
                        },
                    }
                } else {
                    None
                }
            },
        }
    } else {
        None
    }
}

/// `[text](<uuid>.md)`, the Markdown link to an item.
pub fn format_markdown_link(text: &str, id: u128) -> (r: String)
    ensures
        r@ == markdown_link(text@, id),
{
    let mut r = String::from_str("[");
    r.append(text);
    r.append("](");
    let name = id_text(id);
    r.append(name.as_str());
    r.append(".md)");
    r
}

/// The links of `content`, in order, with byte ranges.
pub fn extract_link_spans(content: &str) -> (r: Vec<LinkSpan>)
    ensures
        r@.map_values(|s: LinkSpan| s@) == links_of(content@),
{
    let cs = chars_of(content);
    let total = byte_len(content);
    let p = char_starts(&cs, total);
    let n = cs.len();
    let mut spans: Vec<LinkSpan> = Vec::new();
    let mut k: usize = 0;
    while k < n
        invariant
            n == cs@.len(),
            cs@ == content@,
            k <= n,
            p@.len() == n + 1,
            forall|j: int| 0 <= j <= n ==> p@[j] == byte_pos(cs@, j),
            links_of(content@) == spans@.map_values(|s: LinkSpan| s@) + links_from(
                content@,
                k as int,
            ),
        decreases n - k,
    {
        proof {
            lemma_link_end(cs@, k as int);
        }
        let ghost before = spans@.map_values(|s: LinkSpan| s@);
        match link_at_exec(content, &cs, k) {
            Some((e, id, text)) => {
                let span = LinkSpan { range: p[k]..p[e], target_id: id, text };
                let ghost sv = span@;
                spans.push(span);
                proof {
                    assert(spans@.map_values(|s: LinkSpan| s@) =~= before.push(sv));
                    assert(before.push(sv) + links_from(content@, e as int) =~= before + (seq![sv]
                        + links_from(content@, e as int)));
                }
                k = e;
            },
            None => {
                k = k + 1;
            },
        }
    }
    assert(links_from(content@, n as int) =~= Seq::<SpanView>::empty());
    assert(spans@.map_values(|s: LinkSpan| s@) + Seq::<SpanView>::empty() =~= spans@.map_values(
        |s: LinkSpan| s@,
    ));
    spans
}

/// The first link whose byte range holds `offset`, ends included.
pub fn find_link_at_offset(content: &str, offset: usize) -> (r: Option<LinkSpan>)
    ensures
        match r {
            Some(s) => link_holding(links_of(content@), offset as int) == Some(s@),
            None => link_holding(links_of(content@), offset as int) is None,
        },
{
    let spans = extract_link_spans(content);
    let ghost views = spans@.map_values(|s: LinkSpan| s@);
    let mut i: usize = 0;
    assert(views.subrange(0, views.len() as int) =~= views);
    while i < spans.len()
        invariant
            i <= spans@.len(),
            views == spans@.map_values(|s: LinkSpan| s@),
            views == links_of(content@),
            link_holding(views, offset as int) == link_holding(
                views.subrange(i as int, views.len() as int),
                offset as int,
            ),
        decreases spans@.len() - i,
    {
        assert(views.subrange(i as int, views.len() as int).drop_first() =~= views.subrange(
            i as int + 1,
            views.len() as int,
        ));
        assert(views.subrange(i as int, views.len() as int)[0] == spans@[i as int]@);
        let s = &spans[i];
        if s.range.start <= offset && offset <= s.range.end {
            return Some(s.clone());
        }
        i = i + 1;
    }
    None
}

/// The targets of the links of `body`, in order.
pub fn extract_links(body: &str) -> (r: Vec<u128>)
    ensures
        r@ == links_of(body@).map_values(|s: SpanView| s.target),
{
    let spans = extract_link_spans(body);
    let ghost views = spans@.map_values(|s: LinkSpan| s@);
    let mut r: Vec<u128> = Vec::new();
    let mut i: usize = 0;
    while i < spans.len()
        invariant
            i <= spans@.len(),
            views == spans@.map_values(|s: LinkSpan| s@),
            r@ == views.take(i as int).map_values(|s: SpanView| s.target),
        decreases spans@.len() - i,
    {
        r.push(spans[i].target_id);
        assert(views.take(i as int + 1).map_values(|s: SpanView| s.target) =~= views.take(
            i as int,
        ).map_values(|s: SpanView| s.target).push(spans@[i as int].target_id));
        i = i + 1;
    }
    assert(views.take(i as int) =~= views);
    r
}

/// `seen` followed by the identifiers of `ids` it does not hold yet, each
/// once, in order of first appearance.
pub open spec fn add_unseen(seen: Seq<u128>, ids: Seq<u128>) -> Seq<u128>
    decreases ids.len(),
{
    if ids.len() == 0 {
        seen
    } else {
        let v = add_unseen(seen, ids.drop_last());
        if v.contains(ids.last()) {
            v
        } else {
            v.push(ids.last())
        }
    }
}

/// No identifier occurs twice.
pub open spec fn distinct(s: Seq<u128>) -> bool {
    forall|i: int, j: int| 0 <= i < j < s.len() ==> s[i] != s[j]
}

/// The abstract state of a `SubitemWalk`.
pub struct WalkView {
    /// Items found so far, the root first.
    pub visited: Seq<u128>,
    /// Items found whose body is still to be read, the next one last.
    pub stack: Seq<u128>,
    /// The root's body is still to be read.
    pub root_pending: bool,
}

/// Counting the sub-items an item reaches through links, each once however
/// many paths or cycles lead to it. The caller reads the body of each item the
/// walk asks for and hands it back; the walk decides what to read next.
pub struct SubitemWalk {
    visited: Vec<u128>,
    stack: Vec<u128>,
    root_pending: bool,
}

impl View for SubitemWalk {
    type V = WalkView;

    closed spec fn view(&self) -> WalkView {
        WalkView { visited: self.visited@, stack: self.stack@, root_pending: self.root_pending }
    }
}

impl WalkView {
    /// The root is known, nothing is found twice, and every item waiting to be
    /// read has been found.
    pub open spec fn well_formed(self) -> bool {
        &&& self.visited.len() >= 1
        &&& distinct(self.visited)
        &&& forall|i: int| 0 <= i < self.stack.len() ==> self.visited.contains(#[trigger] self.stack[i])
    }
}

proof fn lemma_add_unseen(seen: Seq<u128>, ids: Seq<u128>)
    requires
        distinct(seen),
    ensures
        distinct(add_unseen(seen, ids)),
        add_unseen(seen, ids).len() >= seen.len(),
        add_unseen(seen, ids).subrange(0, seen.len() as int) == seen,
    decreases ids.len(),
{
    if ids.len() > 0 {
        lemma_add_unseen(seen, ids.drop_last());
        let v = add_unseen(seen, ids.drop_last());
        assert(v.push(ids.last()).subrange(0, seen.len() as int) =~= v.subrange(0, seen.len() as int));
    }
}

/// Whether `v` holds `id`.
fn holds(v: &Vec<u128>, id: u128) -> (r: bool)
    ensures
        r == v@.contains(id),
{
    let mut i: usize = 0;
    while i < v.len()
        invariant
            i <= v@.len(),
            forall|j: int| 0 <= j < i ==> v@[j] != id,
        decreases v@.len() - i,
    {
        if v[i] == id {
            return true;
        }
        i = i + 1;
    }
    false
}

impl SubitemWalk {
    /// A walk from `root`, which is found but not read yet.
    pub fn new(root: u128) -> (r: Self)
        ensures
            r@ == (WalkView { visited: seq![root], stack: Seq::empty(), root_pending: true }),
            r@.well_formed(),
    {
        let mut visited = Vec::new();
        visited.push(root);
        let r = SubitemWalk { visited, stack: Vec::new(), root_pending: true };
        assert(r@.visited =~= seq![root]);
        assert(r@.stack =~= Seq::<u128>::empty());
        r
    }

    /// The next item whose body to read: the root first, then the most
    /// recently found item not read yet; `None` when the walk is over.
    pub fn next_item(&mut self) -> (r: Option<u128>)
        requires
            old(self)@.well_formed(),
        ensures
            final(self)@.well_formed(),
            final(self)@.visited == old(self)@.visited,
            old(self)@.root_pending ==> r == Some(old(self)@.visited[0]) && final(self)@ == (
            WalkView { root_pending: false, ..old(self)@ }),
            !old(self)@.root_pending && old(self)@.stack.len() > 0 ==> r == Some(
                old(self)@.stack.last(),
            ) && final(self)@ == (WalkView { stack: old(self)@.stack.drop_last(), ..old(self)@ }),
            !old(self)@.root_pending && old(self)@.stack.len() == 0 ==> r is None && final(self)@
                == old(self)@,
    {
        if self.root_pending {
            self.root_pending = false;
            return Some(self.visited[0]);
        }
        let ghost before = self@;
        let r = self.stack.pop();
        proof {
            if before.stack.len() > 0 {
                assert forall|i: int| 0 <= i < self@.stack.len() implies self@.visited.contains(
                    #[trigger] self@.stack[i],
                ) by {
                    assert(self@.stack[i] == before.stack[i]);
                }
            }
        }
        r
    }

    /// Hands over the body of the item last asked for (`None` when it could
    /// not be read): the targets of its links not found before are found now
    /// and wait to be read.
    pub fn record(&mut self, body: Option<&str>)
        requires
            old(self)@.well_formed(),
        ensures
            final(self)@.well_formed(),
            final(self)@.root_pending == old(self)@.root_pending,
            match body {
                Some(b) => {
                    let v = add_unseen(
                        old(self)@.visited,
                        links_of(b@).map_values(|s: SpanView| s.target),
                    );
                    &&& final(self)@.visited == v
                    &&& final(self)@.stack == old(self)@.stack + v.subrange(
                        old(self)@.visited.len() as int,
                        v.len() as int,
                    )
                },
                None => final(self)@ == old(self)@,
            },
    {
        match body {
            None => {},
            Some(b) => {
                let ids = extract_links(b);
                let ghost v0 = self@.visited;
                let ghost s0 = self@.stack;
                let mut i: usize = 0;
                proof {
                    assert(ids@.take(0) =~= Seq::<u128>::empty());
                    assert(v0.subrange(v0.len() as int, v0.len() as int) =~= Seq::<u128>::empty());
                    assert(s0 + Seq::<u128>::empty() =~= s0);
                }
                while i < ids.len()
                    invariant
                        i <= ids@.len(),
                        distinct(v0),
                        v0.len() >= 1,
                        forall|j: int| 0 <= j < s0.len() ==> v0.contains(#[trigger] s0[j]),
                        self.visited@ == add_unseen(v0, ids@.take(i as int)),
                        self.stack@ == s0 + self.visited@.subrange(
                            v0.len() as int,
                            self.visited@.len() as int,
                        ),
                        self.root_pending == old(self).root_pending,
                    decreases ids@.len() - i,
                {
                    let id = ids[i];
                    assert(ids@.take(i as int + 1).drop_last() =~= ids@.take(i as int));
                    proof {
                        lemma_add_unseen(v0, ids@.take(i as int));
                    }
                    if !holds(&self.visited, id) {
                        let ghost vb = self.visited@;
                        self.visited.push(id);
                        self.stack.push(id);
                        assert(self.visited@.subrange(v0.len() as int, self.visited@.len() as int)
                            =~= vb.subrange(v0.len() as int, vb.len() as int).push(id));
                    }
                    i = i + 1;
                }
                assert(ids@.take(i as int) =~= ids@);
                proof {
                    lemma_add_unseen(v0, ids@);
                    let v = self.visited@;
                    assert forall|j: int| 0 <= j < self@.stack.len() implies v.contains(
                        #[trigger] self@.stack[j],
                    ) by {
                        if j < s0.len() {
                            let w = choose|w: int| 0 <= w < v0.len() && v0[w] == s0[j];
                            assert(v[w] == v0[w]);
                        } else {
                            assert(self@.stack[j] == v[v0.len() + (j - s0.len())]);
                        }
                    }
                }
            },
        }
    }

    /// The number of sub-items found: all items found but the root.
    pub fn count(&self) -> (r: usize)
        requires
            self@.well_formed(),
        ensures
            r == self@.visited.len() - 1,
    {
        self.visited.len() - 1
    }
}

// ---------------------------------------------------------------------------
// What the sub-item walk counts
// ---------------------------------------------------------------------------

/// The identifiers an item links to, when it can be read (`bodies` holds
/// the bodies of the items that can).
pub open spec fn children(bodies: Map<u128, Seq<char>>, id: u128) -> Seq<u128> {
    if bodies.dom().contains(id) {
        links_of(bodies[id]).map_values(|s: SpanView| s.target)
    } else {
        seq![]
    }
}

/// `id` is reached from `root` by following at most `n` links.
pub open spec fn reach_in(bodies: Map<u128, Seq<char>>, root: u128, n: nat, id: u128) -> bool
    decreases n,
{
    if n == 0 {
        id == root
    } else {
        reach_in(bodies, root, (n - 1) as nat, id) || exists|p: u128|
            reach_in(bodies, root, (n - 1) as nat, p) && #[trigger] children(bodies, p).contains(
                id,
            )
    }
}

/// The items reached from `root` by following links, `root` included.
pub open spec fn reachable_set(bodies: Map<u128, Seq<char>>, root: u128) -> Set<u128> {
    Set::new(|id: u128| exists|n: nat| reach_in(bodies, root, n, id))
}

/// One round of the walk as its user drives it: `next_item`, then `record`
/// with the body of the item it names (or nothing when it cannot be read).
pub open spec fn walk_step(w: WalkView, bodies: Map<u128, Seq<char>>) -> WalkView {
    let id = if w.root_pending {
        w.visited[0]
    } else {
        w.stack.last()
    };
    let w1 = if w.root_pending {
        WalkView { root_pending: false, ..w }
    } else {
        WalkView { stack: w.stack.drop_last(), ..w }
    };
    if bodies.dom().contains(id) {
        let v = add_unseen(w1.visited, children(bodies, id));
        WalkView {
            visited: v,
            stack: w1.stack + v.subrange(w1.visited.len() as int, v.len() as int),
            root_pending: w1.root_pending,
        }
    } else {
        w1
    }
}

/// The walk has nothing left to read: `next_item` gives `None`.
pub open spec fn walk_done(w: WalkView) -> bool {
    !w.root_pending && w.stack.len() == 0
}

/// `id` has been found but not read yet.
pub open spec fn waiting(w: WalkView, id: u128) -> bool {
    (w.root_pending && id == w.visited[0]) || w.stack.contains(id)
}

/// What holds at every round of a walk from `root`: everything found is
/// reached from `root`, and every item found and already read has all its
/// links found.
pub open spec fn walk_inv(w: WalkView, bodies: Map<u128, Seq<char>>, root: u128) -> bool {
    &&& w.well_formed()
    &&& w.visited[0] == root
    &&& forall|i: int|
        0 <= i < w.visited.len() ==> reachable_set(bodies, root).contains(#[trigger] w.visited[i])
    &&& forall|i: int, c: u128|
        0 <= i < w.visited.len() && !waiting(w, w.visited[i]) && #[trigger] children(
            bodies,
            w.visited[i],
        ).contains(c) ==> w.visited.contains(c)
}

proof fn lemma_add_unseen_holds(seen: Seq<u128>, ids: Seq<u128>)
    ensures
        forall|j: int| 0 <= j < ids.len() ==> add_unseen(seen, ids).contains(#[trigger] ids[j]),
        forall|x: u128| #[trigger]
            add_unseen(seen, ids).contains(x) ==> seen.contains(x) || ids.contains(x),
        forall|x: u128| seen.contains(x) ==> #[trigger] add_unseen(seen, ids).contains(x),
    decreases ids.len(),
{
    if ids.len() > 0 {
        let init = ids.drop_last();
        lemma_add_unseen_holds(seen, init);
        let v = add_unseen(seen, init);
        assert forall|j: int| 0 <= j < ids.len() implies add_unseen(seen, ids).contains(
            #[trigger] ids[j],
        ) by {
            if j < ids.len() - 1 {
                assert(ids[j] == init[j]);
                assert(v.contains(init[j]));
                if !v.contains(ids.last()) {
                    let k = choose|k: int| 0 <= k < v.len() && v[k] == init[j];
                    assert(v.push(ids.last())[k] == init[j]);
                }
            } else {
                if !v.contains(ids.last()) {
                    assert(v.push(ids.last())[v.len() as int] == ids.last());
                }
            }
        }
        assert forall|x: u128| #[trigger] add_unseen(seen, ids).contains(x) implies seen.contains(x)
            || ids.contains(x) by {
            if !v.contains(x) {
                assert(x == ids.last());
                assert(ids[ids.len() - 1] == x);
            } else if !seen.contains(x) {
                let j = choose|j: int| 0 <= j < init.len() && init[j] == x;
                assert(ids[j] == x);
            }
        }
        assert forall|x: u128| seen.contains(x) implies #[trigger] add_unseen(seen, ids).contains(
            x,
        ) by {
            assert(v.contains(x));
            if !v.contains(ids.last()) {
                let k = choose|k: int| 0 <= k < v.len() && v[k] == x;
                assert(v.push(ids.last())[k] == x);
            }
        }
    }
}

/// A walk starts in its invariant.
pub proof fn law_walk_start(bodies: Map<u128, Seq<char>>, root: u128)
    ensures
        walk_inv(WalkView { visited: seq![root], stack: seq![], root_pending: true }, bodies, root),
{
    assert(reach_in(bodies, root, 0, root));
    assert(reachable_set(bodies, root).contains(root));
}

/// Every round keeps the invariant.
pub proof fn law_walk_step(w: WalkView, bodies: Map<u128, Seq<char>>, root: u128)
    requires
        walk_inv(w, bodies, root),
        !walk_done(w),
    ensures
        walk_inv(walk_step(w, bodies), bodies, root),
{
    let id = if w.root_pending {
        w.visited[0]
    } else {
        w.stack.last()
    };
    let w1 = if w.root_pending {
        WalkView { root_pending: false, ..w }
    } else {
        WalkView { stack: w.stack.drop_last(), ..w }
    };
    assert(w.visited.contains(id)) by {
        if w.root_pending {
            assert(w.visited[0] == id);
        } else {
            assert(w.stack[w.stack.len() - 1] == id);
        }
    }
    let iid = choose|i: int| 0 <= i < w.visited.len() && w.visited[i] == id;
    assert(reachable_set(bodies, root).contains(id));
    let n = choose|n: nat| reach_in(bodies, root, n, id);
    assert(w1.well_formed()) by {
        assert forall|i: int| 0 <= i < w1.stack.len() implies w1.visited.contains(
            #[trigger] w1.stack[i],
        ) by {
            assert(w1.stack[i] == w.stack[i]);
        }
    }
    // Whatever waits in `w1` also waits in `w`, or is `id`.
    assert forall|x: u128| waiting(w, x) && x != id implies waiting(w1, x) by {
        if !w.root_pending {
            let k = choose|k: int| 0 <= k < w.stack.len() && w.stack[k] == x;
            assert(k != w.stack.len() - 1);
            assert(w1.stack[k] == x);
        }
    }
    let after = walk_step(w, bodies);
    if bodies.dom().contains(id) {
        let kids = children(bodies, id);
        let v = add_unseen(w1.visited, kids);
        lemma_add_unseen(w1.visited, kids);
        lemma_add_unseen_holds(w1.visited, kids);
        let fresh = v.subrange(w1.visited.len() as int, v.len() as int);
        assert(after.visited == v && after.stack == w1.stack + fresh);
        assert forall|i: int| 0 <= i < v.len() implies w1.visited.contains(#[trigger] v[i])
            || fresh.contains(v[i]) by {
            if i < w1.visited.len() {
                assert(v.subrange(0, w1.visited.len() as int)[i] == v[i]);
            } else {
                assert(fresh[i - w1.visited.len()] == v[i]);
            }
        }
        // well-formedness
        assert(v[0] == w.visited[0]) by {
            assert(v.subrange(0, w1.visited.len() as int)[0] == v[0]);
        }
        assert forall|i: int| 0 <= i < after.stack.len() implies after.visited.contains(
            #[trigger] after.stack[i],
        ) by {
            if i < w1.stack.len() {
                assert(after.stack[i] == w1.stack[i]);
                assert(w1.visited.contains(w1.stack[i]));
            } else {
                let q = i - w1.stack.len();
                assert(after.stack[i] == fresh[q]);
                assert(fresh[q] == v[w1.visited.len() + q]);
            }
        }
        // everything found is reached
        assert forall|i: int| 0 <= i < v.len() implies reachable_set(bodies, root).contains(
            #[trigger] v[i],
        ) by {
            if w1.visited.contains(v[i]) {
                let j = choose|j: int| 0 <= j < w.visited.len() && w.visited[j] == v[i];
                assert(reachable_set(bodies, root).contains(w.visited[j]));
            } else {
                assert(v.contains(v[i]));
                assert(kids.contains(v[i]));
                assert(reach_in(bodies, root, n + 1, v[i]));
            }
        }
        // read items have all their links found
        assert forall|i: int, c: u128|
            0 <= i < v.len() && !waiting(after, v[i]) && #[trigger] children(bodies, v[i]).contains(
                c,
            ) implies v.contains(c) by {
            if v[i] == id {
                let j = choose|j: int| 0 <= j < kids.len() && kids[j] == c;
                assert(v.contains(kids[j]));
            } else if w1.visited.contains(v[i]) {
                let j = choose|j: int| 0 <= j < w.visited.len() && w.visited[j] == v[i];
                if waiting(w, v[i]) {
                    assert(waiting(w1, v[i]));
                    if w1.stack.contains(v[i]) {
                        let k = choose|k: int| 0 <= k < w1.stack.len() && w1.stack[k] == v[i];
                        assert(after.stack[k] == v[i]);
                    }
                    assert(waiting(after, v[i]));
                }
                assert(w.visited.contains(c));
                assert(w1.visited.contains(c));
            } else {
                assert(fresh.contains(v[i]));
                let k = choose|k: int| 0 <= k < fresh.len() && fresh[k] == v[i];
                assert(after.stack[w1.stack.len() + k] == v[i]);
                assert(waiting(after, v[i]));
            }
        }
    } else {
        assert(after == w1);
        assert forall|i: int, c: u128|
            0 <= i < w1.visited.len() && !waiting(w1, w1.visited[i]) && #[trigger] children(
                bodies,
                w1.visited[i],
            ).contains(c) implies w1.visited.contains(c) by {
            if w1.visited[i] == id {
                assert(children(bodies, id) == Seq::<u128>::empty());
            }
        }
    }
}

/// When the walk is done, it has found exactly the items reached from
/// `root`: `count()` is their number less the root, each counted once, and
/// links that loop back are not followed again.
pub proof fn law_walk_done(w: WalkView, bodies: Map<u128, Seq<char>>, root: u128)
    requires
        walk_inv(w, bodies, root),
        walk_done(w),
    ensures
        w.visited.to_set() == reachable_set(bodies, root),
        w.visited.len() == reachable_set(bodies, root).len(),
        reachable_set(bodies, root).finite(),
{
    assert forall|id: u128| reachable_set(bodies, root).contains(id) implies w.visited.contains(
        id,
    ) by {
        let n = choose|n: nat| reach_in(bodies, root, n, id);
        lemma_reached_found(w, bodies, root, n, id);
    }
    assert forall|id: u128| w.visited.contains(id) implies reachable_set(bodies, root).contains(id) by {
        let i = choose|i: int| 0 <= i < w.visited.len() && w.visited[i] == id;
    }
    assert(w.visited.to_set() =~= reachable_set(bodies, root));
    assert(w.visited.no_duplicates()) by {
        assert forall|i: int, j: int|
            0 <= i < w.visited.len() && 0 <= j < w.visited.len() && i != j implies w.visited[i]
            != w.visited[j] by {
            if i > j {
                assert(w.visited[j] != w.visited[i]);
            }
        }
    }
    w.visited.unique_seq_to_set();
}

proof fn lemma_reached_found(
    w: WalkView,
    bodies: Map<u128, Seq<char>>,
    root: u128,
    n: nat,
    id: u128,
)
    requires
        walk_inv(w, bodies, root),
        walk_done(w),
        reach_in(bodies, root, n, id),
    ensures
        w.visited.contains(id),
    decreases n,
{
    if n == 0 {
        assert(w.visited[0] == id);
    } else if reach_in(bodies, root, (n - 1) as nat, id) {
        lemma_reached_found(w, bodies, root, (n - 1) as nat, id);
    } else {
        let p = choose|p: u128|
            reach_in(bodies, root, (n - 1) as nat, p) && #[trigger] children(bodies, p).contains(
                id,
            );
        lemma_reached_found(w, bodies, root, (n - 1) as nat, p);
        let i = choose|i: int| 0 <= i < w.visited.len() && w.visited[i] == p;
        assert(!waiting(w, p));
        assert(children(bodies, w.visited[i]).contains(id));
    }
}

/// How much of a walk is left: twice the items not found yet, plus those
/// found but not read.
pub open spec fn walk_left(w: WalkView, bodies: Map<u128, Seq<char>>, root: u128) -> int {
    2 * (reachable_set(bodies, root).len() - w.visited.len()) + w.stack.len() + if w.root_pending {
        1int
    } else {
        0int
    }
}

/// Found items are reachable and distinct, so there are no more of them
/// than reachable items.
proof fn lemma_found_bounded(w: WalkView, bodies: Map<u128, Seq<char>>, root: u128)
    requires
        walk_inv(w, bodies, root),
        reachable_set(bodies, root).finite(),
    ensures
        w.visited.len() <= reachable_set(bodies, root).len(),
{
    assert(w.visited.no_duplicates()) by {
        assert forall|i: int, j: int|
            0 <= i < w.visited.len() && 0 <= j < w.visited.len() && i != j implies w.visited[i]
            != w.visited[j] by {
            if i > j {
                assert(w.visited[j] != w.visited[i]);
            }
        }
    }
    w.visited.unique_seq_to_set();
    assert forall|x: u128| w.visited.to_set().contains(x) implies reachable_set(
        bodies,
        root,
    ).contains(x) by {
        let i = choose|i: int| 0 <= i < w.visited.len() && w.visited[i] == x;
    }
    vstd::set_lib::lemma_len_subset(w.visited.to_set(), reachable_set(bodies, root));
}

/// When finitely many items are reachable the walk ends: every round that
/// is not the last lowers what is left, which never falls below zero.
pub proof fn law_walk_ends(w: WalkView, bodies: Map<u128, Seq<char>>, root: u128)
    requires
        walk_inv(w, bodies, root),
        !walk_done(w),
        reachable_set(bodies, root).finite(),
    ensures
        0 <= walk_left(walk_step(w, bodies), bodies, root) < walk_left(w, bodies, root),
{
    law_walk_step(w, bodies, root);
    lemma_found_bounded(walk_step(w, bodies), bodies, root);
    let id = if w.root_pending {
        w.visited[0]
    } else {
        w.stack.last()
    };
    let w1 = if w.root_pending {
        WalkView { root_pending: false, ..w }
    } else {
        WalkView { stack: w.stack.drop_last(), ..w }
    };
    if bodies.dom().contains(id) {
        lemma_add_unseen(w1.visited, children(bodies, id));
    }
}

} // verus!
