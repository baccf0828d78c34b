//! Helpers over UTF-8 text shared by the editing and parsing modules.
//!
//! Offsets into text are byte offsets into its UTF-8 encoding, as with Rust's
//! `str`. The spec functions here relate the character view of a string
//! (`s@`) to those byte offsets.
use vstd::prelude::*;
use vstd::string::*;
use vstd::utf8::*;

verus! {

broadcast use vstd::string::group_string_axioms;

/// The UTF-8 bytes of a character sequence.
pub open spec fn utf8(cs: Seq<char>) -> Seq<u8> {
    encode_utf8(cs)
}

/// Number of bytes in the UTF-8 encoding of one character.
pub open spec fn w8(c: char) -> int {
    let v = c as u32;
    if v < 0x80 {
        1
    } else if v < 0x800 {
        2
    } else if v < 0x10000 {
        3
    } else {
        4
    }
}

/// Number of UTF-16 code units of one character.
pub open spec fn w16(c: char) -> int {
    if (c as u32) < 0x10000 {
        1
    } else {
        2
    }
}

/// Byte length of the UTF-8 encoding of a character sequence.
pub open spec fn utf8_len(cs: Seq<char>) -> int
    decreases cs.len(),
{
    if cs.len() == 0 {
        0
    } else {
        utf8_len(cs.drop_last()) + w8(cs.last())
    }
}

/// Number of UTF-16 code units of a character sequence.
pub open spec fn utf16_len(cs: Seq<char>) -> int
    decreases cs.len(),
{
    if cs.len() == 0 {
        0
    } else {
        utf16_len(cs.drop_last()) + w16(cs.last())
    }
}

/// Byte offset at which character `k` of `cs` starts.
pub open spec fn byte_pos(cs: Seq<char>, k: int) -> int {
    utf8_len(cs.take(k))
}

/// True when byte offset `i` of `b` starts a character or is the end of `b`.
pub open spec fn is_boundary(b: Seq<u8>, i: int) -> bool {
    i == b.len() || (0 <= i < b.len() && !is_continuation_byte(b[i]))
}

/// The character has the Unicode White_Space property (the list of
/// PropList.txt, which is what `char::is_whitespace` tests).
pub open spec fn is_white(c: char) -> bool {
    let v = c as u32;
    ||| 9 <= v <= 13
    ||| v == 0x20
    ||| v == 0x85
    ||| v == 0xa0
    ||| v == 0x1680
    ||| 0x2000 <= v <= 0x200a
    ||| v == 0x2028
    ||| v == 0x2029
    ||| v == 0x202f
    ||| v == 0x205f
    ||| v == 0x3000
}

/// `char::is_alphanumeric`: the character is alphabetic or numeric in Unicode.
pub uninterp spec fn is_alnum(c: char) -> bool;

/// Whether `c` is white space, as `char::is_whitespace` answers.
pub fn char_is_whitespace(c: char) -> (r: bool)
    ensures
        r == is_white(c),
{
    let v = c as u32;
    (9 <= v && v <= 13) || v == 0x20 || v == 0x85 || v == 0xa0 || v == 0x1680 || (0x2000 <= v
        && v <= 0x200a) || v == 0x2028 || v == 0x2029 || v == 0x202f || v == 0x205f || v == 0x3000
}

/// Calls `char::is_alphanumeric`. Claimed: the answer is a function of the
/// character alone (named by `is_alnum`).
#[verifier::external_body]
pub fn char_is_alphanumeric(c: char) -> (r: bool)
    ensures
        r == is_alnum(c),
{
    c.is_alphanumeric()
}

/// Index of the first non-whitespace character in `a..b`, or `b`.
pub open spec fn skip_white(cs: Seq<char>, a: int, b: int) -> int
    decreases b - a,
{
    if a >= b {
        b
    } else if is_white(cs[a]) {
        skip_white(cs, a + 1, b)
    } else {
        a
    }
}

/// One past the last non-whitespace character in `a..b`, or `a`.
pub open spec fn back_white(cs: Seq<char>, a: int, b: int) -> int
    decreases b - a,
{
    if b <= a {
        a
    } else if is_white(cs[b - 1]) {
        back_white(cs, a, b - 1)
    } else {
        b
    }
}

/// `cs[a..b]` without leading and trailing whitespace, as `str::trim` gives.
pub open spec fn trim_of(cs: Seq<char>, a: int, b: int) -> Seq<char> {
    let s = skip_white(cs, a, b);
    cs.subrange(s, back_white(cs, s, b))
}

/// The whole of `cs` trimmed.
pub open spec fn trimmed(cs: Seq<char>) -> Seq<char> {
    trim_of(cs, 0, cs.len() as int)
}

/// `pat` occurs in `cs` at index `k`.
pub open spec fn occurs_at(cs: Seq<char>, pat: Seq<char>, k: int) -> bool {
    0 <= k && k + pat.len() <= cs.len() && cs.subrange(k, k + pat.len() as int) == pat
}

/// Index of the first occurrence of `pat` in `cs` at or after `k`, or -1.
pub open spec fn find_from(cs: Seq<char>, pat: Seq<char>, k: int) -> int
    decreases cs.len() + 1 - k,
{
    if k < 0 || k + pat.len() > cs.len() {
        -1
    } else if occurs_at(cs, pat, k) {
        k
    } else {
        find_from(cs, pat, k + 1)
    }
}

/// Index of the first `c` in `cs` at or after `k`, or -1.
pub open spec fn find_char_from(cs: Seq<char>, c: char, k: int) -> int
    decreases cs.len() - k,
{
    if k < 0 || k >= cs.len() {
        -1
    } else if cs[k] == c {
        k
    } else {
        find_char_from(cs, c, k + 1)
    }
}

pub proof fn lemma_skip_white(cs: Seq<char>, a: int, b: int)
    requires
        0 <= a <= b <= cs.len(),
    ensures
        a <= skip_white(cs, a, b) <= b,
    decreases b - a,
{
    if a < b {
        lemma_skip_white(cs, a + 1, b);
    }
}

pub proof fn lemma_back_white(cs: Seq<char>, a: int, b: int)
    requires
        0 <= a <= b <= cs.len(),
    ensures
        a <= back_white(cs, a, b) <= b,
    decreases b - a,
{
    if a < b {
        lemma_back_white(cs, a, b - 1);
    }
}

/// Bounds of `cs[a..b]` without surrounding whitespace.
pub fn trim_bounds(cs: &Vec<char>, a: usize, b: usize) -> (r: (usize, usize))
    requires
        a <= b <= cs@.len(),
    ensures
        r.0 == skip_white(cs@, a as int, b as int),
        r.1 == back_white(cs@, r.0 as int, b as int),
        a <= r.0 <= r.1 <= b,
{
    let mut s = a;
    while s < b && char_is_whitespace(cs[s])
        invariant
            a <= s <= b <= cs@.len(),
            skip_white(cs@, a as int, b as int) == skip_white(cs@, s as int, b as int),
        decreases b - s,
    {
        s = s + 1;
    }
    let mut e = b;
    while e > s && char_is_whitespace(cs[e - 1])
        invariant
            s <= e <= b <= cs@.len(),
            back_white(cs@, s as int, b as int) == back_white(cs@, s as int, e as int),
        decreases e - s,
    {
        e = e - 1;
    }
    (s, e)
}

/// The characters of `s[a..b]` (character indices) without surrounding
/// whitespace, as an owned string.
pub fn trimmed_part(s: &str, cs: &Vec<char>, a: usize, b: usize) -> (r: String)
    requires
        cs@ == s@,
        a <= b <= cs@.len(),
    ensures
        r@ == trim_of(s@, a as int, b as int),
{
    let (x, y) = trim_bounds(cs, a, b);
    s.substring_char(x, y).to_owned()
}

/// `pat` occurs in `cs` at `k`.
pub fn occurs_at_exec(cs: &Vec<char>, pat: &Vec<char>, k: usize) -> (r: bool)
    ensures
        r == occurs_at(cs@, pat@, k as int),
{
    if pat.len() > cs.len() || k > cs.len() - pat.len() {
        return false;
    }
    let n = cs.len();
    let mut j: usize = 0;
    while j < pat.len()
        invariant
            n == cs@.len(),
            k + pat@.len() <= cs@.len(),
            j <= pat@.len(),
            forall|i: int| 0 <= i < j ==> cs@[k + i] == pat@[i],
        decreases pat@.len() - j,
    {
        if cs[k + j] != pat[j] {
            assert(cs@.subrange(k as int, k + pat@.len())[j as int] != pat@[j as int]);
            return false;
        }
        j = j + 1;
    }
    assert(cs@.subrange(k as int, k + pat@.len()) =~= pat@);
    true
}

/// First occurrence of `pat` in `cs` at or after `k`.
pub fn find_exec(cs: &Vec<char>, pat: &Vec<char>, k: usize) -> (r: Option<usize>)
    ensures
        r is Some ==> r->0 as int == find_from(cs@, pat@, k as int),
        r is None ==> find_from(cs@, pat@, k as int) == -1,
{
    let n = cs.len();
    if k > n {
        return None;
    }
    if pat.len() == 0 {
        assert(cs@.subrange(k as int, k as int) =~= pat@);
        return Some(k);
    }
    let mut i = k;
    while pat.len() <= n - i
        invariant
            k <= i <= n,
            n == cs@.len(),
            pat@.len() > 0,
            find_from(cs@, pat@, k as int) == find_from(cs@, pat@, i as int),
        decreases cs@.len() + 1 - i,
    {
        if occurs_at_exec(cs, pat, i) {
            return Some(i);
        }
        i = i + 1;
    }
    None
}

/// First `c` in `cs` at or after `k`.
pub fn find_char_exec(cs: &Vec<char>, c: char, k: usize) -> (r: Option<usize>)
    ensures
        r is Some ==> k <= r->0 < cs@.len() && r->0 as int == find_char_from(cs@, c, k as int),
        r is None ==> find_char_from(cs@, c, k as int) == -1,
{
    let mut i = k;
    while i < cs.len()
        invariant
            k <= i,
            find_char_from(cs@, c, k as int) == find_char_from(cs@, c, i as int),
        decreases cs@.len() - i,
    {
        if cs[i] == c {
            return Some(i);
        }
        i = i + 1;
    }
    None
}

/// `str::to_lowercase`: the lower-case mapping of every character.
pub uninterp spec fn to_lower(s: Seq<char>) -> Seq<char>;

/// Calls `str::to_lowercase`. Claimed: the result depends on the text alone
/// (named by `to_lower`); Rust's mapping does not depend on the locale.
#[verifier::external_body]
pub fn lowercase(s: &str) -> (r: String)
    ensures
        r@ == to_lower(s@),
{
    s.to_lowercase()
}

/// The decimal digit character for `d`.
pub open spec fn digit_char(d: int) -> char {
    (48 + d) as char
}

/// Decimal notation of a natural number, without leading zeros.
pub open spec fn decimal(n: nat) -> Seq<char>
    decreases n,
{
    if n < 10 {
        seq![digit_char(n as int)]
    } else {
        decimal(n / 10).push(digit_char((n % 10) as int))
    }
}

fn digit_str(d: usize) -> (r: &'static str)
    requires
        d < 10,
    ensures
        r@ == seq![digit_char(d as int)],
{
    proof {
        reveal_strlit("0");
        reveal_strlit("1");
        reveal_strlit("2");
        reveal_strlit("3");
        reveal_strlit("4");
        reveal_strlit("5");
        reveal_strlit("6");
        reveal_strlit("7");
        reveal_strlit("8");
        reveal_strlit("9");
    }
    if d == 0 {
        "0"
    } else if d == 1 {
        "1"
    } else if d == 2 {
        "2"
    } else if d == 3 {
        "3"
    } else if d == 4 {
        "4"
    } else if d == 5 {
        "5"
    } else if d == 6 {
        "6"
    } else if d == 7 {
        "7"
    } else if d == 8 {
        "8"
    } else {
        "9"
    }
}

/// Decimal notation of `n`.
pub fn decimal_string(n: usize) -> (r: String)
    ensures
        r@ == decimal(n as nat),
    decreases n,
{
    if n < 10 {
        String::from_str(digit_str(n))
    } else {
        let mut s = decimal_string(n / 10);
        s.append(digit_str(n % 10));
        s
    }
}

/// The character is an ASCII decimal digit.
pub open spec fn is_digit(c: char) -> bool {
    '0' <= c && c <= '9'
}

/// Value of a sequence of decimal digits.
pub open spec fn digits_value(s: Seq<char>) -> nat
    decreases s.len(),
{
    if s.len() == 0 {
        0
    } else {
        digits_value(s.drop_last()) * 10 + ((s.last() as int - 48) as nat)
    }
}

/// What `str::parse::<usize>` gives: an optional `+` followed by one or more
/// decimal digits whose value fits in a `usize`.
pub open spec fn parse_usize_of(s: Seq<char>) -> Option<usize> {
    parse_usize_of_digits(
        if s.len() > 0 && s[0] == '+' {
            s.drop_first()
        } else {
            s
        },
    )
}

proof fn lemma_digits_grow(d: Seq<char>, k: int)
    requires
        0 <= k <= d.len(),
        forall|i: int| 0 <= i < d.len() ==> is_digit(#[trigger] d[i]),
    ensures
        digits_value(d.take(k)) <= digits_value(d),
    decreases d.len() - k,
{
    if k < d.len() {
        lemma_digits_grow(d, k + 1);
        assert(d.take(k + 1).drop_last() =~= d.take(k));
        assert(is_digit(d[k]));
    } else {
        assert(d.take(k) =~= d);
    }
}

/// Parses a decimal `usize` the way `str::parse::<usize>` does.
pub fn parse_usize(s: &str) -> (r: Option<usize>)
    ensures
        r == parse_usize_of(s@),
{
    let cs = chars_of(s);
    let n = cs.len();
    let start: usize = if n > 0 && cs[0] == '+' {
        1
    } else {
        0
    };
    let ghost d = if s@.len() > 0 && s@[0] == '+' {
        s@.drop_first()
    } else {
        s@
    };
    assert(d =~= cs@.subrange(start as int, n as int));
    assert(parse_usize_of(s@) == parse_usize_of_digits(d));
    if start >= n {
        return None;
    }
    let mut acc: usize = 0;
    let mut i = start;
    while i < n
        invariant
            start <= i <= n,
            n == cs@.len(),
            d == cs@.subrange(start as int, n as int),
            forall|j: int| 0 <= j < i - start ==> is_digit(#[trigger] d[j]),
            acc == digits_value(d.take(i - start)),
            parse_usize_of(s@) == parse_usize_of_digits(d),
        decreases n - i,
    {
        let c = cs[i];
        if !('0' <= c && c <= '9') {
            assert(!is_digit(d[i - start]));
            return None;
        }
        let v = (c as u32 - 48) as usize;
        assert(d.take(i - start + 1).drop_last() =~= d.take(i - start));
        assert(d.take(i - start + 1).last() == c);
        assert(digits_value(d.take(i - start + 1)) == acc * 10 + v);
        match acc.checked_mul(10) {
            Some(m) => {
                match m.checked_add(v) {
                    Some(x) => {
                        acc = x;
                    },
                    None => {
                        proof {
                            lemma_overflow_stays(d, start as int, i as int, cs@);
                        }
                        return None;
                    },
                }
            },
            None => {
                proof {
                    lemma_overflow_stays(d, start as int, i as int, cs@);
                }
                return None;
            },
        }
        i = i + 1;
    }
    assert(d.take(n - start) =~= d);
    Some(acc)
}

/// Once a prefix of digits is too large, the whole number is too large (or
/// not all digits).
proof fn lemma_overflow_stays(d: Seq<char>, start: int, i: int, cs: Seq<char>)
    requires
        0 <= start <= i < cs.len(),
        d == cs.subrange(start, cs.len() as int),
        is_digit(cs[i]),
        digits_value(d.take(i - start + 1)) > usize::MAX,
    ensures
        parse_usize_of_digits(d) is None,
{
    if forall|j: int| 0 <= j < d.len() ==> is_digit(#[trigger] d[j]) {
        lemma_digits_grow(d, i - start + 1);
    }
}

/// The digits part of `parse_usize_of`.
pub open spec fn parse_usize_of_digits(d: Seq<char>) -> Option<usize> {
    if d.len() > 0 && (forall|i: int| 0 <= i < d.len() ==> is_digit(#[trigger] d[i]))
        && digits_value(d) <= usize::MAX {
        Some(digits_value(d) as usize)
    } else {
        None
    }
}

/// Byte offsets at which each character starts, followed by the length.
pub fn char_starts(cs: &Vec<char>, total: usize) -> (p: Vec<usize>)
    requires
        total == utf8_len(cs@),
    ensures
        p@.len() == cs@.len() + 1,
        forall|k: int| 0 <= k <= cs@.len() ==> p@[k] == byte_pos(cs@, k),
{
    let mut p: Vec<usize> = Vec::new();
    let mut pos: usize = 0;
    let mut i: usize = 0;
    proof {
        assert(cs@.take(0) =~= Seq::<char>::empty());
    }
    while i < cs.len()
        invariant
            i <= cs@.len(),
            total == utf8_len(cs@),
            pos == byte_pos(cs@, i as int),
            p@.len() == i,
            forall|k: int| 0 <= k < i ==> p@[k] == byte_pos(cs@, k),
        decreases cs@.len() - i,
    {
        proof {
            lemma_byte_pos_step(cs@, i as int);
            lemma_byte_pos_bounded(cs@, i as int + 1);
        }
        p.push(pos);
        pos = pos + char_w8(cs[i]);
        i = i + 1;
    }
    p.push(pos);
    p
}

/// Encoding distributes over concatenation.
pub proof fn lemma_utf8_concat(a: Seq<char>, b: Seq<char>)
    ensures
        utf8(a + b) == utf8(a) + utf8(b),
    decreases a.len(),
{
    if a.len() == 0 {
        assert(a + b =~= b);
        assert(utf8(a) =~= Seq::<u8>::empty());
        assert(utf8(a) + utf8(b) =~= utf8(b));
    } else {
        assert((a + b).drop_first() =~= a.drop_first() + b);
        lemma_utf8_concat(a.drop_first(), b);
        assert((a + b)[0] == a[0]);
        assert(utf8(a + b) =~= encode_scalar(a[0] as u32) + (utf8(a.drop_first()) + utf8(b)));
        assert(utf8(a) + utf8(b) =~= encode_scalar(a[0] as u32) + utf8(a.drop_first()) + utf8(b));
    }
}

/// The encoding of one character has `w8` bytes.
pub proof fn lemma_scalar_width(c: char)
    ensures
        encode_scalar(c as u32).len() == w8(c),
{
    broadcast use char_is_scalar;

    assert(is_scalar(c as u32));
}

/// `utf8_len` is the length of the real encoding.
pub proof fn lemma_utf8_len(cs: Seq<char>)
    ensures
        utf8(cs).len() == utf8_len(cs),
        utf8_len(cs) >= 0,
    decreases cs.len(),
{
    if cs.len() > 0 {
        let init = cs.drop_last();
        let one = seq![cs.last()];
        assert(init + one =~= cs);
        lemma_utf8_concat(init, one);
        lemma_utf8_len(init);
        lemma_scalar_width(cs.last());
        assert(one.drop_first() =~= Seq::<char>::empty());
        assert(one[0] == cs.last());
        assert(utf8(one.drop_first()) =~= Seq::<u8>::empty());
        assert(utf8(one) =~= encode_scalar(one[0] as u32) + utf8(one.drop_first()));
        assert(utf8(one) =~= encode_scalar(cs.last() as u32));
    }
}

/// Byte positions grow with the character index.
pub proof fn lemma_byte_pos_step(cs: Seq<char>, k: int)
    requires
        0 <= k < cs.len(),
    ensures
        byte_pos(cs, k + 1) == byte_pos(cs, k) + w8(cs[k]),
{
    assert(cs.take(k + 1).drop_last() =~= cs.take(k));
}

/// UTF-16 prefix lengths grow with the character index.
pub proof fn lemma_utf16_step(cs: Seq<char>, k: int)
    requires
        0 <= k < cs.len(),
    ensures
        utf16_len(cs.take(k + 1)) == utf16_len(cs.take(k)) + w16(cs[k]),
{
    assert(cs.take(k + 1).drop_last() =~= cs.take(k));
}

/// A prefix never needs more UTF-16 units than UTF-8 bytes.
pub proof fn lemma_utf16_le_utf8(cs: Seq<char>)
    ensures
        0 <= utf16_len(cs) <= utf8_len(cs),
    decreases cs.len(),
{
    if cs.len() > 0 {
        lemma_utf16_le_utf8(cs.drop_last());
    }
}

/// Byte positions of prefixes are bounded by the whole length.
pub proof fn lemma_byte_pos_bounded(cs: Seq<char>, k: int)
    requires
        0 <= k <= cs.len(),
    ensures
        0 <= byte_pos(cs, k) <= utf8_len(cs),
    decreases cs.len() - k,
{
    if k == cs.len() {
        assert(cs.take(k) =~= cs);
        lemma_utf8_len(cs);
    } else {
        lemma_byte_pos_bounded(cs, k + 1);
        lemma_byte_pos_step(cs, k);
        lemma_utf8_len(cs.take(k));
    }
}

/// For encoded text, `is_boundary` agrees with vstd's character boundary.
pub proof fn lemma_boundary(cs: Seq<char>, i: int)
    requires
        0 <= i <= utf8(cs).len(),
    ensures
        is_boundary(utf8(cs), i) <==> is_char_boundary(utf8(cs), i),
{
    broadcast use encode_utf8_valid_utf8;

    let b = utf8(cs);
    if i == b.len() {
        is_char_boundary_start_end_of_seq(b);
    } else {
        is_char_boundary_iff_not_is_continuation_byte(b, i);
    }
}

/// Byte length of a string slice.
pub fn byte_len(s: &str) -> (n: usize)
    ensures
        n == utf8(s@).len(),
        n == utf8_len(s@),
{
    proof {
        lemma_utf8_len(s@);
    }
    s.as_bytes().len()
}

/// Collects the characters of a string slice.
pub fn chars_of(s: &str) -> (v: Vec<char>)
    ensures
        v@ == s@,
{
    let mut v: Vec<char> = Vec::new();
    for c in it: s.chars()
        invariant
            it.seq() == s@,
            v@ == s@.take(it.index() as int),
    {
        v.push(c);
    }
    assert(v@ =~= s@);
    v
}

/// Byte width of a character.
pub fn char_w8(c: char) -> (w: usize)
    ensures
        w == w8(c),
{
    let v = c as u32;
    if v < 0x80 {
        1
    } else if v < 0x800 {
        2
    } else if v < 0x10000 {
        3
    } else {
        4
    }
}

/// UTF-16 width of a character.
pub fn char_w16(c: char) -> (w: usize)
    ensures
        w == w16(c),
{
    if (c as u32) < 0x10000 {
        1
    } else {
        2
    }
}

/// The substring between two character boundaries.
pub fn slice_bytes(s: &str, lo: usize, hi: usize) -> (r: &str)
    requires
        lo <= hi <= utf8(s@).len(),
        is_boundary(utf8(s@), lo as int),
        is_boundary(utf8(s@), hi as int),
    ensures
        utf8(r@) == utf8(s@).subrange(lo as int, hi as int),
{
    proof {
        lemma_boundary(s@, hi as int);
    }
    let (head, _) = s.split_at(hi);
    proof {
        assert(utf8(head@) =~= utf8(s@).subrange(0, hi as int));
        lemma_boundary(head@, lo as int);
    }
    let (_, mid) = head.split_at(lo);
    proof {
        assert(utf8(mid@) =~= utf8(s@).subrange(lo as int, hi as int));
    }
    mid
}

/// Builds `s[..lo] + text + s[hi..]` (byte offsets at character boundaries).
pub fn splice(s: &str, lo: usize, hi: usize, text: &str) -> (r: String)
    requires
        lo <= utf8(s@).len(),
        hi <= utf8(s@).len(),
        is_boundary(utf8(s@), lo as int),
        is_boundary(utf8(s@), hi as int),
    ensures
        utf8(r@) == utf8(s@).subrange(0, lo as int) + utf8(text@) + utf8(s@).subrange(
            hi as int,
            utf8(s@).len() as int,
        ),
{
    proof {
        lemma_boundary(s@, lo as int);
        lemma_boundary(s@, hi as int);
    }
    let (a, _) = s.split_at(lo);
    let (_, c) = s.split_at(hi);
    let mut r = a.to_owned();
    r.append(text);
    r.append(c);
    proof {
        lemma_utf8_concat(a@, text@);
        lemma_utf8_concat(a@ + text@, c@);
    }
    r
}

/// The characters encoded by bytes `lo..hi` of the encoding of `text`.
pub open spec fn text_slice(text: Seq<char>, lo: int, hi: int) -> Seq<char> {
    decode_utf8(utf8(text).subrange(lo, hi))
}

/// An owned copy of the text between two character boundaries.
pub fn slice_owned(s: &str, lo: usize, hi: usize) -> (r: String)
    requires
        lo <= hi <= utf8(s@).len(),
        is_boundary(utf8(s@), lo as int),
        is_boundary(utf8(s@), hi as int),
    ensures
        r@ == text_slice(s@, lo as int, hi as int),
{
    let part = slice_bytes(s, lo, hi);
    proof {
        broadcast use encode_utf8_decode_utf8;

        assert(decode_utf8(utf8(part@)) == part@);
    }
    part.to_owned()
}

/// Character-wise equality of two string slices.
pub fn str_eq(a: &str, b: &str) -> (r: bool)
    ensures
        r == (a@ == b@),
{
    let x = a.as_bytes();
    let y = b.as_bytes();
    let mut same = x.len() == y.len();
    let mut i: usize = 0;
    while same && i < x.len()
        invariant
            x@ == utf8(a@),
            y@ == utf8(b@),
            same ==> x@.len() == y@.len(),
            same ==> forall|j: int| 0 <= j < i ==> x@[j] == y@[j],
            !same ==> x@ != y@,
            i <= x@.len(),
        decreases x@.len() - i,
    {
        if x[i] != y[i] {
            same = false;
        }
        i = i + 1;
    }
    proof {
        broadcast use encode_utf8_decode_utf8;

        if same {
            assert(x@ =~= y@);
            assert(decode_utf8(utf8(a@)) == a@);
            assert(decode_utf8(utf8(b@)) == b@);
        }
    }
    same
}

/// The characters `v[a..b]` spell exactly `s`.
pub fn chars_eq_at(v: &Vec<char>, a: usize, b: usize, s: &str) -> (r: bool)
    requires
        a <= b <= v@.len(),
    ensures
        r == (v@.subrange(a as int, b as int) == s@),
{
    let n = s.unicode_len();
    if b - a != n {
        return false;
    }
    let mut i: usize = 0;
    while i < n
        invariant
            i <= n,
            n == s@.len(),
            a + n == b <= v@.len(),
            forall|j: int| 0 <= j < i ==> v@[a + j] == s@[j],
        decreases n - i,
    {
        if v[a + i] != s.get_char(i) {
            return false;
        }
        i = i + 1;
    }
    assert(v@.subrange(a as int, b as int) =~= s@);
    true
}

/// The characters of `v` spell exactly `s`.
pub fn chars_eq(v: &Vec<char>, s: &str) -> (r: bool)
    ensures
        r == (v@ == s@),
{
    let r = chars_eq_at(v, 0, v.len(), s);
    assert(v@.subrange(0, v@.len() as int) =~= v@);
    r
}

/// Index of the first `c` in `cs[a..b]`, or `b` when there is none.
pub open spec fn end_at(cs: Seq<char>, c: char, a: int, b: int) -> int
    decreases b - a,
{
    if a >= b {
        b
    } else if cs[a] == c {
        a
    } else {
        end_at(cs, c, a + 1, b)
    }
}

pub proof fn lemma_end_at(cs: Seq<char>, c: char, a: int, b: int)
    requires
        a <= b,
    ensures
        a <= end_at(cs, c, a, b) <= b,
    decreases b - a,
{
    if a < b {
        lemma_end_at(cs, c, a + 1, b);
    }
}

/// Index of the first `c` in `cs[a..b]`, or `b`.
pub fn end_index(cs: &Vec<char>, c: char, a: usize, b: usize) -> (r: usize)
    requires
        a <= b <= cs@.len(),
    ensures
        r == end_at(cs@, c, a as int, b as int),
        a <= r <= b,
{
    proof {
        lemma_end_at(cs@, c, a as int, b as int);
    }
    let mut i = a;
    while i < b && cs[i] != c
        invariant
            a <= i <= b <= cs@.len(),
            end_at(cs@, c, a as int, b as int) == end_at(cs@, c, i as int, b as int),
        decreases b - i,
    {
        i = i + 1;
    }
    i
}

/// `skip_white` over `cs[a..b]` counts from `a`.
pub proof fn lemma_skip_shift(cs: Seq<char>, a: int, k: int, b: int)
    requires
        0 <= a <= k <= b <= cs.len(),
    ensures
        skip_white(cs, k, b) == a + skip_white(cs.subrange(a, b), k - a, b - a),
    decreases b - k,
{
    if k < b {
        lemma_skip_shift(cs, a, k + 1, b);
    }
}

/// `back_white` over `cs[a..b]` counts from `a`.
pub proof fn lemma_back_shift(cs: Seq<char>, a: int, k: int, e: int, b: int)
    requires
        0 <= a <= k <= e <= b <= cs.len(),
    ensures
        back_white(cs, k, e) == a + back_white(cs.subrange(a, b), k - a, e - a),
    decreases e - k,
{
    if k < e {
        lemma_back_shift(cs, a, k, e - 1, b);
    }
}

/// Trimming a range is trimming the text of the range.
pub proof fn lemma_trim_of_range(cs: Seq<char>, a: int, b: int)
    requires
        0 <= a <= b <= cs.len(),
    ensures
        trim_of(cs, a, b) == trimmed(cs.subrange(a, b)),
{
    let sub = cs.subrange(a, b);
    lemma_skip_white(cs, a, b);
    let s = skip_white(cs, a, b);
    lemma_skip_shift(cs, a, a, b);
    lemma_back_white(cs, s, b);
    lemma_back_shift(cs, a, s, b, b);
    assert(sub.subrange(s - a, back_white(cs, s, b) - a) =~= cs.subrange(s, back_white(cs, s, b)));
}

/// `skip_white` stops at the first character that is not white space.
pub proof fn lemma_skip_stops(cs: Seq<char>, a: int, b: int, b2: int)
    requires
        0 <= a <= b <= cs.len(),
        0 <= a <= b2 <= cs.len(),
        skip_white(cs, a, b) < b,
        skip_white(cs, a, b) < b2,
    ensures
        skip_white(cs, a, b2) == skip_white(cs, a, b),
        !is_white(cs[skip_white(cs, a, b)]),
    decreases b - a,
{
    if a < b && is_white(cs[a]) {
        lemma_skip_white(cs, a + 1, b);
        lemma_skip_stops(cs, a + 1, b, b2);
    }
}

/// `back_white` stops after the last character that is not white space, and
/// a later lower bound below that point does not change it.
pub proof fn lemma_back_stops(cs: Seq<char>, a: int, a2: int, b: int)
    requires
        0 <= a <= a2 < back_white(cs, a, b),
        b <= cs.len(),
    ensures
        back_white(cs, a2, b) == back_white(cs, a, b),
        !is_white(cs[back_white(cs, a, b) - 1]),
    decreases b - a,
{
    lemma_back_white(cs, a, b);
    if b > a && is_white(cs[b - 1]) {
        lemma_back_stops(cs, a, a2, b - 1);
    }
}

/// A character that is not white space bounds `back_white` from below.
pub proof fn lemma_back_above(cs: Seq<char>, a: int, j: int, b: int)
    requires
        0 <= a <= j < b <= cs.len(),
        !is_white(cs[j]),
    ensures
        back_white(cs, a, b) > j,
    decreases b - a,
{
    if b - 1 > j && is_white(cs[b - 1]) {
        lemma_back_above(cs, a, j, b - 1);
    }
}

/// With only white space in `cs[a..b]`, `skip_white` reaches `b`.
pub proof fn lemma_skip_all(cs: Seq<char>, a: int, b: int)
    requires
        0 <= a <= b <= cs.len(),
        skip_white(cs, a, b) == b,
    ensures
        forall|j: int| a <= j < b ==> is_white(#[trigger] cs[j]),
    decreases b - a,
{
    if a < b {
        lemma_skip_all(cs, a + 1, b);
    }
}

/// With only white space in `cs[a..b]`, `back_white` reaches `a`.
pub proof fn lemma_back_all(cs: Seq<char>, a: int, b: int)
    requires
        0 <= a <= b <= cs.len(),
        forall|j: int| a <= j < b ==> is_white(#[trigger] cs[j]),
    ensures
        back_white(cs, a, b) == a,
    decreases b - a,
{
    if a < b {
        lemma_back_all(cs, a, b - 1);
    }
}

/// Trimming a text without its trailing white space trims the text.
pub proof fn lemma_trimmed_of_trim_end(cs: Seq<char>)
    ensures
        trimmed(cs.subrange(0, back_white(cs, 0, cs.len() as int))) == trimmed(cs),
{
    let n = cs.len() as int;
    lemma_back_white(cs, 0, n);
    lemma_skip_white(cs, 0, n);
    let e0 = back_white(cs, 0, n);
    let s0 = skip_white(cs, 0, n);
    let y = cs.subrange(0, e0);
    if s0 == n {
        lemma_skip_all(cs, 0, n);
        lemma_back_all(cs, 0, n);
        lemma_back_all(cs, n, n);
        assert(y.len() == 0);
        assert(trimmed(y) =~= Seq::<char>::empty());
        assert(trimmed(cs) =~= Seq::<char>::empty());
    } else {
        lemma_skip_stops(cs, 0, n, n);
        lemma_back_above(cs, 0, s0, n);
        lemma_back_stops(cs, 0, s0, n);
        lemma_skip_stops(cs, 0, n, e0);
        lemma_skip_shift(cs, 0, 0, e0);
        assert(cs.subrange(0, e0) =~= y);
        lemma_back_shift(cs, 0, s0, e0, e0);
        assert(back_white(cs, s0, e0) == e0);
        assert(trimmed(y) =~= cs.subrange(s0, e0));
    }
}

/// Trimming white space in front of a text trims the text.
pub proof fn lemma_trimmed_after_white(c: char, cs: Seq<char>)
    requires
        is_white(c),
    ensures
        trimmed(seq![c] + cs) == trimmed(cs),
{
    let x = seq![c] + cs;
    let n = cs.len() as int;
    assert(x.subrange(1, n + 1) =~= cs);
    lemma_skip_shift(x, 1, 1, n + 1);
    lemma_skip_white(cs, 0, n);
    let s = skip_white(x, 0, n + 1);
    assert(s == 1 + skip_white(cs, 0, n));
    lemma_back_shift(x, 1, s, n + 1, n + 1);
    lemma_back_white(cs, s - 1, n);
    assert(x.subrange(s, back_white(x, s, n + 1)) =~= cs.subrange(
        s - 1,
        back_white(cs, s - 1, n),
    ));
}

/// `find_from` gives the first occurrence at or after `k`.
pub proof fn lemma_find_first(cs: Seq<char>, pat: Seq<char>, k: int, p: int)
    requires
        0 <= k <= p,
        occurs_at(cs, pat, p),
        forall|q: int| k <= q < p ==> !occurs_at(cs, pat, q),
    ensures
        find_from(cs, pat, k) == p,
    decreases p - k,
{
    if k < p {
        lemma_find_first(cs, pat, k + 1, p);
    }
}

} // verus!
