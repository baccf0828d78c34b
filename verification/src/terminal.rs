//! Lines of the command-line item listing.
use vstd::prelude::*;

use crate::text::{chars_of, decimal, decimal_string};

verus! {

broadcast use vstd::string::group_string_axioms;

/// Width of the terminal the listing is laid out for.
pub fn terminal_width() -> (r: usize)
    ensures
        r == 80,
{
    80
}

/// `n` spaces.
pub open spec fn spaces(n: int) -> Seq<char> {
    Seq::new(if n > 0 { n as nat } else { 0 }, |i: int| ' ')
}

/// `s` right-aligned in a field of `width` characters.
pub open spec fn pad_left(s: Seq<char>, width: int) -> Seq<char> {
    spaces(width - s.len()) + s
}

/// The start of a listing line: a `*` marker for the current item (a blank
/// otherwise), a space, the index right-aligned to the index column, a space.
pub open spec fn line_prefix(index: nat, is_current: bool, index_col_width: int) -> Seq<char> {
    (if is_current {
        "* "@
    } else {
        "  "@
    }) + pad_left(decimal(index), index_col_width) + " "@
}

pub open spec fn sat_sub(a: int, b: int) -> int {
    if a > b {
        a - b
    } else {
        0
    }
}

/// A listing line: the prefix and as much of the title as fits in
/// `total_width - 1` characters.
pub open spec fn list_line(
    index: nat,
    is_current: bool,
    title: Seq<char>,
    index_col_width: int,
    total_width: int,
) -> Seq<char> {
    let prefix = line_prefix(index, is_current, index_col_width);
    let available = sat_sub(sat_sub(total_width, prefix.len() as int), 1);
    prefix + title.take(if available < title.len() {
        available
    } else {
        title.len() as int
    })
}

/// Appends `n` spaces.
fn push_spaces(s: &mut String, n: usize)
    ensures
        final(s)@ == old(s)@ + spaces(n as int),
{
    proof {
        reveal_strlit(" ");
    }
    let mut i: usize = 0;
    while i < n
        invariant
            i <= n,
            s@ == old(s)@ + spaces(i as int),
        decreases n - i,
    {
        s.append(" ");
        proof {
            reveal_strlit(" ");
        }
        assert(spaces(i as int + 1) =~= spaces(i as int) + " "@);
        i = i + 1;
    }
}

/// One line of the item listing.
pub fn format_list_line(
    index: usize,
    is_current: bool,
    title: &str,
    index_col_width: usize,
    total_width: usize,
) -> (r: String)
    ensures
        r@ == list_line(index as nat, is_current, title@, index_col_width as int, total_width as int),
{
    proof {
        reveal_strlit("* ");
        reveal_strlit("  ");
        reveal_strlit(" ");
    }
    let mut prefix = if is_current {
        String::from_str("* ")
    } else {
        String::from_str("  ")
    };
    let digits = decimal_string(index);
    let nd = chars_of(digits.as_str()).len();
    if nd < index_col_width {
        push_spaces(&mut prefix, index_col_width - nd);
    }
    prefix.append(digits.as_str());
    prefix.append(" ");
    let ghost p = prefix@;
    assert(p =~= line_prefix(index as nat, is_current, index_col_width as int));
    let plen = chars_of(prefix.as_str()).len();
    let a1 = if total_width > plen {
        total_width - plen
    } else {
        0
    };
    let available = if a1 > 1 {
        a1 - 1
    } else {
        0
    };
    let tlen = chars_of(title).len();
    let take = if available < tlen {
        available
    } else {
        tlen
    };
    prefix.append(title.substring_char(0, take));
    assert(title@.subrange(0, take as int) =~= title@.take(take as int));
    prefix
}

/// A listing line never runs past the last column but one of the terminal,
/// unless its prefix alone does; the title it shows is a beginning of the
/// item's title.
pub proof fn law_line_fits(
    index: nat,
    is_current: bool,
    title: Seq<char>,
    index_col_width: int,
    total_width: int,
)
    ensures
        ({
            let prefix = line_prefix(index, is_current, index_col_width);
            let line = list_line(index, is_current, title, index_col_width, total_width);
            &&& line.len() <= if prefix.len() + 1 < total_width {
                total_width - 1
            } else {
                prefix.len() as int
            }
            &&& line.subrange(0, prefix.len() as int) == prefix
            &&& title.take(line.len() - prefix.len()) == line.subrange(prefix.len() as int, line.len() as int)
        }),
{
    let prefix = line_prefix(index, is_current, index_col_width);
    let line = list_line(index, is_current, title, index_col_width, total_width);
    let available = sat_sub(sat_sub(total_width, prefix.len() as int), 1);
    let t = if available < title.len() {
        available
    } else {
        title.len() as int
    };
    assert(line == prefix + title.take(t));
    assert(line.subrange(0, prefix.len() as int) =~= prefix);
    assert(line.subrange(prefix.len() as int, line.len() as int) =~= title.take(t));
}

} // verus!
