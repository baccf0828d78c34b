//! Editable text with a selection, grapheme-aware cursor movement and an
//! undo/redo history.
//!
//! All offsets are byte offsets into the UTF-8 encoding of the content.
use std::ops::Range;
use unicode_segmentation::UnicodeSegmentation;
use vstd::prelude::*;
use vstd::utf8::*;

use crate::text::{
    byte_len, byte_pos, char_w16, char_w8, chars_of, is_boundary, lemma_boundary, lemma_byte_pos_bounded,
    lemma_byte_pos_step, lemma_utf16_le_utf8, lemma_utf16_step, splice, utf16_len, utf8, utf8_len,
};

verus! {

broadcast use vstd::string::group_string_axioms;

// ---------------------------------------------------------------------------
// Segmentation of text by the unicode-segmentation crate
// ---------------------------------------------------------------------------

/// Byte offsets at which the extended grapheme clusters of a text start, in
/// order, as `UnicodeSegmentation::grapheme_indices(text, true)` reports them.
pub uninterp spec fn grapheme_starts(text: Seq<char>) -> Seq<usize>;

/// Byte offsets at which the UAX#29 word-bound segments of a text start, in
/// order, as `UnicodeSegmentation::split_word_bound_indices` reports them.
pub uninterp spec fn word_bound_starts(text: Seq<char>) -> Seq<usize>;

/// Calls `UnicodeSegmentation::grapheme_indices(s, true)` and keeps the byte
/// offset of each cluster. Claimed: the offsets are those the crate reports
/// (named by `grapheme_starts`); since the clusters are non-empty pieces that
/// concatenate back to the text, they start at 0 (for a non-empty text),
/// strictly increase, and each one starts a character strictly inside the text.
#[verifier::external_body]
fn grapheme_offsets(s: &str) -> (r: Vec<usize>)
    ensures
        r@ == grapheme_starts(s@),
        utf8(s@).len() > 0 ==> r@.len() > 0 && r@[0] == 0,
        forall|i: int, j: int| 0 <= i < j < r@.len() ==> r@[i] < r@[j],
        forall|i: int|
            0 <= i < r@.len() ==> (r@[i] as int) < utf8(s@).len() && is_boundary(
                utf8(s@),
                r@[i] as int,
            ),
{
    s.grapheme_indices(true).map(|(i, _)| i).collect()
}

/// Calls `UnicodeSegmentation::split_word_bound_indices(s)` and keeps the byte
/// offset of each segment. Claimed: the offsets are those the crate reports
/// (named by `word_bound_starts`); since the crate documents that the segments
/// concatenate back to the text, they start at 0 (for a non-empty text),
/// strictly increase, and each one starts a character strictly inside the text.
#[verifier::external_body]
fn word_bound_offsets(s: &str) -> (r: Vec<usize>)
    ensures
        r@ == word_bound_starts(s@),
        utf8(s@).len() > 0 ==> r@.len() > 0 && r@[0] == 0,
        forall|i: int, j: int| 0 <= i < j < r@.len() ==> r@[i] < r@[j],
        forall|i: int|
            0 <= i < r@.len() ==> (r@[i] as int) < utf8(s@).len() && is_boundary(
                utf8(s@),
                r@[i] as int,
            ),
{
    s.split_word_bound_indices().map(|(i, _)| i).collect()
}

// ---------------------------------------------------------------------------
// Mathematical model
// ---------------------------------------------------------------------------

/// A saved editing state: text and selection.
pub struct Snapshot {
    pub text: Seq<char>,
    pub start: int,
    pub end: int,
    pub reversed: bool,
}

impl Snapshot {
    pub open spec fn well_formed(self) -> bool {
        0 <= self.start <= self.end <= utf8(self.text).len()
    }
}

/// The abstract state of a `TextInputState`.
pub struct TextModel {
    /// The content.
    pub text: Seq<char>,
    /// Byte offset where the selection starts.
    pub start: int,
    /// Byte offset where the selection ends.
    pub end: int,
    /// True when the cursor is at `start` rather than at `end`.
    pub reversed: bool,
    /// Saved states, most recent last.
    pub undo: Seq<Snapshot>,
    /// States undone, most recent last.
    pub redo: Seq<Snapshot>,
}

/// The last byte offset below `offset` in `s`, or 0.
pub open spec fn last_below(s: Seq<usize>, offset: int) -> int
    decreases s.len(),
{
    if s.len() == 0 {
        0
    } else if (s.last() as int) < offset {
        s.last() as int
    } else {
        last_below(s.drop_last(), offset)
    }
}

/// The first byte offset above `offset` in `s`, or `dflt`.
pub open spec fn first_above(s: Seq<usize>, offset: int, dflt: int) -> int
    decreases s.len(),
{
    if s.len() == 0 {
        dflt
    } else if (s[0] as int) > offset {
        s[0] as int
    } else {
        first_above(s.drop_first(), offset, dflt)
    }
}

/// Start of the grapheme cluster before `offset` (0 when there is none).
pub open spec fn prev_grapheme(text: Seq<char>, offset: int) -> int {
    last_below(grapheme_starts(text), offset)
}

/// Start of the grapheme cluster after `offset` (the length when there is none).
pub open spec fn next_grapheme(text: Seq<char>, offset: int) -> int {
    first_above(grapheme_starts(text), offset, utf8(text).len() as int)
}

/// End of segment `k` of the segments starting at `s` in a text of `len` bytes.
pub open spec fn seg_end(s: Seq<usize>, k: int, len: int) -> int {
    if k + 1 < s.len() {
        s[k + 1] as int
    } else {
        len
    }
}

/// Index of the first segment, from `k` on, that holds byte `offset`; -1 if none.
pub open spec fn seg_holding(s: Seq<usize>, offset: int, len: int, k: int) -> int
    decreases s.len() - k,
{
    if k < 0 || k >= s.len() {
        -1
    } else if (s[k] as int) <= offset && offset < seg_end(s, k, len) {
        k
    } else {
        seg_holding(s, offset, len, k + 1)
    }
}

/// Start of the word-bound segment holding `offset`; past the end, the start
/// of the last segment; 0 for an empty text.
pub open spec fn word_start_of(text: Seq<char>, offset: int) -> int {
    let s = word_bound_starts(text);
    let len = utf8(text).len() as int;
    let k = seg_holding(s, offset, len, 0);
    if k >= 0 {
        s[k] as int
    } else if s.len() > 0 {
        s.last() as int
    } else {
        0
    }
}

/// End of the word-bound segment holding `offset`, or the length of the text.
pub open spec fn word_end_of(text: Seq<char>, offset: int) -> int {
    let s = word_bound_starts(text);
    let len = utf8(text).len() as int;
    let k = seg_holding(s, offset, len, 0);
    if k >= 0 {
        seg_end(s, k, len)
    } else {
        len
    }
}

/// Index of the last newline byte before byte `k`, or -1.
pub open spec fn last_newline_before(b: Seq<u8>, k: int) -> int
    decreases k,
{
    if k <= 0 {
        -1
    } else if b[k - 1] == 10u8 {
        k - 1
    } else {
        last_newline_before(b, k - 1)
    }
}

/// Index of the first newline byte at or after byte `k`, or the length.
pub open spec fn next_newline_from(b: Seq<u8>, k: int) -> int
    decreases b.len() - k,
{
    if k < 0 || k >= b.len() {
        b.len() as int
    } else if b[k] == 10u8 {
        k
    } else {
        next_newline_from(b, k + 1)
    }
}

pub open spec fn min_int(a: int, b: int) -> int {
    if a <= b {
        a
    } else {
        b
    }
}

/// Start of the line holding byte `offset` (clamped to the text).
pub open spec fn line_start(text: Seq<char>, offset: int) -> int {
    let b = utf8(text);
    last_newline_before(b, min_int(offset, b.len() as int)) + 1
}

/// End of the line holding byte `offset` (clamped to the text): the position of
/// the next newline or the length.
pub open spec fn line_end(text: Seq<char>, offset: int) -> int {
    let b = utf8(text);
    next_newline_from(b, min_int(offset, b.len() as int))
}

/// The same column on the previous line, clipped to its length; 0 on the
/// first line.
pub open spec fn line_up(text: Seq<char>, offset: int) -> int {
    let ls = line_start(text, offset);
    if ls == 0 {
        0
    } else {
        let prev_end = ls - 1;
        let prev_start = line_start(text, prev_end);
        prev_start + min_int(offset - ls, prev_end - prev_start)
    }
}

/// The same column on the next line, clipped to its length; the length of the
/// text on the last line.
pub open spec fn line_down(text: Seq<char>, offset: int) -> int {
    let ls = line_start(text, offset);
    let le = line_end(text, offset);
    let len = utf8(text).len() as int;
    if le >= len {
        len
    } else {
        let next_start = le + 1;
        let next_end = line_end(text, next_start);
        next_start + min_int(offset - ls, next_end - next_start)
    }
}

/// Index of the first character, from `k` on, whose encoding starts at or after
/// byte `offset`; the number of characters if none.
pub open spec fn char_at_or_after_byte(cs: Seq<char>, offset: int, k: int) -> int
    decreases cs.len() - k,
{
    if k >= cs.len() || byte_pos(cs, k) >= offset {
        k
    } else {
        char_at_or_after_byte(cs, offset, k + 1)
    }
}

/// Index of the first character, from `k` on, before which the text has at
/// least `units` UTF-16 code units; the number of characters if none.
pub open spec fn char_at_or_after_utf16(cs: Seq<char>, units: int, k: int) -> int
    decreases cs.len() - k,
{
    if k >= cs.len() || utf16_len(cs.take(k)) >= units {
        k
    } else {
        char_at_or_after_utf16(cs, units, k + 1)
    }
}

/// The UTF-16 offset matching byte `offset`: the UTF-16 length of all
/// characters whose encoding starts before `offset`.
pub open spec fn utf16_offset_of(text: Seq<char>, offset: int) -> int {
    utf16_len(text.take(char_at_or_after_byte(text, offset, 0)))
}

/// The byte offset matching UTF-16 offset `units`: where the first character
/// starts before which there are at least `units` code units (or the end).
pub open spec fn byte_offset_of_utf16(text: Seq<char>, units: int) -> int {
    byte_pos(text, char_at_or_after_utf16(text, units, 0))
}

/// `text` with the bytes from `lo` to `hi` replaced by `t`.
pub open spec fn splice_text(text: Seq<char>, lo: int, hi: int, t: Seq<char>) -> Seq<char> {
    let b = utf8(text);
    decode_utf8(b.subrange(0, lo) + utf8(t) + b.subrange(hi, b.len() as int))
}

impl TextModel {
    pub open spec fn len(self) -> int {
        utf8(self.text).len() as int
    }

    pub open spec fn cursor(self) -> int {
        if self.reversed {
            self.start
        } else {
            self.end
        }
    }

    pub open spec fn is_empty_selection(self) -> bool {
        self.start == self.end
    }

    pub open spec fn well_formed(self) -> bool {
        &&& 0 <= self.start <= self.end <= self.len()
        &&& forall|i: int| 0 <= i < self.undo.len() ==> (#[trigger] self.undo[i]).well_formed()
        &&& forall|i: int| 0 <= i < self.redo.len() ==> (#[trigger] self.redo[i]).well_formed()
    }

    /// Both ends of the selection lie on character boundaries.
    pub open spec fn on_boundaries(self) -> bool {
        is_boundary(utf8(self.text), self.start) && is_boundary(utf8(self.text), self.end)
    }

    pub open spec fn snapshot(self) -> Snapshot {
        Snapshot { text: self.text, start: self.start, end: self.end, reversed: self.reversed }
    }

    /// A collapsed selection at `pos`.
    pub open spec fn caret(self, pos: int) -> TextModel {
        TextModel { start: pos, end: pos, reversed: false, ..self }
    }

    /// `move_to(offset)`.
    pub open spec fn moved_to(self, offset: int) -> TextModel {
        self.caret(min_int(offset, self.len()))
    }

    /// `move_right()`.
    pub open spec fn moved_right(self) -> TextModel {
        if self.is_empty_selection() {
            self.moved_to(next_grapheme(self.text, self.cursor()))
        } else {
            self.moved_to(self.end)
        }
    }

    /// `move_left()`.
    pub open spec fn moved_left(self) -> TextModel {
        if self.is_empty_selection() {
            self.moved_to(prev_grapheme(self.text, self.cursor()))
        } else {
            self.moved_to(self.start)
        }
    }

    /// `select_right()`.
    pub open spec fn selected_right(self) -> TextModel {
        self.selected_to(next_grapheme(self.text, self.cursor()))
    }

    /// `select_left()`.
    pub open spec fn selected_left(self) -> TextModel {
        self.selected_to(prev_grapheme(self.text, self.cursor()))
    }

    /// `select_to(offset)`: moves the cursor end of the selection.
    pub open spec fn selected_to(self, offset: int) -> TextModel {
        let o = min_int(offset, self.len());
        let s = if self.reversed {
            o
        } else {
            self.start
        };
        let e = if self.reversed {
            self.end
        } else {
            o
        };
        if e < s {
            TextModel { start: e, end: s, reversed: !self.reversed, ..self }
        } else {
            TextModel { start: s, end: e, ..self }
        }
    }

    /// Saves the current state for undo and forgets what was undone.
    pub open spec fn recorded(self) -> TextModel {
        TextModel { undo: self.undo.push(self.snapshot()), redo: Seq::empty(), ..self }
    }

    /// Replaces bytes `lo..hi` by `t` and puts a caret after the new text.
    pub open spec fn replaced(self, lo: int, hi: int, t: Seq<char>) -> TextModel {
        let pos = lo + utf8(t).len();
        TextModel {
            text: splice_text(self.text, lo, hi, t),
            start: pos,
            end: pos,
            reversed: false,
            ..self
        }
    }

    /// `insert(t)`: replaces the selection by `t`.
    pub open spec fn inserted(self, t: Seq<char>) -> TextModel {
        self.recorded().replaced(self.start, self.end, t)
    }

    /// `replace_range(lo..hi, t)`.
    pub open spec fn range_replaced(self, lo: int, hi: int, t: Seq<char>) -> TextModel {
        self.recorded().replaced(lo, hi, t)
    }

    /// `backspace()`.
    pub open spec fn backspaced(self) -> TextModel {
        if self.is_empty_selection() {
            let prev = prev_grapheme(self.text, self.cursor());
            if prev == self.cursor() {
                self
            } else {
                self.recorded().selected_to(prev).cut()
            }
        } else {
            self.recorded().cut()
        }
    }

    /// `delete()`.
    pub open spec fn deleted(self) -> TextModel {
        if self.is_empty_selection() {
            let next = next_grapheme(self.text, self.cursor());
            if next == self.cursor() {
                self
            } else {
                self.recorded().selected_to(next).cut()
            }
        } else {
            self.recorded().cut()
        }
    }

    /// Removes the selected bytes, leaving a caret where they were.
    pub open spec fn cut(self) -> TextModel {
        self.replaced(self.start, self.end, Seq::empty())
    }

    /// `undo()`.
    pub open spec fn undone(self) -> TextModel {
        if self.undo.len() > 0 {
            let e = self.undo.last();
            TextModel {
                text: e.text,
                start: e.start,
                end: e.end,
                reversed: e.reversed,
                undo: self.undo.drop_last(),
                redo: self.redo.push(self.snapshot()),
            }
        } else {
            self
        }
    }

    /// `redo()`.
    pub open spec fn redone(self) -> TextModel {
        if self.redo.len() > 0 {
            let e = self.redo.last();
            TextModel {
                text: e.text,
                start: e.start,
                end: e.end,
                reversed: e.reversed,
                undo: self.undo.push(self.snapshot()),
                redo: self.redo.drop_last(),
            }
        } else {
            self
        }
    }
}

// ---------------------------------------------------------------------------
// The executable state
// ---------------------------------------------------------------------------

struct UndoEntry {
    content: String,
    start: usize,
    end: usize,
    reversed: bool,
}

impl UndoEntry {
    spec fn snap(self) -> Snapshot {
        Snapshot {
            text: self.content@,
            start: self.start as int,
            end: self.end as int,
            reversed: self.reversed,
        }
    }
}

/// Text being edited, with a selection and an undo/redo history.
pub struct TextInputState {
    content: String,
    selected_range: Range<usize>,
    selection_reversed: bool,
    undo_stack: Vec<UndoEntry>,
    redo_stack: Vec<UndoEntry>,
}

impl View for TextInputState {
    type V = TextModel;

    closed spec fn view(&self) -> TextModel {
        TextModel {
            text: self.content@,
            start: self.selected_range.start as int,
            end: self.selected_range.end as int,
            reversed: self.selection_reversed,
            undo: self.undo_stack@.map_values(|e: UndoEntry| e.snap()),
            redo: self.redo_stack@.map_values(|e: UndoEntry| e.snap()),
        }
    }
}

/// A snapshot taken from a well-formed model is well formed.
proof fn lemma_snapshot_wf(m: TextModel)
    requires
        m.well_formed(),
    ensures
        m.snapshot().well_formed(),
{
}

/// Positions just after a spliced-in text are boundaries when the splice ends
/// at one, and the spliced text decodes back.
proof fn lemma_splice(text: Seq<char>, lo: int, hi: int, t: Seq<char>, r: Seq<char>)
    requires
        0 <= lo <= utf8(text).len(),
        0 <= hi <= utf8(text).len(),
        is_boundary(utf8(text), hi),
        utf8(r) == utf8(text).subrange(0, lo) + utf8(t) + utf8(text).subrange(
            hi,
            utf8(text).len() as int,
        ),
    ensures
        r == splice_text(text, lo, hi, t),
        utf8(r).len() == lo + utf8(t).len() + (utf8(text).len() - hi),
        is_boundary(utf8(r), lo + utf8(t).len()),
{
    broadcast use encode_utf8_decode_utf8;

    assert(decode_utf8(utf8(r)) == r);
    let b = utf8(text);
    let p = lo + utf8(t).len();
    if hi < b.len() {
        assert(utf8(r)[p] == b[hi]);
    }
}

impl TextInputState {
    /// The content and selection lie within bounds, and so do saved states.
    pub open spec fn wf(&self) -> bool {
        self@.well_formed()
    }

    /// A state holding `initial` with a caret at the start and no history.
    pub fn new(initial: &str) -> (r: Self)
        ensures
            r.wf(),
            r@ == (TextModel {
                text: initial@,
                start: 0,
                end: 0,
                reversed: false,
                undo: Seq::empty(),
                redo: Seq::empty(),
            }),
    {
        let r = TextInputState {
            content: initial.to_owned(),
            selected_range: 0..0,
            selection_reversed: false,
            undo_stack: Vec::new(),
            redo_stack: Vec::new(),
        };
        assert(r@.undo =~= Seq::<Snapshot>::empty());
        assert(r@.redo =~= Seq::<Snapshot>::empty());
        r
    }

    /// The content.
    pub fn content(&self) -> (r: &str)
        ensures
            r@ == self@.text,
    {
        self.content.as_str()
    }

    /// Byte length of the content.
    fn len(&self) -> (n: usize)
        ensures
            n == self@.len(),
    {
        byte_len(self.content.as_str())
    }

    /// Where the cursor is: the start of a reversed selection, else its end.
    pub fn cursor_offset(&self) -> (r: usize)
        ensures
            r == self@.cursor(),
    {
        if self.selection_reversed {
            self.selected_range.start
        } else {
            self.selected_range.end
        }
    }

    /// The selected byte range.
    pub fn selected_range(&self) -> (r: Range<usize>)
        ensures
            r.start == self@.start,
            r.end == self@.end,
    {
        self.selected_range.start..self.selected_range.end
    }

    /// Collapses the selection to a caret at `offset`, clamped to the content.
    pub fn move_to(&mut self, offset: usize)
        requires
            old(self).wf(),
        ensures
            final(self).wf(),
            final(self)@ == old(self)@.moved_to(offset as int),
    {
        let n = self.len();
        let offset = if offset < n {
            offset
        } else {
            n
        };
        self.selected_range = offset..offset;
        self.selection_reversed = false;
    }

    /// Moves the cursor one grapheme right, or collapses a selection to its end.
    pub fn move_right(&mut self)
        requires
            old(self).wf(),
        ensures
            final(self).wf(),
            final(self)@ == old(self)@.moved_right(),
    {
        if self.selected_range.start == self.selected_range.end {
            let next = self.next_boundary(self.cursor_offset());
            self.move_to(next);
        } else {
            let end = self.selected_range.end;
            self.move_to(end);
        }
    }

    /// Moves the cursor one grapheme left, or collapses a selection to its start.
    pub fn move_left(&mut self)
        requires
            old(self).wf(),
        ensures
            final(self).wf(),
            final(self)@ == old(self)@.moved_left(),
    {
        if self.selected_range.start == self.selected_range.end {
            let prev = self.previous_boundary(self.cursor_offset());
            self.move_to(prev);
        } else {
            let start = self.selected_range.start;
            self.move_to(start);
        }
    }

    /// Start of the line holding `offset`.
    pub fn find_line_start(&self, offset: usize) -> (r: usize)
        requires
            is_boundary(utf8(self@.text), min_int(offset as int, self@.len())),
        ensures
            r == line_start(self@.text, offset as int),
    {
        find_line_start_in(self.content.as_str(), offset)
    }

    /// End of the line holding `offset`.
    pub fn find_line_end(&self, offset: usize) -> (r: usize)
        requires
            is_boundary(utf8(self@.text), min_int(offset as int, self@.len())),
        ensures
            r == line_end(self@.text, offset as int),
    {
        find_line_end_in(self.content.as_str(), offset)
    }

    /// The same column on the previous line (0 on the first line).
    pub fn find_line_up(&self, offset: usize) -> (r: usize)
        requires
            is_boundary(utf8(self@.text), min_int(offset as int, self@.len())),
        ensures
            r == line_up(self@.text, offset as int),
    {
        let line_start = self.find_line_start(offset);
        if line_start == 0 {
            return 0;
        }
        proof {
            lemma_line_start_bounds(self@.text, offset as int);
        }
        let col = offset - line_start;
        let prev_line_end = line_start - 1;
        proof {
            lemma_newline_is_boundary(self@.text, prev_line_end as int);
        }
        let prev_line_start = self.find_line_start(prev_line_end);
        proof {
            lemma_line_start_bounds(self@.text, prev_line_end as int);
        }
        let prev_line_len = prev_line_end - prev_line_start;
        prev_line_start + if col < prev_line_len {
            col
        } else {
            prev_line_len
        }
    }

    /// The same column on the next line (the end of the text on the last line).
    pub fn find_line_down(&self, offset: usize) -> (r: usize)
        requires
            is_boundary(utf8(self@.text), min_int(offset as int, self@.len())),
        ensures
            r == line_down(self@.text, offset as int),
    {
        let line_start = self.find_line_start(offset);
        proof {
            lemma_line_start_bounds(self@.text, offset as int);
            lemma_line_end_bounds(self@.text, offset as int);
        }
        let col = offset - line_start;
        let line_end = self.find_line_end(offset);
        let n = self.len();
        if line_end >= n {
            return n;
        }
        let next_line_start = line_end + 1;
        proof {
            lemma_after_newline_is_boundary(self@.text, line_end as int);
        }
        let next_line_end = self.find_line_end(next_line_start);
        proof {
            lemma_line_end_bounds(self@.text, next_line_start as int);
        }
        let next_line_len = next_line_end - next_line_start;
        next_line_start + if col < next_line_len {
            col
        } else {
            next_line_len
        }
    }

    /// Moves the caret to the same column on the previous line.
    pub fn move_up(&mut self)
        requires
            old(self).wf(),
            is_boundary(utf8(old(self)@.text), old(self)@.cursor()),
        ensures
            final(self).wf(),
            final(self)@ == old(self)@.moved_to(line_up(old(self)@.text, old(self)@.cursor())),
    {
        let cur = self.cursor_offset();
        let target = self.find_line_up(cur);
        self.move_to(target);
    }

    /// Moves the caret to the same column on the next line.
    pub fn move_down(&mut self)
        requires
            old(self).wf(),
            is_boundary(utf8(old(self)@.text), old(self)@.cursor()),
        ensures
            final(self).wf(),
            final(self)@ == old(self)@.moved_to(line_down(old(self)@.text, old(self)@.cursor())),
    {
        let cur = self.cursor_offset();
        let target = self.find_line_down(cur);
        self.move_to(target);
    }

    /// Extends the selection to the same column on the previous line.
    pub fn select_up(&mut self)
        requires
            old(self).wf(),
            is_boundary(utf8(old(self)@.text), old(self)@.cursor()),
        ensures
            final(self).wf(),
            final(self)@ == old(self)@.selected_to(line_up(old(self)@.text, old(self)@.cursor())),
    {
        let cur = self.cursor_offset();
        let target = self.find_line_up(cur);
        self.select_to(target);
    }

    /// Extends the selection to the same column on the next line.
    pub fn select_down(&mut self)
        requires
            old(self).wf(),
            is_boundary(utf8(old(self)@.text), old(self)@.cursor()),
        ensures
            final(self).wf(),
            final(self)@ == old(self)@.selected_to(
                line_down(old(self)@.text, old(self)@.cursor()),
            ),
    {
        let cur = self.cursor_offset();
        let target = self.find_line_down(cur);
        self.select_to(target);
    }

    /// Caret at the start of the content.
    pub fn move_to_home(&mut self)
        requires
            old(self).wf(),
        ensures
            final(self).wf(),
            final(self)@ == old(self)@.moved_to(0),
    {
        self.move_to(0);
    }

    /// Caret at the end of the content.
    pub fn move_to_end(&mut self)
        requires
            old(self).wf(),
        ensures
            final(self).wf(),
            final(self)@ == old(self)@.moved_to(old(self)@.len()),
    {
        let n = self.len();
        self.move_to(n);
    }

    /// Moves the cursor end of the selection to `offset` (clamped), flipping
    /// the selection when the cursor passes the anchor.
    pub fn select_to(&mut self, offset: usize)
        requires
            old(self).wf(),
        ensures
            final(self).wf(),
            final(self)@ == old(self)@.selected_to(offset as int),
    {
        let n = self.len();
        let offset = if offset < n {
            offset
        } else {
            n
        };
        if self.selection_reversed {
            self.selected_range.start = offset;
        } else {
            self.selected_range.end = offset;
        }
        if self.selected_range.end < self.selected_range.start {
            self.selection_reversed = !self.selection_reversed;
            self.selected_range = self.selected_range.end..self.selected_range.start;
        }
        proof {
            assert(self@.undo == old(self)@.undo);
            assert(self@.redo == old(self)@.redo);
            assert(self@.text == old(self)@.text);
            assert(0 <= self@.start <= self@.end <= self@.len());
        }
    }

    /// Extends the selection one grapheme right.
    pub fn select_right(&mut self)
        requires
            old(self).wf(),
        ensures
            final(self).wf(),
            final(self)@ == old(self)@.selected_right(),
    {
        let next = self.next_boundary(self.cursor_offset());
        self.select_to(next);
    }

    /// Extends the selection one grapheme left.
    pub fn select_left(&mut self)
        requires
            old(self).wf(),
        ensures
            final(self).wf(),
            final(self)@ == old(self)@.selected_left(),
    {
        let prev = self.previous_boundary(self.cursor_offset());
        self.select_to(prev);
    }

    /// Selects the whole content.
    pub fn select_all(&mut self)
        requires
            old(self).wf(),
        ensures
            final(self).wf(),
            final(self)@ == (TextModel {
                start: 0,
                end: old(self)@.len(),
                reversed: false,
                ..old(self)@
            }),
    {
        let n = self.len();
        self.selected_range = 0..n;
        self.selection_reversed = false;
    }

    fn save_undo(&mut self)
        requires
            old(self).wf(),
        ensures
            final(self).wf(),
            final(self)@ == old(self)@.recorded(),
    {
        let entry = UndoEntry {
            content: self.content.clone(),
            start: self.selected_range.start,
            end: self.selected_range.end,
            reversed: self.selection_reversed,
        };
        let ghost before = self@;
        self.undo_stack.push(entry);
        self.redo_stack = Vec::new();
        proof {
            assert(self@.undo =~= before.undo.push(before.snapshot()));
            assert(self@.redo =~= Seq::<Snapshot>::empty());
            lemma_snapshot_wf(before);
        }
    }

    /// Replaces bytes `lo..hi` by `text`; caret after the new text.
    fn splice_in(&mut self, lo: usize, hi: usize, text: &str)
        requires
            old(self).wf(),
            lo <= old(self)@.len(),
            hi <= old(self)@.len(),
            lo <= hi,
            is_boundary(utf8(old(self)@.text), lo as int),
            is_boundary(utf8(old(self)@.text), hi as int),
        ensures
            final(self).wf(),
            final(self)@ == old(self)@.replaced(lo as int, hi as int, text@),
            final(self)@.on_boundaries(),
    {
        let r = splice(self.content.as_str(), lo, hi, text);
        proof {
            lemma_splice(self@.text, lo as int, hi as int, text@, r@);
        }
        let n = byte_len(r.as_str());
        let tn = byte_len(text);
        let new_pos = lo + tn;
        self.content = r;
        self.selected_range = new_pos..new_pos;
        self.selection_reversed = false;
        proof {
            assert(self@.undo == old(self)@.undo);
            assert(self@.redo == old(self)@.redo);
            assert(0 <= self@.start <= self@.end <= self@.len());
        }
    }

    /// Replaces the selection by `text`, saving the previous state for undo.
    pub fn insert(&mut self, text: &str)
        requires
            old(self).wf(),
            old(self)@.on_boundaries(),
        ensures
            final(self).wf(),
            final(self)@ == old(self)@.inserted(text@),
            final(self)@.on_boundaries(),
    {
        self.save_undo();
        let lo = self.selected_range.start;
        let hi = self.selected_range.end;
        self.splice_in(lo, hi, text);
    }

    /// Deletes the selection, or the grapheme before the caret.
    pub fn backspace(&mut self)
        requires
            old(self).wf(),
            old(self)@.on_boundaries(),
        ensures
            final(self).wf(),
            final(self)@ == old(self)@.backspaced(),
            final(self)@.on_boundaries(),
    {
        if self.selected_range.start == self.selected_range.end {
            let cur = self.cursor_offset();
            let prev = self.previous_boundary(cur);
            if prev == cur {
                return;
            }
            self.save_undo();
            self.select_to(prev);
        } else {
            self.save_undo();
        }
        let lo = self.selected_range.start;
        let hi = self.selected_range.end;
        self.splice_in(lo, hi, "");
        proof {
            reveal_strlit("");
        }
    }

    /// Deletes the selection, or the grapheme after the caret.
    pub fn delete(&mut self)
        requires
            old(self).wf(),
            old(self)@.on_boundaries(),
        ensures
            final(self).wf(),
            final(self)@ == old(self)@.deleted(),
            final(self)@.on_boundaries(),
    {
        if self.selected_range.start == self.selected_range.end {
            let cur = self.cursor_offset();
            let next = self.next_boundary(cur);
            if next == cur {
                return;
            }
            self.save_undo();
            self.select_to(next);
        } else {
            self.save_undo();
        }
        let lo = self.selected_range.start;
        let hi = self.selected_range.end;
        self.splice_in(lo, hi, "");
        proof {
            reveal_strlit("");
        }
    }

    /// Replaces bytes `range` by `text`, saving the previous state for undo.
    pub fn replace_range(&mut self, range: Range<usize>, text: &str)
        requires
            old(self).wf(),
            range.start <= old(self)@.len(),
            range.end <= old(self)@.len(),
            is_boundary(utf8(old(self)@.text), range.start as int),
            is_boundary(utf8(old(self)@.text), range.end as int),
        ensures
            final(self).wf(),
            final(self)@ == old(self)@.range_replaced(range.start as int, range.end as int, text@),
            final(self)@.on_boundaries(),
    {
        self.save_undo();
        let r = splice(self.content.as_str(), range.start, range.end, text);
        proof {
            lemma_splice(self@.text, range.start as int, range.end as int, text@, r@);
        }
        let n = byte_len(r.as_str());
        let tn = byte_len(text);
        let new_pos = range.start + tn;
        self.content = r;
        self.selected_range = new_pos..new_pos;
        self.selection_reversed = false;
    }

    /// Restores the most recently saved state, if any.
    pub fn undo(&mut self)
        requires
            old(self).wf(),
        ensures
            final(self).wf(),
            final(self)@ == old(self)@.undone(),
    {
        let ghost before = self@;
        if let Some(entry) = self.undo_stack.pop() {
            proof {
                assert(before.undo.last() == entry.snap());
                assert(self.undo_stack@.map_values(|e: UndoEntry| e.snap()) =~= before.undo.drop_last());
            }
            self.redo_stack.push(
                UndoEntry {
                    content: self.content.clone(),
                    start: self.selected_range.start,
                    end: self.selected_range.end,
                    reversed: self.selection_reversed,
                },
            );
            self.content = entry.content;
            self.selected_range = entry.start..entry.end;
            self.selection_reversed = entry.reversed;
            proof {
                assert(self@.redo =~= before.redo.push(before.snapshot()));
                assert(self@.undo =~= before.undo.drop_last());
                assert(before.undo[before.undo.len() - 1].well_formed());
                lemma_snapshot_wf(before);
            }
        }
    }

    /// Re-applies the most recently undone state, if any.
    pub fn redo(&mut self)
        requires
            old(self).wf(),
        ensures
            final(self).wf(),
            final(self)@ == old(self)@.redone(),
    {
        let ghost before = self@;
        if let Some(entry) = self.redo_stack.pop() {
            proof {
                assert(before.redo.last() == entry.snap());
                assert(self.redo_stack@.map_values(|e: UndoEntry| e.snap()) =~= before.redo.drop_last());
            }
            self.undo_stack.push(
                UndoEntry {
                    content: self.content.clone(),
                    start: self.selected_range.start,
                    end: self.selected_range.end,
                    reversed: self.selection_reversed,
                },
            );
            self.content = entry.content;
            self.selected_range = entry.start..entry.end;
            self.selection_reversed = entry.reversed;
            proof {
                assert(self@.undo =~= before.undo.push(before.snapshot()));
                assert(self@.redo =~= before.redo.drop_last());
                assert(before.redo[before.redo.len() - 1].well_formed());
                lemma_snapshot_wf(before);
            }
        }
    }

    /// Converts a byte offset to a UTF-16 offset.
    pub fn offset_to_utf16(&self, offset: usize) -> (r: usize)
        ensures
            r == utf16_offset_of(self@.text, offset as int),
    {
        let cs = chars_of(self.content.as_str());
        let total = byte_len(self.content.as_str());
        let mut utf16_offset: usize = 0;
        let mut utf8_count: usize = 0;
        let mut i: usize = 0;
        while i < cs.len() && utf8_count < offset
            invariant
                cs@ == self@.text,
                total == utf8_len(cs@),
                i <= cs@.len(),
                utf8_count == byte_pos(cs@, i as int),
                utf16_offset == utf16_len(cs@.take(i as int)),
                char_at_or_after_byte(cs@, offset as int, 0) == char_at_or_after_byte(
                    cs@,
                    offset as int,
                    i as int,
                ),
            decreases cs@.len() - i,
        {
            proof {
                lemma_byte_pos_step(cs@, i as int);
                lemma_utf16_step(cs@, i as int);
                lemma_byte_pos_bounded(cs@, i as int + 1);
                lemma_utf16_le_utf8(cs@.take(i as int + 1));
            }
            utf8_count = utf8_count + char_w8(cs[i]);
            utf16_offset = utf16_offset + char_w16(cs[i]);
            i = i + 1;
        }
        assert(char_at_or_after_byte(cs@, offset as int, i as int) == i);
        utf16_offset
    }

    /// Converts a UTF-16 offset to a byte offset.
    pub fn offset_from_utf16(&self, offset: usize) -> (r: usize)
        ensures
            r == byte_offset_of_utf16(self@.text, offset as int),
    {
        let cs = chars_of(self.content.as_str());
        let total = byte_len(self.content.as_str());
        let mut utf8_offset: usize = 0;
        let mut utf16_count: usize = 0;
        let mut i: usize = 0;
        while i < cs.len() && utf16_count < offset
            invariant
                cs@ == self@.text,
                total == utf8_len(cs@),
                i <= cs@.len(),
                utf8_offset == byte_pos(cs@, i as int),
                utf16_count == utf16_len(cs@.take(i as int)),
                char_at_or_after_utf16(cs@, offset as int, 0) == char_at_or_after_utf16(
                    cs@,
                    offset as int,
                    i as int,
                ),
            decreases cs@.len() - i,
        {
            proof {
                lemma_byte_pos_step(cs@, i as int);
                lemma_utf16_step(cs@, i as int);
                lemma_byte_pos_bounded(cs@, i as int + 1);
                lemma_utf16_le_utf8(cs@.take(i as int + 1));
            }
            utf16_count = utf16_count + char_w16(cs[i]);
            utf8_offset = utf8_offset + char_w8(cs[i]);
            i = i + 1;
        }
        assert(char_at_or_after_utf16(cs@, offset as int, i as int) == i);
        utf8_offset
    }

    /// Converts a byte range to a UTF-16 range.
    pub fn range_to_utf16(&self, range: &Range<usize>) -> (r: Range<usize>)
        ensures
            r.start == utf16_offset_of(self@.text, range.start as int),
            r.end == utf16_offset_of(self@.text, range.end as int),
    {
        self.offset_to_utf16(range.start)..self.offset_to_utf16(range.end)
    }

    /// Converts a UTF-16 range to a byte range.
    pub fn range_from_utf16(&self, range: &Range<usize>) -> (r: Range<usize>)
        ensures
            r.start == byte_offset_of_utf16(self@.text, range.start as int),
            r.end == byte_offset_of_utf16(self@.text, range.end as int),
    {
        self.offset_from_utf16(range.start)..self.offset_from_utf16(range.end)
    }

    /// Start and end of the word-bound segment holding `offset`.
    fn word_segment(&self, offset: usize) -> (r: (usize, usize))
        ensures
            r.0 == word_start_of(self@.text, offset as int),
            r.1 == word_end_of(self@.text, offset as int),
            r.0 <= r.1 <= self@.len(),
            (offset as int) < self@.len() ==> r.0 <= offset < r.1,
    {
        let s = word_bound_offsets(self.content.as_str());
        let n = self.len();
        proof {
            lemma_seg_holding_found(s@, offset as int, n as int, 0);
            law_word_segment_holds_offset(self@.text, offset as int);
        }
        match segment_holding(&s, offset, n) {
            Some(k) => {
                let end = if k + 1 < s.len() {
                    s[k + 1]
                } else {
                    n
                };
                (s[k], end)
            },
            None => {
                if s.len() > 0 {
                    (s[s.len() - 1], n)
                } else {
                    (0, n)
                }
            },
        }
    }

    /// Start of the word-bound segment holding `offset`.
    pub fn word_start(&self, offset: usize) -> (r: usize)
        ensures
            r == word_start_of(self@.text, offset as int),
            r <= self@.len(),
            (offset as int) < self@.len() ==> r <= offset,
    {
        self.word_segment(offset).0
    }

    /// End of the word-bound segment holding `offset`.
    pub fn word_end(&self, offset: usize) -> (r: usize)
        ensures
            r == word_end_of(self@.text, offset as int),
            r <= self@.len(),
            (offset as int) < self@.len() ==> offset < r,
    {
        self.word_segment(offset).1
    }

    /// Selects the word-bound segment holding `offset`.
    pub fn select_word_at(&mut self, offset: usize)
        requires
            old(self).wf(),
        ensures
            final(self).wf(),
            final(self)@ == (TextModel {
                start: word_start_of(old(self)@.text, offset as int),
                end: word_end_of(old(self)@.text, offset as int),
                reversed: false,
                ..old(self)@
            }),
            (offset as int) < old(self)@.len() ==> final(self)@.start <= offset < final(self)@.end,
    {
        let (start, end) = self.word_segment(offset);
        self.selected_range = start..end;
        self.selection_reversed = false;
    }

    fn previous_boundary(&self, offset: usize) -> (r: usize)
        ensures
            r == prev_grapheme(self@.text, offset as int),
            r <= offset || r == 0,
            r < self@.len() || r == 0,
            is_boundary(utf8(self@.text), r as int),
    {
        let g = grapheme_offsets(self.content.as_str());
        proof {
            lemma_boundary_zero(self@.text);
        }
        let mut j = g.len();
        assert(g@.take(j as int) =~= g@);
        while j > 0
            invariant
                j <= g@.len(),
                g@ == grapheme_starts(self@.text),
                last_below(g@, offset as int) == last_below(g@.take(j as int), offset as int),
                forall|i: int|
                    0 <= i < g@.len() ==> (g@[i] as int) < utf8(self@.text).len() && is_boundary(
                        utf8(self@.text),
                        g@[i] as int,
                    ),
            decreases j,
        {
            assert(g@.take(j as int).drop_last() =~= g@.take(j as int - 1));
            if g[j - 1] < offset {
                return g[j - 1];
            }
            j = j - 1;
        }
        0
    }

    fn next_boundary(&self, offset: usize) -> (r: usize)
        ensures
            r == next_grapheme(self@.text, offset as int),
            r > offset || r == self@.len(),
            r <= self@.len(),
            is_boundary(utf8(self@.text), r as int),
    {
        let g = grapheme_offsets(self.content.as_str());
        let n = self.len();
        let mut i: usize = 0;
        assert(g@.subrange(0, g@.len() as int) =~= g@);
        while i < g.len()
            invariant
                i <= g@.len(),
                n == utf8(self@.text).len(),
                g@ == grapheme_starts(self@.text),
                first_above(g@, offset as int, n as int) == first_above(
                    g@.subrange(i as int, g@.len() as int),
                    offset as int,
                    n as int,
                ),
                forall|k: int|
                    0 <= k < g@.len() ==> (g@[k] as int) < utf8(self@.text).len() && is_boundary(
                        utf8(self@.text),
                        g@[k] as int,
                    ),
            decreases g@.len() - i,
        {
            assert(g@.subrange(i as int, g@.len() as int).drop_first() =~= g@.subrange(
                i as int + 1,
                g@.len() as int,
            ));
            if g[i] > offset {
                return g[i];
            }
            i = i + 1;
        }
        assert(g@.subrange(i as int, g@.len() as int) =~= Seq::<usize>::empty());
        n
    }
}

/// Offset 0 is a boundary of any text.
pub proof fn lemma_boundary_zero(text: Seq<char>)
    ensures
        is_boundary(utf8(text), 0),
{
    if utf8(text).len() > 0 {
        broadcast use encode_utf8_valid_utf8;

        lemma_boundary(text, 0);
        is_char_boundary_start_end_of_seq(utf8(text));
    }
}

/// Index of the first segment holding `offset`, scanning the starts `s` of the
/// segments of a text of `n` bytes.
fn segment_holding(s: &Vec<usize>, offset: usize, n: usize) -> (r: Option<usize>)
    ensures
        r is Some ==> r->0 < s@.len() && seg_holding(s@, offset as int, n as int, 0) == r->0,
        r is None ==> seg_holding(s@, offset as int, n as int, 0) == -1,
{
    let mut k: usize = 0;
    while k < s.len()
        invariant
            k <= s@.len(),
            seg_holding(s@, offset as int, n as int, 0) == seg_holding(
                s@,
                offset as int,
                n as int,
                k as int,
            ),
        decreases s@.len() - k,
    {
        let end = if k + 1 < s.len() {
            s[k + 1]
        } else {
            n
        };
        if s[k] <= offset && offset < end {
            return Some(k);
        }
        k = k + 1;
    }
    None
}

proof fn lemma_seg_holding_found(s: Seq<usize>, offset: int, len: int, k: int)
    ensures
        seg_holding(s, offset, len, k) >= 0 ==> {
            let j = seg_holding(s, offset, len, k);
            0 <= j < s.len() && (s[j] as int) <= offset < seg_end(s, j, len)
        },
        seg_holding(s, offset, len, k) >= -1,
    decreases s.len() - k,
{
    if k >= 0 && k < s.len() {
        lemma_seg_holding_found(s, offset, len, k + 1);
    }
}

/// The byte at a newline is a boundary.
pub proof fn lemma_newline_is_boundary(text: Seq<char>, k: int)
    requires
        0 <= k < utf8(text).len(),
        utf8(text)[k] == 10u8,
    ensures
        is_boundary(utf8(text), k),
{
}

/// The byte after a newline is a boundary.
pub proof fn lemma_after_newline_is_boundary(text: Seq<char>, k: int)
    requires
        0 <= k < utf8(text).len(),
        utf8(text)[k] == 10u8,
    ensures
        is_boundary(utf8(text), k + 1),
{
    broadcast use encode_utf8_valid_utf8;

    let b = utf8(text);
    if k + 1 < b.len() {
        lemma_boundary(text, k);
        lemma_boundary(text, k + 1);
        is_char_boundary_iff_is_leading_byte(b, k);
        lemma_ascii_then_boundary(b, k);
    }
}

/// In valid UTF-8 the byte after an ASCII byte starts a character.
proof fn lemma_ascii_then_boundary(b: Seq<u8>, k: int)
    requires
        valid_utf8(b),
        0 <= k < b.len() - 1,
        b[k] < 0x80,
    ensures
        !is_continuation_byte(b[k + 1]),
    decreases b.len(),
{
    // The character at k is complete, so k + 1 starts the next one.
    lemma_prefix_boundaries(b, k);
}

/// Walks the characters of valid UTF-8 up to an ASCII byte.
proof fn lemma_prefix_boundaries(b: Seq<u8>, k: int)
    requires
        valid_utf8(b),
        0 <= k < b.len() - 1,
        b[k] < 0x80,
    ensures
        !is_continuation_byte(b[k + 1]),
    decreases b.len(),
{
    reveal_with_fuel(valid_utf8, 2);
    let first = length_of_first_scalar(b);
    let rest = pop_first_scalar(b);
    if k < first {
        // An ASCII byte can only be a whole one-byte character.
        assert(k == 0);
        assert(first == 1);
        assert(rest.len() > 0);
        assert(rest[0] == b[1]);
        reveal_with_fuel(valid_utf8, 2);
        assert(valid_leading_and_continuation_bytes_first_codepoint(rest));
    } else {
        assert(rest[k - first] == b[k]);
        assert(rest[k - first + 1] == b[k + 1]);
        lemma_prefix_boundaries(rest, k - first);
    }
}

/// Line starts lie within the clamped offset.
pub proof fn lemma_line_start_bounds(text: Seq<char>, offset: int)
    requires
        offset >= 0,
    ensures
        0 <= line_start(text, offset) <= min_int(offset, utf8(text).len() as int),
        line_start(text, offset) > 0 ==> utf8(text)[line_start(text, offset) - 1] == 10u8,
{
    let b = utf8(text);
    lemma_last_newline(b, min_int(offset, b.len() as int));
}

proof fn lemma_last_newline(b: Seq<u8>, k: int)
    requires
        0 <= k <= b.len(),
    ensures
        -1 <= last_newline_before(b, k) < k,
        last_newline_before(b, k) >= 0 ==> b[last_newline_before(b, k)] == 10u8,
    decreases k,
{
    if k > 0 {
        lemma_last_newline(b, k - 1);
    }
}

/// Line ends lie between the clamped offset and the length.
pub proof fn lemma_line_end_bounds(text: Seq<char>, offset: int)
    requires
        offset >= 0,
    ensures
        min_int(offset, utf8(text).len() as int) <= line_end(text, offset) <= utf8(text).len(),
        line_end(text, offset) < utf8(text).len() ==> utf8(text)[line_end(text, offset)] == 10u8,
{
    let b = utf8(text);
    lemma_next_newline(b, min_int(offset, b.len() as int));
}

proof fn lemma_next_newline(b: Seq<u8>, k: int)
    requires
        0 <= k <= b.len(),
    ensures
        k <= next_newline_from(b, k) <= b.len(),
        next_newline_from(b, k) < b.len() ==> b[next_newline_from(b, k)] == 10u8,
    decreases b.len() - k,
{
    if k < b.len() {
        lemma_next_newline(b, k + 1);
    }
}

/// Start of the line of `s` holding byte `offset`.
pub fn find_line_start_in(s: &str, offset: usize) -> (r: usize)
    requires
        is_boundary(utf8(s@), min_int(offset as int, utf8(s@).len() as int)),
    ensures
        r == line_start(s@, offset as int),
{
    let b = s.as_bytes();
    let k = if offset < b.len() {
        offset
    } else {
        b.len()
    };
    let mut j = k;
    while j > 0
        invariant
            b@ == utf8(s@),
            j <= k <= b@.len(),
            k == min_int(offset as int, b@.len() as int),
            last_newline_before(b@, k as int) == last_newline_before(b@, j as int),
        decreases j,
    {
        if b[j - 1] == 10u8 {
            return j;
        }
        j = j - 1;
    }
    0
}

/// End of the line of `s` holding byte `offset`.
pub fn find_line_end_in(s: &str, offset: usize) -> (r: usize)
    requires
        is_boundary(utf8(s@), min_int(offset as int, utf8(s@).len() as int)),
    ensures
        r == line_end(s@, offset as int),
{
    let b = s.as_bytes();
    let k = if offset < b.len() {
        offset
    } else {
        b.len()
    };
    let mut j = k;
    while j < b.len()
        invariant
            b@ == utf8(s@),
            k <= j <= b@.len(),
            k == min_int(offset as int, b@.len() as int),
            next_newline_from(b@, k as int) == next_newline_from(b@, j as int),
        decreases b@.len() - j,
    {
        if b[j] == 10u8 {
            return j;
        }
        j = j + 1;
    }
    b.len()
}

// ---------------------------------------------------------------------------
// Undo and redo
// ---------------------------------------------------------------------------

/// An edit that changes something: `backspace`/`delete` with a selection or
/// with a grapheme to remove.
pub open spec fn backspace_edits(m: TextModel) -> bool {
    !(m.is_empty_selection() && prev_grapheme(m.text, m.cursor()) == m.cursor())
}

/// See `backspace_edits`.
pub open spec fn delete_edits(m: TextModel) -> bool {
    !(m.is_empty_selection() && next_grapheme(m.text, m.cursor()) == m.cursor())
}

/// The state `m` back again, with `after` as the one step that redo can
/// re-apply.
pub open spec fn restored(m: TextModel, after: TextModel) -> TextModel {
    TextModel { redo: seq![after.snapshot()], ..m }
}

/// Undo after an insertion gives back the text, selection and undo history
/// from before it, and leaves the insertion as the one step redo re-applies.
pub proof fn law_undo_insert(m: TextModel, t: Seq<char>)
    ensures
        m.inserted(t).undone() == restored(m, m.inserted(t)),
{
    assert(m.inserted(t).undone().undo =~= m.undo);
    assert(m.inserted(t).undone().redo =~= seq![m.inserted(t).snapshot()]);
}

/// Undo after replacing a range gives back the state from before it.
pub proof fn law_undo_replace_range(m: TextModel, lo: int, hi: int, t: Seq<char>)
    ensures
        m.range_replaced(lo, hi, t).undone() == restored(m, m.range_replaced(lo, hi, t)),
{
    assert(m.range_replaced(lo, hi, t).undone().undo =~= m.undo);
    assert(m.range_replaced(lo, hi, t).undone().redo =~= seq![
        m.range_replaced(lo, hi, t).snapshot(),
    ]);
}

/// Undo after a backspace that removed something gives back the state from
/// before it; a backspace with nothing to remove changes nothing.
pub proof fn law_undo_backspace(m: TextModel)
    ensures
        backspace_edits(m) ==> m.backspaced().undone() == restored(m, m.backspaced()),
        !backspace_edits(m) ==> m.backspaced() == m,
{
    if backspace_edits(m) {
        assert(m.backspaced().undone().undo =~= m.undo);
        assert(m.backspaced().undone().redo =~= seq![m.backspaced().snapshot()]);
    }
}

/// Undo after a delete that removed something gives back the state from
/// before it; a delete with nothing to remove changes nothing.
pub proof fn law_undo_delete(m: TextModel)
    ensures
        delete_edits(m) ==> m.deleted().undone() == restored(m, m.deleted()),
        !delete_edits(m) ==> m.deleted() == m,
{
    if delete_edits(m) {
        assert(m.deleted().undone().undo =~= m.undo);
        assert(m.deleted().undone().redo =~= seq![m.deleted().snapshot()]);
    }
}

/// Redo right after an undo gives back exactly the state before the undo,
/// and undo right after a redo does too; with nothing to undo (or redo) the
/// step changes nothing.
pub proof fn law_redo_after_undo(m: TextModel)
    ensures
        m.undo.len() > 0 ==> m.undone().redone() == m,
        m.redo.len() > 0 ==> m.redone().undone() == m,
        m.undo.len() == 0 ==> m.undone() == m,
        m.redo.len() == 0 ==> m.redone() == m,
{
    if m.undo.len() > 0 {
        assert(m.undone().redone().undo =~= m.undo);
        assert(m.undone().redone().redo =~= m.redo);
    }
    if m.redo.len() > 0 {
        assert(m.redone().undone().undo =~= m.undo);
        assert(m.redone().undone().redo =~= m.redo);
    }
}

/// An edit forgets what was undone before it: nothing is left to redo.
pub proof fn law_edit_clears_redo(m: TextModel, lo: int, hi: int, t: Seq<char>)
    ensures
        m.inserted(t).redo.len() == 0,
        m.range_replaced(lo, hi, t).redo.len() == 0,
        backspace_edits(m) ==> m.backspaced().redo.len() == 0,
        delete_edits(m) ==> m.deleted().redo.len() == 0,
{
}

// ---------------------------------------------------------------------------
// UTF-16 offsets
// ---------------------------------------------------------------------------

/// Character starts and UTF-16 prefix lengths both rise strictly.
proof fn lemma_prefixes_rise(text: Seq<char>, j: int, k: int)
    requires
        0 <= j < k <= text.len(),
    ensures
        byte_pos(text, j) < byte_pos(text, k),
        utf16_len(text.take(j)) < utf16_len(text.take(k)),
    decreases k - j,
{
    lemma_byte_pos_step(text, k - 1);
    lemma_utf16_step(text, k - 1);
    if j < k - 1 {
        lemma_prefixes_rise(text, j, k - 1);
    }
}

proof fn lemma_char_at_byte(text: Seq<char>, j: int, k: int)
    requires
        0 <= j <= k <= text.len(),
    ensures
        char_at_or_after_byte(text, byte_pos(text, k), j) == k,
    decreases k - j,
{
    if j < k {
        lemma_prefixes_rise(text, j, k);
        lemma_char_at_byte(text, j + 1, k);
    }
}

proof fn lemma_char_at_utf16(text: Seq<char>, j: int, k: int)
    requires
        0 <= j <= k <= text.len(),
    ensures
        char_at_or_after_utf16(text, utf16_len(text.take(k)), j) == k,
    decreases k - j,
{
    if j < k {
        lemma_prefixes_rise(text, j, k);
        lemma_char_at_utf16(text, j + 1, k);
    }
}

/// At the start of character `k` (the end of the text for the last `k`),
/// `offset_to_utf16` gives the UTF-16 length of the characters before it,
/// and `offset_from_utf16` maps that back to the same byte offset: the two
/// conversions undo each other at every character boundary.
pub proof fn law_utf16_round_trip(text: Seq<char>, k: int)
    requires
        0 <= k <= text.len(),
    ensures
        utf16_offset_of(text, byte_pos(text, k)) == utf16_len(text.take(k)),
        byte_offset_of_utf16(text, utf16_len(text.take(k))) == byte_pos(text, k),
        byte_offset_of_utf16(text, utf16_offset_of(text, byte_pos(text, k))) == byte_pos(text, k),
{
    lemma_char_at_byte(text, 0, k);
    lemma_char_at_utf16(text, 0, k);
}

/// A character boundary of the encoding is where some character starts (or
/// the end of the text).
proof fn lemma_boundary_starts_char(cs: Seq<char>, i: int) -> (k: int)
    requires
        0 <= i <= utf8(cs).len(),
        is_char_boundary(utf8(cs), i),
    ensures
        0 <= k <= cs.len(),
        byte_pos(cs, k) == i,
    decreases cs.len(),
{
    broadcast use encode_utf8_valid_utf8;

    if i == 0 {
        assert(cs.take(0) =~= Seq::<char>::empty());
        assert(byte_pos(cs, 0) == 0);
        0
    } else {
        assert(cs.len() > 0);
        let rest = cs.drop_first();
        encode_utf8_first_scalar(cs);
        crate::text::lemma_scalar_width(cs[0]);
        assert(utf8(cs) =~= encode_scalar(cs[0] as u32) + utf8(rest));
        assert(pop_first_scalar(utf8(cs)) =~= utf8(rest));
        let w = crate::text::w8(cs[0]);
        reveal_with_fuel(is_char_boundary, 2);
        assert(is_char_boundary(utf8(rest), i - w));
        let k1 = lemma_boundary_starts_char(rest, i - w);
        let one = seq![cs[0]];
        assert(cs.take(k1 + 1) =~= one + rest.take(k1));
        crate::text::lemma_utf8_concat(one, rest.take(k1));
        crate::text::lemma_utf8_len(one);
        crate::text::lemma_utf8_len(rest.take(k1));
        crate::text::lemma_utf8_len(cs.take(k1 + 1));
        assert(one.drop_last() =~= Seq::<char>::empty());
        assert(one.last() == cs[0]);
        assert(utf8_len(one.drop_last()) == 0);
        assert(utf8_len(one) == w);
        assert(utf8_len(rest.take(k1)) == i - w);
        assert(utf8(cs.take(k1 + 1)) =~= utf8(one) + utf8(rest.take(k1)));
        assert(utf8_len(cs.take(k1 + 1)) == i);
        k1 + 1
    }
}

/// The UTF-8 bytes before character `k` decode to the first `k` characters.
proof fn lemma_prefix_decodes(text: Seq<char>, k: int)
    requires
        0 <= k <= text.len(),
    ensures
        decode_utf8(utf8(text).subrange(0, byte_pos(text, k))) == text.take(k),
{
    broadcast use encode_utf8_decode_utf8;

    assert(text.take(k) + text.skip(k) =~= text);
    crate::text::lemma_utf8_concat(text.take(k), text.skip(k));
    crate::text::lemma_utf8_len(text.take(k));
    assert(utf8(text).subrange(0, byte_pos(text, k)) =~= utf8(text.take(k)));
}

/// At every character boundary `o` of the text, `offset_to_utf16` gives the
/// number of UTF-16 code units of the text before `o`, and
/// `offset_from_utf16` maps that number back to `o`.
pub proof fn law_utf16_round_trip_at_boundary(text: Seq<char>, o: int)
    requires
        0 <= o <= utf8(text).len(),
        is_boundary(utf8(text), o),
    ensures
        utf16_offset_of(text, o) == utf16_len(decode_utf8(utf8(text).subrange(0, o))),
        byte_offset_of_utf16(text, utf16_offset_of(text, o)) == o,
{
    lemma_boundary(text, o);
    let k = lemma_boundary_starts_char(text, o);
    law_utf16_round_trip(text, k);
    lemma_prefix_decodes(text, k);
}

/// No newline lies between `k` and the next newline at or after it.
pub proof fn lemma_no_newline_ahead(b: Seq<u8>, k: int, j: int)
    requires
        0 <= k <= j,
        j < next_newline_from(b, k),
    ensures
        j < b.len(),
        b[j] != 10u8,
    decreases j - k,
{
    if k < j {
        lemma_no_newline_ahead(b, k + 1, j);
    }
}

/// No newline lies between the last newline before `k` and `k`.
pub proof fn lemma_no_newline_behind(b: Seq<u8>, k: int, j: int)
    requires
        0 <= k <= b.len(),
        last_newline_before(b, k) < j < k,
    ensures
        b[j] != 10u8,
    decreases k,
{
    if j < k - 1 {
        lemma_no_newline_behind(b, k - 1, j);
    }
}

/// Moving down lands on the next line, as far into it as the cursor was into
/// its own line, or at its end when it is shorter; on the last line it goes
/// to the end of the text.
pub proof fn law_line_down_keeps_column(text: Seq<char>, offset: int)
    requires
        0 <= offset <= utf8(text).len(),
    ensures
        ({
            let b = utf8(text);
            let le = line_end(text, offset);
            let col = offset - line_start(text, offset);
            let r = line_down(text, offset);
            &&& le >= b.len() ==> r == b.len()
            &&& le < b.len() ==> {
                &&& b[le] == 10u8
                &&& le + 1 <= r <= le + 1 + col
                &&& forall|j: int| le + 1 <= j < r ==> b[j] != 10u8
                &&& r < le + 1 + col ==> r == b.len() || b[r] == 10u8
            }
        }),
{
    let b = utf8(text);
    lemma_line_start_bounds(text, offset);
    lemma_line_end_bounds(text, offset);
    let le = line_end(text, offset);
    if le < b.len() {
        lemma_next_newline(b, le + 1);
        assert forall|j: int| le + 1 <= j < line_down(text, offset) implies b[j] != 10u8 by {
            lemma_no_newline_ahead(b, le + 1, j);
        }
    }
}

/// Moving up lands on the previous line, as far into it as the cursor was
/// into its own line, or at its end when it is shorter; on the first line it
/// goes to the start of the text.
pub proof fn law_line_up_keeps_column(text: Seq<char>, offset: int)
    requires
        0 <= offset <= utf8(text).len(),
    ensures
        ({
            let b = utf8(text);
            let ls = line_start(text, offset);
            let col = offset - ls;
            let ps = line_start(text, ls - 1);
            let r = line_up(text, offset);
            &&& ls == 0 ==> r == 0
            &&& ls > 0 ==> {
                &&& b[ls - 1] == 10u8
                &&& ps == 0 || b[ps - 1] == 10u8
                &&& ps <= r <= ps + col
                &&& r <= ls - 1
                &&& forall|j: int| ps <= j < r ==> b[j] != 10u8
                &&& r < ps + col ==> r == ls - 1
            }
        }),
{
    let b = utf8(text);
    lemma_line_start_bounds(text, offset);
    let ls = line_start(text, offset);
    if ls > 0 {
        lemma_line_start_bounds(text, ls - 1);
        lemma_last_newline(b, ls - 1);
        assert forall|j: int| line_start(text, ls - 1) <= j < line_up(text, offset) implies b[j]
            != 10u8 by {
            lemma_no_newline_behind(b, ls - 1, j);
        }
    }
}

/// Segment starts as a segmentation of `len` bytes reports them: the first at
/// 0 (for a non-empty text), rising strictly, each inside the text.
pub open spec fn ordered_starts(s: Seq<usize>, len: int) -> bool {
    &&& len > 0 ==> s.len() > 0 && s[0] == 0
    &&& forall|i: int, j: int| 0 <= i < j < s.len() ==> s[i] < s[j]
    &&& forall|i: int| 0 <= i < s.len() ==> (s[i] as int) < len
}

proof fn lemma_seg_holding_exists(s: Seq<usize>, offset: int, len: int, k: int)
    requires
        ordered_starts(s, len),
        0 <= k < s.len(),
        (s[k] as int) <= offset < len,
    ensures
        seg_holding(s, offset, len, k) >= 0,
    decreases s.len() - k,
{
    if offset >= seg_end(s, k, len) {
        lemma_seg_holding_exists(s, offset, len, k + 1);
    }
}

/// For every byte of the text, the word-bound segment that `word_start` and
/// `word_end` report holds it: it starts where a segment starts, at or before
/// the byte, ends where the next segment starts (or at the end of the text),
/// after the byte, and no segment starts strictly inside it.
pub proof fn law_word_segment_holds_offset(text: Seq<char>, offset: int)
    ensures
        ordered_starts(word_bound_starts(text), utf8(text).len() as int) && 0 <= offset < utf8(
            text,
        ).len() ==> ({
            let s = word_bound_starts(text);
            let len = utf8(text).len() as int;
            let a = word_start_of(text, offset);
            let e = word_end_of(text, offset);
            &&& a <= offset < e <= len
            &&& exists|i: int| 0 <= i < s.len() && s[i] == a
            &&& e == len || exists|i: int| 0 <= i < s.len() && s[i] == e
            &&& forall|i: int|
                0 <= i < s.len() ==> !(a < (#[trigger] s[i] as int) <= offset) && !(offset < (
                    s[i] as int) < e)
        }),
{
    let s = word_bound_starts(text);
    let len = utf8(text).len() as int;
    if ordered_starts(s, len) && 0 <= offset < len {
        lemma_seg_holding_exists(s, offset, len, 0);
        lemma_seg_holding_found(s, offset, len, 0);
        let j = seg_holding(s, offset, len, 0);
        assert(0 <= j < s.len());
        if j + 1 < s.len() {
            assert(s[j + 1] == word_end_of(text, offset));
        }
        assert forall|i: int| 0 <= i < s.len() implies !(word_start_of(text, offset) < (
        #[trigger] s[i] as int) <= offset) && !(offset < (s[i] as int) < word_end_of(text, offset)) by {
            if i > j + 1 {
                assert(s[j + 1] < s[i]);
            }
        }
    }
}

} // verus!
