//! Vi-style modal editing on top of `TextInputState`: Normal, Insert and
//! Visual modes with motions (`h j k l w b 0 $`) and edits (`x dd yy p u o O`,
//! Ctrl-r).
use vstd::prelude::*;

use crate::text::{
    byte_len, byte_pos, char_is_alphanumeric, char_is_whitespace, char_w8, chars_of, is_alnum,
    is_boundary, is_white, lemma_byte_pos_bounded, lemma_byte_pos_step, lemma_utf8_len,
    slice_owned, str_eq, text_slice, utf8, utf8_len, char_starts,
};
use crate::text_input::{
    char_at_or_after_byte, find_line_end_in, find_line_start_in, lemma_after_newline_is_boundary,
    lemma_boundary_zero, lemma_line_end_bounds, lemma_line_start_bounds, line_end, line_start,
    min_int, TextInputState, TextModel, delete_edits, law_undo_delete, restored,
    law_line_down_keeps_column, law_line_up_keeps_column,
};

verus! {

broadcast use vstd::string::group_string_axioms;

/// The editing mode.
#[derive(Debug, Clone, Copy, PartialEq, Eq, Structural)]
pub enum ViMode {
    Normal,
    Insert,
    Visual,
}

/// Modal state: the mode, a pending operator (`d` or `y`), the yank register
/// and the anchor of a visual selection.
#[derive(Debug, Clone)]
pub struct ViState {
    pub mode: ViMode,
    pub pending_op: Option<char>,
    pub yank_buffer: Option<String>,
    pub visual_anchor: Option<usize>,
}

/// The abstract state of a `ViState`.
pub struct ViModel {
    pub mode: ViMode,
    pub pending_op: Option<char>,
    pub yank: Option<Seq<char>>,
    pub visual_anchor: Option<usize>,
}

impl View for ViState {
    type V = ViModel;

    open spec fn view(&self) -> ViModel {
        ViModel {
            mode: self.mode,
            pending_op: self.pending_op,
            yank: match self.yank_buffer {
                Some(s) => Some(s@),
                None => None,
            },
            visual_anchor: self.visual_anchor,
        }
    }
}

// ---------------------------------------------------------------------------
// Specification
// ---------------------------------------------------------------------------

pub open spec fn is_escape_key(k: Seq<char>) -> bool {
    k == "escape"@ || k == "Esc"@ || k == "Escape"@ || k == "\x1b"@
}

pub open spec fn is_redo_key(k: Seq<char>) -> bool {
    k == "Ctrl-r"@ || k == "ctrl-r"@ || k == "C-r"@
}

/// A character of a word: alphanumeric or `_`.
pub open spec fn is_word(c: char) -> bool {
    is_alnum(c) || c == '_'
}

/// The same column on the next line; on the last line the offset itself.
pub open spec fn vi_line_down(text: Seq<char>, offset: int) -> int {
    let ls = line_start(text, offset);
    let le = line_end(text, offset);
    let len = utf8(text).len() as int;
    if le >= len {
        offset
    } else {
        let next_start = le + 1;
        let next_end = line_end(text, next_start);
        next_start + min_int(offset - ls, next_end - next_start)
    }
}

/// The same column on the previous line; on the first line the offset itself.
pub open spec fn vi_line_up(text: Seq<char>, offset: int) -> int {
    let ls = line_start(text, offset);
    if ls == 0 {
        offset
    } else {
        let prev_end = ls - 1;
        let prev_start = line_start(text, prev_end);
        prev_start + min_int(offset - ls, prev_end - prev_start)
    }
}

/// Scan for the `w` motion from character `k` on. `class` is the class of the
/// character under the cursor (0 whitespace, 1 word, 2 other); `past` records
/// that the group under the cursor has ended.
pub open spec fn next_word_scan(cs: Seq<char>, k: int, class: int, past: bool) -> int
    decreases cs.len() - k,
{
    if k < 0 || k >= cs.len() {
        utf8_len(cs)
    } else {
        let ch = cs[k];
        let idx = byte_pos(cs, k);
        if !past {
            if class == 0 {
                if !is_white(ch) {
                    idx
                } else {
                    next_word_scan(cs, k + 1, class, false)
                }
            } else if class == 1 {
                if !is_word(ch) {
                    if !is_white(ch) {
                        idx
                    } else {
                        next_word_scan(cs, k + 1, class, true)
                    }
                } else {
                    next_word_scan(cs, k + 1, class, false)
                }
            } else {
                if is_word(ch) {
                    idx
                } else if is_white(ch) {
                    next_word_scan(cs, k + 1, class, true)
                } else {
                    next_word_scan(cs, k + 1, class, false)
                }
            }
        } else {
            if !is_white(ch) {
                idx
            } else {
                next_word_scan(cs, k + 1, class, true)
            }
        }
    }
}

pub open spec fn char_class(c: char) -> int {
    if is_white(c) {
        0
    } else if is_word(c) {
        1
    } else {
        2
    }
}

/// Byte offset the `w` motion goes to from `offset`: the start of the next
/// word or punctuation group, or the end of the text.
pub open spec fn next_word_start(text: Seq<char>, offset: int) -> int {
    let k0 = char_at_or_after_byte(text, offset, 0);
    if k0 >= text.len() {
        utf8_len(text)
    } else {
        let k1 = if byte_pos(text, k0) > offset {
            k0
        } else {
            k0 + 1
        };
        next_word_scan(text, k1, char_class(text[k0]), false)
    }
}

/// Backward scan for the `b` motion over the first `k` characters.
pub open spec fn prev_word_scan(cs: Seq<char>, k: int, found: bool, target: bool, last: int) -> int
    decreases k,
{
    if k <= 0 {
        last
    } else {
        let ch = cs[k - 1];
        let idx = byte_pos(cs, k - 1);
        if !found {
            if is_white(ch) {
                prev_word_scan(cs, k - 1, false, target, last)
            } else {
                prev_word_scan(cs, k - 1, true, is_word(ch), idx)
            }
        } else if is_word(ch) == target && !is_white(ch) {
            prev_word_scan(cs, k - 1, true, target, idx)
        } else {
            last
        }
    }
}

/// Byte offset the `b` motion goes to from `offset`: the start of the word or
/// punctuation group before it.
pub open spec fn prev_word_start(text: Seq<char>, offset: int) -> int {
    if offset == 0 {
        0
    } else {
        prev_word_scan(text, char_at_or_after_byte(text, offset, 0), false, false, 0)
    }
}

/// End of the span `dd` and `yy` act on: the line with its newline.
pub open spec fn line_span_end(text: Seq<char>, offset: int) -> int {
    let le = line_end(text, offset);
    if le < utf8(text).len() && utf8(text)[le] == 10u8 {
        le + 1
    } else {
        le
    }
}

/// What a key does in Insert mode.
pub open spec fn insert_key(v: ViModel, t: TextModel, k: Seq<char>) -> (ViModel, TextModel, bool) {
    if is_escape_key(k) {
        let t2 = if t.cursor() > 0 && t.is_empty_selection() && t.cursor() > line_start(
            t.text,
            t.cursor(),
        ) {
            t.moved_left()
        } else {
            t
        };
        (ViModel { mode: ViMode::Normal, ..v }, t2, true)
    } else {
        (v, t, false)
    }
}

/// What a key does in Normal mode.
pub open spec fn normal_key(v: ViModel, t: TextModel, k: Seq<char>) -> (ViModel, TextModel, bool) {
    let cur = t.cursor();
    if is_escape_key(k) {
        (ViModel { pending_op: None, visual_anchor: None, ..v }, t, true)
    } else if k == "i"@ {
        (ViModel { mode: ViMode::Insert, ..v }, t, true)
    } else if k == "a"@ {
        (
            ViModel { mode: ViMode::Insert, ..v },
            if cur < t.len() {
                t.moved_right()
            } else {
                t
            },
            true,
        )
    } else if k == "v"@ {
        (ViModel { mode: ViMode::Visual, visual_anchor: Some(cur as usize), ..v }, t, true)
    } else if k == "h"@ {
        (v, t.moved_left(), true)
    } else if k == "l"@ {
        (v, t.moved_right(), true)
    } else if k == "j"@ {
        (v, t.moved_to(vi_line_down(t.text, cur)), true)
    } else if k == "k"@ {
        (v, t.moved_to(vi_line_up(t.text, cur)), true)
    } else if k == "0"@ {
        (v, t.moved_to(line_start(t.text, cur)), true)
    } else if k == "$"@ {
        (v, t.moved_to(line_end(t.text, cur)), true)
    } else if k == "w"@ {
        (v, t.moved_to(next_word_start(t.text, cur)), true)
    } else if k == "b"@ {
        (v, t.moved_to(prev_word_start(t.text, cur)), true)
    } else if k == "x"@ {
        (v, t.deleted(), true)
    } else if k == "u"@ {
        (v, t.undone(), true)
    } else if is_redo_key(k) {
        (v, t.redone(), true)
    } else if k == "d"@ {
        if v.pending_op == Some('d') {
            let s = line_start(t.text, cur);
            let e = line_span_end(t.text, cur);
            (
                ViModel { pending_op: None, yank: Some(text_slice(t.text, s, e)), ..v },
                t.range_replaced(s, e, Seq::empty()).moved_to(s),
                true,
            )
        } else {
            (ViModel { pending_op: Some('d'), ..v }, t, true)
        }
    } else if k == "y"@ {
        if v.pending_op == Some('y') {
            let s = line_start(t.text, cur);
            let e = line_span_end(t.text, cur);
            (ViModel { pending_op: None, yank: Some(text_slice(t.text, s, e)), ..v }, t, true)
        } else {
            (ViModel { pending_op: Some('y'), ..v }, t, true)
        }
    } else if k == "p"@ {
        (
            v,
            match v.yank {
                Some(y) => t.inserted(y),
                None => t,
            },
            true,
        )
    } else if k == "o"@ {
        let e = line_end(t.text, cur);
        (ViModel { mode: ViMode::Insert, ..v }, t.moved_to(e).inserted("\n"@), true)
    } else if k == "O"@ {
        let s = line_start(t.text, cur);
        (ViModel { mode: ViMode::Insert, ..v }, t.moved_to(s).inserted("\n"@).moved_to(s), true)
    } else {
        (ViModel { pending_op: None, ..v }, t, false)
    }
}

/// What a key does in Visual mode.
pub open spec fn visual_key(v: ViModel, t: TextModel, k: Seq<char>) -> (ViModel, TextModel, bool) {
    let cur = t.cursor();
    let back = ViModel { mode: ViMode::Normal, visual_anchor: None, ..v };
    if is_escape_key(k) || k == "v"@ {
        (back, t.moved_to(cur), true)
    } else if k == "h"@ {
        (v, t.selected_left(), true)
    } else if k == "l"@ {
        (v, t.selected_right(), true)
    } else if k == "j"@ {
        (v, t.selected_to(vi_line_down(t.text, cur)), true)
    } else if k == "k"@ {
        (v, t.selected_to(vi_line_up(t.text, cur)), true)
    } else if k == "w"@ {
        (v, t.selected_to(next_word_start(t.text, cur)), true)
    } else if k == "b"@ {
        (v, t.selected_to(prev_word_start(t.text, cur)), true)
    } else if k == "0"@ {
        (v, t.selected_to(line_start(t.text, cur)), true)
    } else if k == "$"@ {
        (v, t.selected_to(line_end(t.text, cur)), true)
    } else if k == "d"@ || k == "x"@ {
        if t.start != t.end {
            (
                ViModel { yank: Some(text_slice(t.text, t.start, t.end)), ..back },
                t.range_replaced(t.start, t.end, Seq::empty()).moved_to(t.start),
                true,
            )
        } else {
            (back, t, true)
        }
    } else if k == "y"@ {
        if t.start != t.end {
            (ViModel { yank: Some(text_slice(t.text, t.start, t.end)), ..back }, t.moved_to(cur), true)
        } else {
            (back, t.moved_to(cur), true)
        }
    } else {
        (v, t, false)
    }
}

/// What a key does: the new modal state, the new text state, and whether the
/// key was handled.
pub open spec fn vi_key(v: ViModel, t: TextModel, k: Seq<char>) -> (ViModel, TextModel, bool) {
    match v.mode {
        ViMode::Normal => normal_key(v, t, k),
        ViMode::Insert => insert_key(v, t, k),
        ViMode::Visual => visual_key(v, t, k),
    }
}

/// Keys that read the text at the cursor need the cursor on a character
/// boundary, and keys that cut or paste need the whole selection there, as
/// slicing the text elsewhere would panic. A first `d` or `y`, which only
/// records the operator, and a Visual `d`, `x` or `y` on an empty selection,
/// which only leave Visual mode, read nothing.
pub open spec fn key_precondition(v: ViModel, t: TextModel, k: Seq<char>) -> bool {
    let cur_ok = is_boundary(utf8(t.text), t.cursor());
    match v.mode {
        ViMode::Insert => is_escape_key(k) && t.cursor() > 0 && t.is_empty_selection() ==> cur_ok,
        ViMode::Normal => {
            &&& !is_escape_key(k) && (k == "j"@ || k == "k"@ || k == "0"@ || k == "$"@ || k
                == "o"@ || k == "O"@ || (k == "y"@ && v.pending_op == Some('y')) || (k == "d"@
                && v.pending_op == Some('d'))) ==> cur_ok
            &&& !is_escape_key(k) && k != "i"@ && k != "a"@ && k != "v"@ && k != "h"@ && k
                != "l"@ && k != "j"@ && k != "k"@ && k != "0"@ && k != "$"@ && k != "w"@ && k
                != "b"@ && (k == "x"@ || (k == "p"@ && v.yank is Some)) ==> t.on_boundaries()
        },
        ViMode::Visual => {
            &&& !is_escape_key(k) && k != "v"@ && (k == "j"@ || k == "k"@ || k == "0"@ || k
                == "$"@) ==> cur_ok
            &&& !is_escape_key(k) && k != "v"@ && (k == "d"@ || k == "x"@ || k == "y"@)
                && !t.is_empty_selection() ==> t.on_boundaries()
        },
    }
}

// ---------------------------------------------------------------------------
// Implementation
// ---------------------------------------------------------------------------

impl Default for ViState {
    fn default() -> (r: Self)
        ensures
            r@ == (ViModel {
                mode: ViMode::Normal,
                pending_op: None,
                yank: None,
                visual_anchor: None,
            }),
    {
        Self::new()
    }
}

fn is_escape(key: &str) -> (r: bool)
    ensures
        r == is_escape_key(key@),
{
    str_eq(key, "escape") || str_eq(key, "Esc") || str_eq(key, "Escape") || str_eq(key, "\x1b")
}

impl ViState {
    /// Normal mode, nothing pending, empty register, no anchor.
    pub fn new() -> (r: Self)
        ensures
            r@ == (ViModel {
                mode: ViMode::Normal,
                pending_op: None,
                yank: None,
                visual_anchor: None,
            }),
    {
        Self { mode: ViMode::Normal, pending_op: None, yank_buffer: None, visual_anchor: None }
    }

    /// Applies one key to the modal state and the text; returns whether the
    /// key was handled.
    pub fn handle_key(&mut self, key: &str, state: &mut TextInputState) -> (handled: bool)
        requires
            old(state).wf(),
            key_precondition(old(self)@, old(state)@, key@),
        ensures
            final(state).wf(),
            (final(self)@, final(state)@, handled) == vi_key(old(self)@, old(state)@, key@),
    {
        match self.mode {
            ViMode::Normal => self.handle_normal_key(key, state),
            ViMode::Insert => self.handle_insert_key(key, state),
            ViMode::Visual => self.handle_visual_key(key, state),
        }
    }

    fn handle_insert_key(&mut self, key: &str, state: &mut TextInputState) -> (handled: bool)
        requires
            old(self)@.mode == ViMode::Insert,
            old(state).wf(),
            key_precondition(old(self)@, old(state)@, key@),
        ensures
            final(state).wf(),
            (final(self)@, final(state)@, handled) == insert_key(old(self)@, old(state)@, key@),
    {
        if is_escape(key) {
            self.mode = ViMode::Normal;
            let range = state.selected_range();
            if state.cursor_offset() > 0 && range.start == range.end {
                let cur = state.cursor_offset();
                let line_start = state.find_line_start(cur);
                if cur > line_start {
                    state.move_left();
                }
            }
            true
        } else {
            false
        }
    }

    fn handle_normal_key(&mut self, key: &str, state: &mut TextInputState) -> (handled: bool)
        requires
            old(self)@.mode == ViMode::Normal,
            old(state).wf(),
            key_precondition(old(self)@, old(state)@, key@),
        ensures
            final(state).wf(),
            (final(self)@, final(state)@, handled) == normal_key(old(self)@, old(state)@, key@),
    {
        if is_escape(key) {
            self.pending_op = None;
            self.visual_anchor = None;
            true
        } else if str_eq(key, "i") {
            self.mode = ViMode::Insert;
            true
        } else if str_eq(key, "a") {
            self.mode = ViMode::Insert;
            if state.cursor_offset() < byte_len(state.content()) {
                state.move_right();
            }
            true
        } else if str_eq(key, "v") {
            self.mode = ViMode::Visual;
            self.visual_anchor = Some(state.cursor_offset());
            true
        } else if str_eq(key, "h") {
            state.move_left();
            true
        } else if str_eq(key, "l") {
            state.move_right();
            true
        } else if str_eq(key, "j") {
            let cur = state.cursor_offset();
            let target = find_line_down(state.content(), cur);
            state.move_to(target);
            true
        } else if str_eq(key, "k") {
            let cur = state.cursor_offset();
            let target = find_line_up(state.content(), cur);
            state.move_to(target);
            true
        } else if str_eq(key, "0") {
            let cur = state.cursor_offset();
            let target = find_line_start_in(state.content(), cur);
            state.move_to(target);
            true
        } else if str_eq(key, "$") {
            let cur = state.cursor_offset();
            let target = find_line_end_in(state.content(), cur);
            state.move_to(target);
            true
        } else if str_eq(key, "w") {
            let cur = state.cursor_offset();
            let target = find_next_word_start(state.content(), cur);
            state.move_to(target);
            true
        } else if str_eq(key, "b") {
            let cur = state.cursor_offset();
            let target = find_prev_word_start(state.content(), cur);
            state.move_to(target);
            true
        } else if str_eq(key, "x") {
            state.delete();
            true
        } else if str_eq(key, "u") {
            state.undo();
            true
        } else if str_eq(key, "Ctrl-r") || str_eq(key, "ctrl-r") || str_eq(key, "C-r") {
            state.redo();
            true
        } else if str_eq(key, "d") {
            let pending_d = match self.pending_op {
                Some(c) => c == 'd',
                None => false,
            };
            if pending_d {
                self.pending_op = None;
                let cur = state.cursor_offset();
                let (start, end) = line_span(state.content(), cur);
                self.yank_buffer = Some(slice_owned(state.content(), start, end));
                state.replace_range(start..end, "");
                proof {
                    reveal_strlit("");
                }
                let n = byte_len(state.content());
                let target = if start < n {
                    start
                } else {
                    n
                };
                state.move_to(target);
                true
            } else {
                self.pending_op = Some('d');
                true
            }
        } else if str_eq(key, "y") {
            let pending_y = match self.pending_op {
                Some(c) => c == 'y',
                None => false,
            };
            if pending_y {
                self.pending_op = None;
                let cur = state.cursor_offset();
                let (start, end) = line_span(state.content(), cur);
                self.yank_buffer = Some(slice_owned(state.content(), start, end));
                true
            } else {
                self.pending_op = Some('y');
                true
            }
        } else if str_eq(key, "p") {
            match &self.yank_buffer {
                Some(buf) => state.insert(buf.as_str()),
                None => {},
            }
            true
        } else if str_eq(key, "o") {
            let cur = state.cursor_offset();
            let end = find_line_end_in(state.content(), cur);
            proof {
                lemma_line_end_boundary(state@.text, cur as int);
            }
            state.move_to(end);
            state.insert("\n");
            self.mode = ViMode::Insert;
            true
        } else if str_eq(key, "O") {
            let cur = state.cursor_offset();
            let start = find_line_start_in(state.content(), cur);
            proof {
                lemma_line_start_boundary(state@.text, cur as int);
            }
            state.move_to(start);
            state.insert("\n");
            state.move_to(start);
            self.mode = ViMode::Insert;
            true
        } else {
            self.pending_op = None;
            false
        }
    }

    fn handle_visual_key(&mut self, key: &str, state: &mut TextInputState) -> (handled: bool)
        requires
            old(self)@.mode == ViMode::Visual,
            old(state).wf(),
            key_precondition(old(self)@, old(state)@, key@),
        ensures
            final(state).wf(),
            (final(self)@, final(state)@, handled) == visual_key(old(self)@, old(state)@, key@),
    {
        if is_escape(key) || str_eq(key, "v") {
            self.mode = ViMode::Normal;
            self.visual_anchor = None;
            let cur = state.cursor_offset();
            state.move_to(cur);
            true
        } else if str_eq(key, "h") {
            state.select_left();
            true
        } else if str_eq(key, "l") {
            state.select_right();
            true
        } else if str_eq(key, "j") {
            let cur = state.cursor_offset();
            let target = find_line_down(state.content(), cur);
            state.select_to(target);
            true
        } else if str_eq(key, "k") {
            let cur = state.cursor_offset();
            let target = find_line_up(state.content(), cur);
            state.select_to(target);
            true
        } else if str_eq(key, "w") {
            let cur = state.cursor_offset();
            let target = find_next_word_start(state.content(), cur);
            state.select_to(target);
            true
        } else if str_eq(key, "b") {
            let cur = state.cursor_offset();
            let target = find_prev_word_start(state.content(), cur);
            state.select_to(target);
            true
        } else if str_eq(key, "0") {
            let cur = state.cursor_offset();
            let target = find_line_start_in(state.content(), cur);
            state.select_to(target);
            true
        } else if str_eq(key, "$") {
            let cur = state.cursor_offset();
            let target = find_line_end_in(state.content(), cur);
            state.select_to(target);
            true
        } else if str_eq(key, "d") || str_eq(key, "x") {
            let range = state.selected_range();
            if range.start != range.end {
                let yanked = slice_owned(state.content(), range.start, range.end);
                self.yank_buffer = Some(yanked);
                state.replace_range(range.start..range.end, "");
                proof {
                    reveal_strlit("");
                }
                state.move_to(range.start);
            }
            self.mode = ViMode::Normal;
            self.visual_anchor = None;
            true
        } else if str_eq(key, "y") {
            let range = state.selected_range();
            if range.start != range.end {
                self.yank_buffer = Some(slice_owned(state.content(), range.start, range.end));
            }
            let cur = state.cursor_offset();
            state.move_to(cur);
            self.mode = ViMode::Normal;
            self.visual_anchor = None;
            true
        } else {
            false
        }
    }
}

/// Line starts are character boundaries.
proof fn lemma_line_start_boundary(text: Seq<char>, offset: int)
    requires
        offset >= 0,
    ensures
        is_boundary(utf8(text), line_start(text, offset)),
{
    lemma_line_start_bounds(text, offset);
    lemma_boundary_zero(text);
    let ls = line_start(text, offset);
    if ls > 0 {
        lemma_after_newline_is_boundary(text, ls - 1);
    }
}

/// Line ends are character boundaries.
proof fn lemma_line_end_boundary(text: Seq<char>, offset: int)
    requires
        offset >= 0,
    ensures
        is_boundary(utf8(text), line_end(text, offset)),
        line_end(text, offset) <= utf8(text).len(),
{
    lemma_line_end_bounds(text, offset);
}

/// The span of the line holding `offset`, with its newline.
fn line_span(content: &str, offset: usize) -> (r: (usize, usize))
    requires
        is_boundary(utf8(content@), min_int(offset as int, utf8(content@).len() as int)),
    ensures
        r.0 == line_start(content@, offset as int),
        r.1 == line_span_end(content@, offset as int),
        r.0 <= r.1 <= utf8(content@).len(),
        is_boundary(utf8(content@), r.0 as int),
        is_boundary(utf8(content@), r.1 as int),
{
    let start = find_line_start_in(content, offset);
    let mut end = find_line_end_in(content, offset);
    proof {
        lemma_line_start_boundary(content@, offset as int);
        lemma_line_end_boundary(content@, offset as int);
        lemma_line_start_bounds(content@, offset as int);
        lemma_line_end_bounds(content@, offset as int);
    }
    let b = content.as_bytes();
    if end < b.len() && b[end] == 10u8 {
        proof {
            lemma_after_newline_is_boundary(content@, end as int);
        }
        end = end + 1;
    }
    (start, end)
}

/// The same column on the next line; on the last line `offset` itself.
fn find_line_down(content: &str, offset: usize) -> (r: usize)
    requires
        is_boundary(utf8(content@), min_int(offset as int, utf8(content@).len() as int)),
    ensures
        r == vi_line_down(content@, offset as int),
{
    let line_start = find_line_start_in(content, offset);
    proof {
        lemma_line_start_bounds(content@, offset as int);
        lemma_line_end_bounds(content@, offset as int);
    }
    let col = offset - line_start;
    let line_end = find_line_end_in(content, offset);
    let n = byte_len(content);
    if line_end >= n {
        return offset;
    }
    let next_line_start = line_end + 1;
    proof {
        lemma_after_newline_is_boundary(content@, line_end as int);
    }
    let next_line_end = find_line_end_in(content, next_line_start);
    proof {
        lemma_line_end_bounds(content@, next_line_start as int);
    }
    let next_line_len = next_line_end - next_line_start;
    next_line_start + if col < next_line_len {
        col
    } else {
        next_line_len
    }
}

/// The same column on the previous line; on the first line `offset` itself.
fn find_line_up(content: &str, offset: usize) -> (r: usize)
    requires
        is_boundary(utf8(content@), min_int(offset as int, utf8(content@).len() as int)),
    ensures
        r == vi_line_up(content@, offset as int),
{
    let line_start = find_line_start_in(content, offset);
    if line_start == 0 {
        return offset;
    }
    proof {
        lemma_line_start_bounds(content@, offset as int);
    }
    let col = offset - line_start;
    let prev_line_end = line_start - 1;
    proof {
        lemma_line_start_bounds(content@, prev_line_end as int);
    }
    let prev_line_start = find_line_start_in(content, prev_line_end);
    let prev_line_len = prev_line_end - prev_line_start;
    prev_line_start + if col < prev_line_len {
        col
    } else {
        prev_line_len
    }
}

fn is_word_char(c: char) -> (r: bool)
    ensures
        r == is_word(c),
{
    char_is_alphanumeric(c) || c == '_'
}

/// Start of the next word or punctuation group after `offset` (`w`).
fn find_next_word_start(content: &str, offset: usize) -> (r: usize)
    ensures
        r == next_word_start(content@, offset as int),
{
    let cs = chars_of(content);
    let total = byte_len(content);
    let p = char_starts(&cs, total);
    proof {
        lemma_byte_pos_bounded(cs@, cs@.len() as int);
        assert(cs@.take(cs@.len() as int) =~= cs@);
    }
    let n = cs.len();
    let mut k0: usize = 0;
    while k0 < n && p[k0] < offset
        invariant
            n == cs@.len(),
            k0 <= n,
            p@.len() == n + 1,
            forall|k: int| 0 <= k <= n ==> p@[k] == byte_pos(cs@, k),
            char_at_or_after_byte(cs@, offset as int, 0) == char_at_or_after_byte(
                cs@,
                offset as int,
                k0 as int,
            ),
        decreases n - k0,
    {
        k0 = k0 + 1;
    }
    if k0 >= n {
        return total;
    }
    let first_ch = cs[k0];
    let first_is_ws = char_is_whitespace(first_ch);
    let first_is_word = is_word_char(first_ch);
    let class: Ghost<int> = Ghost(char_class(first_ch));
    let mut k = if p[k0] > offset {
        k0
    } else {
        k0 + 1
    };
    let mut past_first_group = false;
    while k < n
        invariant
            n == cs@.len(),
            k <= n,
            p@.len() == n + 1,
            total == utf8_len(cs@),
            forall|j: int| 0 <= j <= n ==> p@[j] == byte_pos(cs@, j),
            class@ == (if first_is_ws {
                0int
            } else if first_is_word {
                1int
            } else {
                2int
            }),
            next_word_start(content@, offset as int) == next_word_scan(
                cs@,
                k as int,
                class@,
                past_first_group,
            ),
        decreases n - k,
    {
        let ch = cs[k];
        let idx = p[k];
        let ws = char_is_whitespace(ch);
        if !past_first_group {
            if first_is_ws {
                if !ws {
                    return idx;
                }
            } else if first_is_word {
                if !is_word_char(ch) {
                    if !ws {
                        return idx;
                    }
                    past_first_group = true;
                }
            } else {
                if is_word_char(ch) {
                    return idx;
                }
                if ws {
                    past_first_group = true;
                }
            }
        } else if !ws {
            return idx;
        }
        k = k + 1;
    }
    total
}

/// Start of the word or punctuation group before `offset` (`b`).
fn find_prev_word_start(content: &str, offset: usize) -> (r: usize)
    ensures
        r == prev_word_start(content@, offset as int),
{
    if offset == 0 {
        return 0;
    }
    let cs = chars_of(content);
    let total = byte_len(content);
    let p = char_starts(&cs, total);
    let n = cs.len();
    let mut m: usize = 0;
    while m < n && p[m] < offset
        invariant
            n == cs@.len(),
            m <= n,
            p@.len() == n + 1,
            forall|k: int| 0 <= k <= n ==> p@[k] == byte_pos(cs@, k),
            char_at_or_after_byte(cs@, offset as int, 0) == char_at_or_after_byte(
                cs@,
                offset as int,
                m as int,
            ),
        decreases n - m,
    {
        m = m + 1;
    }
    let mut k = m;
    let mut non_ws_found = false;
    let mut target_is_word = false;
    let mut last_idx: usize = 0;
    while k > 0
        invariant
            n == cs@.len(),
            k <= m <= n,
            p@.len() == n + 1,
            forall|j: int| 0 <= j <= n ==> p@[j] == byte_pos(cs@, j),
            prev_word_start(content@, offset as int) == prev_word_scan(
                cs@,
                k as int,
                non_ws_found,
                target_is_word,
                last_idx as int,
            ),
        decreases k,
    {
        let ch = cs[k - 1];
        let idx = p[k - 1];
        if !non_ws_found {
            if !char_is_whitespace(ch) {
                non_ws_found = true;
                target_is_word = is_word_char(ch);
                last_idx = idx;
            }
        } else {
            if is_word_char(ch) == target_is_word && !char_is_whitespace(ch) {
                last_idx = idx;
            } else {
                return last_idx;
            }
        }
        k = k - 1;
    }
    last_idx
}

/// The keys that come before `x`, `u` and `d` in Normal mode are other keys.
proof fn lemma_normal_keys_differ()
    ensures
        !is_escape_key("x"@) && !is_escape_key("u"@) && !is_escape_key("d"@),
        !is_redo_key("u"@) && !is_redo_key("d"@),
        "x"@ != "i"@ && "x"@ != "a"@ && "x"@ != "v"@ && "x"@ != "h"@ && "x"@ != "l"@,
        "x"@ != "j"@ && "x"@ != "k"@ && "x"@ != "0"@ && "x"@ != "$"@ && "x"@ != "w"@,
        "x"@ != "b"@,
        "u"@ != "i"@ && "u"@ != "a"@ && "u"@ != "v"@ && "u"@ != "h"@ && "u"@ != "l"@,
        "u"@ != "j"@ && "u"@ != "k"@ && "u"@ != "0"@ && "u"@ != "$"@ && "u"@ != "w"@,
        "u"@ != "b"@ && "u"@ != "x"@,
        "d"@ != "i"@ && "d"@ != "a"@ && "d"@ != "v"@ && "d"@ != "h"@ && "d"@ != "l"@,
        "d"@ != "j"@ && "d"@ != "k"@ && "d"@ != "0"@ && "d"@ != "$"@ && "d"@ != "w"@,
        "d"@ != "b"@ && "d"@ != "x"@ && "d"@ != "u"@,
        !is_escape_key("y"@) && !is_escape_key("p"@) && !is_redo_key("y"@) && !is_redo_key("p"@),
        "y"@ != "i"@ && "y"@ != "a"@ && "y"@ != "v"@ && "y"@ != "h"@ && "y"@ != "l"@,
        "y"@ != "j"@ && "y"@ != "k"@ && "y"@ != "0"@ && "y"@ != "$"@ && "y"@ != "w"@,
        "y"@ != "b"@ && "y"@ != "x"@ && "y"@ != "u"@ && "y"@ != "d"@,
        "p"@ != "i"@ && "p"@ != "a"@ && "p"@ != "v"@ && "p"@ != "h"@ && "p"@ != "l"@,
        "p"@ != "j"@ && "p"@ != "k"@ && "p"@ != "0"@ && "p"@ != "$"@ && "p"@ != "w"@,
        "p"@ != "b"@ && "p"@ != "x"@ && "p"@ != "u"@ && "p"@ != "d"@ && "p"@ != "y"@,
{
    reveal_strlit("x");
    reveal_strlit("u");
    reveal_strlit("d");
    reveal_strlit("i");
    reveal_strlit("a");
    reveal_strlit("v");
    reveal_strlit("h");
    reveal_strlit("l");
    reveal_strlit("j");
    reveal_strlit("k");
    reveal_strlit("0");
    reveal_strlit("$");
    reveal_strlit("w");
    reveal_strlit("b");
    reveal_strlit("escape");
    reveal_strlit("Esc");
    reveal_strlit("Escape");
    reveal_strlit("\x1b");
    reveal_strlit("Ctrl-r");
    reveal_strlit("ctrl-r");
    reveal_strlit("C-r");
    reveal_strlit("y");
    reveal_strlit("p");
    let ks: Seq<Seq<char>> = seq!["x"@, "u"@, "d"@, "y"@, "p"@];
    assert forall|i: int| 0 <= i < 5 implies !is_escape_key(#[trigger] ks[i]) && !is_redo_key(
        ks[i],
    ) by {
        assert(ks[i].len() == 1);
        assert("escape"@.len() != 1 && "Esc"@.len() != 1 && "Escape"@.len() != 1);
        assert("Ctrl-r"@.len() != 1 && "ctrl-r"@.len() != 1 && "C-r"@.len() != 1);
        assert("\x1b"@[0] != ks[i][0]);
    }
    assert(ks[0] == "x"@ && ks[1] == "u"@ && ks[2] == "d"@ && ks[3] == "y"@ && ks[4] == "p"@);
    let others: Seq<Seq<char>> = seq![
        "i"@,
        "a"@,
        "v"@,
        "h"@,
        "l"@,
        "j"@,
        "k"@,
        "0"@,
        "$"@,
        "w"@,
        "b"@,
        "x"@,
        "u"@,
        "d"@,
    ];
    assert forall|i: int| 0 <= i < 14 implies #[trigger] others[i] != "y"@ && others[i] != "p"@ by {
        assert(others[i].len() == 1);
        assert(others[i][0] != "y"@[0] && others[i][0] != "p"@[0]);
    }
    assert(others[0] == "i"@ && others[1] == "a"@ && others[2] == "v"@ && others[3] == "h"@);
    assert(others[4] == "l"@ && others[5] == "j"@ && others[6] == "k"@ && others[7] == "0"@);
    assert(others[8] == "$"@ && others[9] == "w"@ && others[10] == "b"@ && others[11] == "x"@);
    assert(others[12] == "u"@ && others[13] == "d"@);
    assert("p"@[0] != "y"@[0]);
    assert("x"@[0] != "i"@[0] && "x"@[0] != "a"@[0] && "x"@[0] != "v"@[0]);
    assert("x"@[0] != "h"@[0] && "x"@[0] != "l"@[0] && "x"@[0] != "j"@[0]);
    assert("x"@[0] != "k"@[0] && "x"@[0] != "0"@[0] && "x"@[0] != "$"@[0]);
    assert("x"@[0] != "w"@[0] && "x"@[0] != "b"@[0]);
    assert("u"@[0] != "i"@[0] && "u"@[0] != "a"@[0] && "u"@[0] != "v"@[0]);
    assert("u"@[0] != "h"@[0] && "u"@[0] != "l"@[0] && "u"@[0] != "j"@[0]);
    assert("u"@[0] != "k"@[0] && "u"@[0] != "0"@[0] && "u"@[0] != "$"@[0]);
    assert("u"@[0] != "w"@[0] && "u"@[0] != "b"@[0] && "u"@[0] != "x"@[0]);
    assert("d"@[0] != "i"@[0] && "d"@[0] != "a"@[0] && "d"@[0] != "v"@[0]);
    assert("d"@[0] != "h"@[0] && "d"@[0] != "l"@[0] && "d"@[0] != "j"@[0]);
    assert("d"@[0] != "k"@[0] && "d"@[0] != "0"@[0] && "d"@[0] != "$"@[0]);
    assert("d"@[0] != "w"@[0] && "d"@[0] != "b"@[0] && "d"@[0] != "x"@[0]);
    assert("d"@[0] != "u"@[0]);
}

/// In Normal mode, `x` on a character (or a selection) and then `u` give
/// back the text and selection from before the `x`; the modal state is
/// unchanged.
pub proof fn law_vi_delete_then_undo(v: ViModel, t: TextModel)
    requires
        v.mode == ViMode::Normal,
        delete_edits(t),
    ensures
        ({
            let (v1, t1, h1) = vi_key(v, t, "x"@);
            let (v2, t2, h2) = vi_key(v1, t1, "u"@);
            &&& h1 && h2
            &&& v2 == v
            &&& t2 == restored(t, t1)
        }),
{
    lemma_normal_keys_differ();
    law_undo_delete(t);
}

/// In Normal mode with no pending operator, `d`, `d` deletes the line under
/// the cursor into the yank register, and `u` then gives back the text and
/// selection from before the first `d`.
pub proof fn law_vi_delete_line_then_undo(v: ViModel, t: TextModel)
    requires
        v.mode == ViMode::Normal,
        v.pending_op is None,
    ensures
        ({
            let (v1, t1, h1) = vi_key(v, t, "d"@);
            let (v2, t2, h2) = vi_key(v1, t1, "d"@);
            let (v3, t3, h3) = vi_key(v2, t2, "u"@);
            let s = line_start(t.text, t.cursor());
            let e = line_span_end(t.text, t.cursor());
            &&& h1 && h2 && h3
            &&& t1 == t
            &&& v2 == (ViModel { pending_op: None, yank: Some(text_slice(t.text, s, e)), ..v })
            &&& t3.text == t.text && t3.start == t.start && t3.end == t.end
            &&& t3.reversed == t.reversed && t3.undo == t.undo
        }),
{
    lemma_normal_keys_differ();
    let (v1, t1, h1) = vi_key(v, t, "d"@);
    assert(v1.pending_op == Some('d'));
    let (v2, t2, h2) = vi_key(v1, t1, "d"@);
    let s = line_start(t.text, t.cursor());
    let e = line_span_end(t.text, t.cursor());
    assert(t2 == t.range_replaced(s, e, Seq::empty()).moved_to(s));
    assert(t2.undo == t.undo.push(t.snapshot()));
    let (v3, t3, h3) = vi_key(v2, t2, "u"@);
    assert(t3 == t2.undone());
    assert(t3.undo =~= t.undo);
}

/// In Normal mode with no pending operator, `y`, `y` yanks the line under
/// the cursor without changing the text, and `p` then inserts that line at
/// the selection, as an undoable edit.
pub proof fn law_vi_yank_then_put(v: ViModel, t: TextModel)
    requires
        v.mode == ViMode::Normal,
        v.pending_op is None,
    ensures
        ({
            let (v1, t1, h1) = vi_key(v, t, "y"@);
            let (v2, t2, h2) = vi_key(v1, t1, "y"@);
            let (v3, t3, h3) = vi_key(v2, t2, "p"@);
            let line = text_slice(t.text, line_start(t.text, t.cursor()), line_span_end(
                t.text,
                t.cursor(),
            ));
            &&& h1 && h2 && h3
            &&& t2 == t
            &&& v2 == (ViModel { pending_op: None, yank: Some(line), ..v })
            &&& v3 == v2
            &&& t3 == t.inserted(line)
        }),
{
    lemma_normal_keys_differ();
    let (v1, t1, h1) = vi_key(v, t, "y"@);
    assert(v1.pending_op == Some('y'));
}

/// `j` lands on the next line, as far into it as the cursor was into its own
/// line, or at its end when it is shorter; on the last line it stays put.
pub proof fn law_j_keeps_column(text: Seq<char>, offset: int)
    requires
        0 <= offset <= utf8(text).len(),
    ensures
        ({
            let b = utf8(text);
            let le = line_end(text, offset);
            let col = offset - line_start(text, offset);
            let r = vi_line_down(text, offset);
            &&& le >= b.len() ==> r == offset
            &&& le < b.len() ==> {
                &&& b[le] == 10u8
                &&& le + 1 <= r <= le + 1 + col
                &&& forall|j: int| le + 1 <= j < r ==> b[j] != 10u8
                &&& r < le + 1 + col ==> r == b.len() || b[r] == 10u8
            }
        }),
{
    law_line_down_keeps_column(text, offset);
}

/// `k` lands on the previous line, as far into it as the cursor was into its
/// own line, or at its end when it is shorter; on the first line it stays put.
pub proof fn law_k_keeps_column(text: Seq<char>, offset: int)
    requires
        0 <= offset <= utf8(text).len(),
    ensures
        ({
            let b = utf8(text);
            let ls = line_start(text, offset);
            let col = offset - ls;
            let ps = line_start(text, ls - 1);
            let r = vi_line_up(text, offset);
            &&& ls == 0 ==> r == offset
            &&& ls > 0 ==> {
                &&& b[ls - 1] == 10u8
                &&& ps == 0 || b[ps - 1] == 10u8
                &&& ps <= r <= ps + col
                &&& r <= ls - 1
                &&& forall|j: int| ps <= j < r ==> b[j] != 10u8
                &&& r < ps + col ==> r == ls - 1
            }
        }),
{
    law_line_up_keeps_column(text, offset);
}

} // verus!
