//! The selection state machine: typed letters narrowing down to one cell.

use crate::grid::{
    cell_center, idx_to_letter, index_of_letter, is_code_letter, letter_of, letter_to_idx, Grid,
};
use vstd::prelude::*;
use vstd::string::StrSliceExecFns;

verus! {

/// Where a selection session stands: nothing typed yet, part of a code
/// typed, or a full valid code typed. `Resolved` is terminal: the session
/// ends as soon as it is reached.
#[derive(Clone, Copy, Debug, PartialEq, Eq, Structural)]
pub enum SelectionState {
    Empty,
    PartialMatch,
    Resolved,
}

/// A typed buffer is well formed when it holds at most a full two-letter
/// code and nothing but code letters.
pub open spec fn buffer_wf(buf: Seq<char>) -> bool {
    &&& buf.len() <= 2
    &&& forall|i: int| 0 <= i < buf.len() ==> is_code_letter(#[trigger] buf[i])
}

/// Whether `c` is an ASCII letter of either case: the only keystrokes a
/// session accepts into its buffer.
pub open spec fn is_ascii_letter(c: char) -> bool {
    (65 <= c as int <= 90) || (97 <= c as int <= 122)
}

/// The uppercase form of an ASCII letter; any other character is returned
/// unchanged.
pub open spec fn spec_upper(c: char) -> char {
    if 97 <= c as int <= 122 {
        ((c as int - 32) as u8) as char
    } else {
        c
    }
}

/// What typing one character does to the buffer: an ASCII letter is
/// uppercased and appended while the buffer is short of a full code; any
/// other keystroke, or a letter against a full buffer, changes nothing.
pub open spec fn spec_type_char(buf: Seq<char>, c: char) -> Seq<char> {
    if is_ascii_letter(c) && buf.len() < 2 {
        buf.push(spec_upper(c))
    } else {
        buf
    }
}

/// What typing a whole run of characters does to the buffer: each one is
/// fed in order, first character first.
pub open spec fn spec_type_text(buf: Seq<char>, text: Seq<char>) -> Seq<char>
    decreases text.len(),
{
    if text.len() == 0 {
        buf
    } else {
        spec_type_text(spec_type_char(buf, text[0]), text.drop_first())
    }
}

/// Typing a run and then one more character is typing the run extended by
/// that character.
proof fn lemma_type_text_snoc(buf: Seq<char>, text: Seq<char>, c: char)
    ensures
        spec_type_text(buf, text.push(c)) == spec_type_char(spec_type_text(buf, text), c),
    decreases text.len(),
{
    if text.len() == 0 {
        assert(text.push(c)[0] == c);
        assert(text.push(c).drop_first() =~= text);
        assert(spec_type_text(buf, text.push(c)) == spec_type_text(spec_type_char(buf, c), text));
        assert(spec_type_text(spec_type_char(buf, c), text) == spec_type_char(buf, c));
        assert(spec_type_text(buf, text) == buf);
    } else {
        assert(text.push(c).drop_first() =~= text.drop_first().push(c));
        assert(text.push(c)[0] == text[0]);
        assert(spec_type_text(buf, text.push(c)) == spec_type_text(
            spec_type_char(buf, text[0]),
            text.drop_first().push(c),
        ));
        lemma_type_text_snoc(spec_type_char(buf, text[0]), text.drop_first(), c);
        assert(spec_type_text(buf, text) == spec_type_text(
            spec_type_char(buf, text[0]),
            text.drop_first(),
        ));
    }
}

/// What backspace does to the buffer: drops the last character, and is a
/// no-op on an empty buffer.
pub open spec fn spec_backspace(buf: Seq<char>) -> Seq<char> {
    if buf.len() == 0 {
        buf
    } else {
        buf.drop_last()
    }
}

/// Whether a fully typed buffer names a cell of a grid with `size` rows and
/// columns: both letters decode to indices below `size`.
pub open spec fn is_valid_code(buf: Seq<char>, size: int) -> bool {
    &&& buf.len() == 2
    &&& index_of_letter(buf[0]) < size
    &&& index_of_letter(buf[1]) < size
}

/// The state a buffer puts the session in, against a grid of the given
/// size. A full buffer whose code is out of range is not resolved: the
/// session stays open on a partial match, waiting for backspace.
pub open spec fn spec_state(buf: Seq<char>, size: int) -> SelectionState {
    if buf.len() == 0 {
        SelectionState::Empty
    } else if is_valid_code(buf, size) {
        SelectionState::Resolved
    } else {
        SelectionState::PartialMatch
    }
}

/// Whether `needle` occurs as a contiguous run inside `hay`.
pub open spec fn is_substring(hay: Seq<char>, needle: Seq<char>) -> bool {
    exists|i: int|
        0 <= i && i + needle.len() <= hay.len() && #[trigger] hay.subrange(
            i,
            i + needle.len() as int,
        ) == needle
}

/// A buffer that spells out the first characters of a code occurs in it.
proof fn lemma_prefix_is_substring(hay: Seq<char>, needle: Seq<char>)
    requires
        needle.len() <= hay.len(),
        hay.subrange(0, needle.len() as int) == needle,
    ensures
        is_substring(hay, needle),
{
    assert(0 <= 0 && 0 + needle.len() <= hay.len() && hay.subrange(0, 0 + needle.len() as int)
        == needle);
}

/// A substring as long as the whole string is the whole string.
proof fn lemma_substring_full(hay: Seq<char>, needle: Seq<char>)
    requires
        hay.len() == needle.len(),
        is_substring(hay, needle),
    ensures
        needle == hay,
{
    let i = choose|i: int|
        0 <= i && i + needle.len() <= hay.len() && #[trigger] hay.subrange(
            i,
            i + needle.len() as int,
        ) == needle;
    assert(i == 0);
    assert(hay.subrange(0, 0 + needle.len() as int) =~= hay);
}

/// The two-letter code of the cell in the given column and row, as a
/// character sequence.
pub open spec fn spec_code(column: int, row: int) -> Seq<char> {
    seq![letter_of(column), letter_of(row)]
}

/// Whether the cell in the given column and row is highlighted against the
/// typed buffer: the buffer starts with the cell's column letter and the
/// cell's code contains the whole buffer as a substring.
pub open spec fn spec_highlight(buf: Seq<char>, column: int, row: int) -> bool {
    &&& buf.len() > 0
    &&& buf[0] == spec_code(column, row)[0]
    &&& is_substring(spec_code(column, row), buf)
}

/// With a full-alphabet grid every fully typed code is valid: both letters
/// decode to indices below the grid size, so a session whose buffer holds
/// two letters has always resolved. An "invalid two-letter code" can only
/// arise on a grid smaller than the alphabet.
pub proof fn lemma_full_grid_always_resolves(buf: Seq<char>)
    requires
        buffer_wf(buf),
        buf.len() == 2,
    ensures
        spec_state(buf, 26) is Resolved,
{
}

/// With nothing typed no cell highlights.
pub proof fn lemma_empty_buffer_highlights_nothing(column: int, row: int)
    ensures
        !spec_highlight(Seq::<char>::empty(), column, row),
{
}

/// With a single typed letter the highlight picks out one full column: a
/// cell lights up exactly when its column letter is the typed one, whatever
/// its row.
pub proof fn lemma_single_letter_highlights_column(buf: Seq<char>, column: int, row: int)
    requires
        buffer_wf(buf),
        buf.len() == 1,
        0 <= column < 26,
        0 <= row < 26,
    ensures
        spec_highlight(buf, column, row) <==> buf[0] == letter_of(column),
{
    if buf[0] == letter_of(column) {
        assert(spec_code(column, row).subrange(0, buf.len() as int) =~= buf);
        lemma_prefix_is_substring(spec_code(column, row), buf);
    }
}

/// With a fully typed buffer at most one cell highlights: exactly the cell
/// whose code equals the buffer, should its letters be in range.
#[verifier::rlimit(50)]
pub proof fn lemma_full_buffer_highlights_one_cell(buf: Seq<char>, column: int, row: int)
    requires
        buffer_wf(buf),
        buf.len() == 2,
        0 <= column < 26,
        0 <= row < 26,
    ensures
        spec_highlight(buf, column, row) <==> buf == spec_code(column, row),
{
    let code = spec_code(column, row);
    if spec_highlight(buf, column, row) {
        lemma_substring_full(code, buf);
    }
    if buf == code {
        assert(code.subrange(0, buf.len() as int) =~= buf);
        lemma_prefix_is_substring(code, buf);
    }
}

/// One interactive selection session: the letters typed so far.
pub struct Session {
    buffer: Vec<char>,
}

impl View for Session {
    type V = Seq<char>;

    closed spec fn view(&self) -> Seq<char> {
        self.buffer@
    }
}

impl Session {
    /// A session is well formed when its typed buffer is.
    pub open spec fn wf(self) -> bool {
        buffer_wf(self@)
    }

    /// A fresh session: nothing typed yet.
    pub fn new() -> (s: Session)
        ensures
            s@ =~= Seq::<char>::empty(),
            s.wf(),
    {
        Session { buffer: Vec::new() }
    }

    /// How many characters have been typed so far.
    pub fn buffer_len(&self) -> (n: usize)
        ensures
            n == self@.len(),
    {
        self.buffer.len()
    }

    /// The character typed at position `i` of the buffer.
    pub fn buffer_char(&self, i: usize) -> (c: char)
        requires
            i < self@.len(),
        ensures
            c == self@[i as int],
    {
        self.buffer[i]
    }

    /// Feeds one typed character into the session. An ASCII letter is
    /// uppercased and appended while the buffer is short of a full code;
    /// any other character is silently dropped, and a letter typed against
    /// a full buffer is ignored.
    pub fn type_char(&mut self, c: char)
        requires
            old(self).wf(),
        ensures
            final(self)@ == spec_type_char(old(self)@, c),
            final(self).wf(),
    {
        if self.buffer.len() < 2 {
            let v = c as u32;
            if 65 <= v && v <= 90 {
                self.buffer.push(c);
            } else if 97 <= v && v <= 122 {
                let upper = ((v - 32) as u8) as char;
                self.buffer.push(upper);
            }
        }
    }

    /// Feeds one text input event into the session: every character of the
    /// text, in order.
    pub fn type_text(&mut self, text: &str)
        requires
            old(self).wf(),
        ensures
            final(self)@ == spec_type_text(old(self)@, text@),
            final(self).wf(),
    {
        let n = text.unicode_len();
        let mut i: usize = 0;
        while i < n
            invariant
                i <= n,
                n == text@.len(),
                self@ == spec_type_text(old(self)@, text@.subrange(0, i as int)),
                self.wf(),
            decreases n - i,
        {
            let c = text.get_char(i);
            proof {
                assert(text@.subrange(0, i as int).push(text@[i as int]) =~= text@.subrange(
                    0,
                    i as int + 1,
                ));
                lemma_type_text_snoc(old(self)@, text@.subrange(0, i as int), text@[i as int]);
            }
            self.type_char(c);
            i += 1;
        }
        proof {
            assert(text@.subrange(0, n as int) =~= text@);
        }
    }

    /// Removes the last typed character; with nothing typed this is a
    /// no-op.
    pub fn backspace(&mut self)
        requires
            old(self).wf(),
        ensures
            final(self)@ == spec_backspace(old(self)@),
            final(self).wf(),
    {
        if self.buffer.len() > 0 {
            let _ = self.buffer.pop();
        }
    }

    /// The state the session is in against the given grid: empty, still
    /// matching, or resolved to a cell.
    pub fn state(&self, grid: &Grid) -> (st: SelectionState)
        requires
            self.wf(),
            grid.wf(),
        ensures
            st == spec_state(self@, grid.size as int),
    {
        if self.buffer.len() == 0 {
            SelectionState::Empty
        } else if self.buffer.len() == 2 {
            let i0 = letter_to_idx(self.buffer[0]);
            let i1 = letter_to_idx(self.buffer[1]);
            if i0 < grid.size && i1 < grid.size {
                SelectionState::Resolved
            } else {
                SelectionState::PartialMatch
            }
        } else {
            SelectionState::PartialMatch
        }
    }

    /// The outcome of the session against the given grid: the center of the
    /// cell the buffer names once the session has resolved, and nothing
    /// before that. While no coordinate is returned no pointer event is
    /// owed; a session closed early therefore yields no target at all.
    pub fn resolution(&self, grid: &Grid) -> (r: Option<(i32, i32)>)
        requires
            self.wf(),
            grid.wf(),
        ensures
            r is Some <==> spec_state(self@, grid.size as int) is Resolved,
            spec_state(self@, grid.size as int) is Resolved ==> r == Some(
                (
                    grid.cell_center_x(index_of_letter(self@[0])) as i32,
                    grid.cell_center_y(index_of_letter(self@[1])) as i32,
                ),
            ),
    {
        if self.buffer.len() == 2 {
            let i0 = letter_to_idx(self.buffer[0]);
            let i1 = letter_to_idx(self.buffer[1]);
            if i0 < grid.size && i1 < grid.size {
                Some(cell_center(grid, i0, i1))
            } else {
                None
            }
        } else {
            None
        }
    }

    /// Whether the cell in the given column and row should be drawn
    /// highlighted against what has been typed so far.
    pub fn should_highlight(&self, column: usize, row: usize) -> (h: bool)
        requires
            self.wf(),
            column < 26,
            row < 26,
        ensures
            h == spec_highlight(self@, column as int, row as int),
    {
        let ghost code = spec_code(column as int, row as int);
        if self.buffer.len() == 0 {
            false
        } else {
            let c0 = idx_to_letter(column);
            if self.buffer[0] != c0 {
                false
            } else if self.buffer.len() == 1 {
                proof {
                    assert(code.subrange(0, self@.len() as int) =~= self@);
                    lemma_prefix_is_substring(code, self@);
                }
                true
            } else {
                let c1 = idx_to_letter(row);
                if self.buffer[1] == c1 {
                    proof {
                        assert(code.subrange(0, self@.len() as int) =~= self@);
                        lemma_prefix_is_substring(code, self@);
                    }
                    true
                } else {
                    proof {
                        if is_substring(code, self@) {
                            lemma_substring_full(code, self@);
                            assert(self@[1] == code[1]);
                        }
                    }
                    false
                }
            }
        }
    }
}

} // verus!
