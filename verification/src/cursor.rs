use crate::position::Positon;
use vstd::prelude::*;

verus! {

/// The line on which offset `idx` of `text` lies: the number of line breaks
/// among the first `idx` characters.
pub open spec fn line_of(text: Seq<char>, idx: int) -> nat
    decreases idx,
{
    if idx <= 0 {
        0
    } else if text[idx - 1] == '\n' {
        line_of(text, idx - 1) + 1
    } else {
        line_of(text, idx - 1)
    }
}

/// The column of offset `idx` of `text`: the number of characters between the
/// last line break before `idx` (or the start of the text) and `idx`.
pub open spec fn column_of(text: Seq<char>, idx: int) -> nat
    decreases idx,
{
    if idx <= 0 {
        0
    } else if text[idx - 1] == '\n' {
        0
    } else {
        column_of(text, idx - 1) + 1
    }
}

/// Where a character cursor stands: at offset `idx`, counted in characters, of
/// `text`. An offset equal to the length of the text is the end of the input.
pub ghost struct Cursor {
    pub text: Seq<char>,
    pub idx: nat,
}

impl Cursor {
    /// The offset lies within the text or at its end, and the text is one
    /// that a machine can hold.
    pub open spec fn valid(self) -> bool {
        self.idx <= self.text.len() <= usize::MAX
    }

    /// The character under the cursor, `None` at the end of the text.
    pub open spec fn current(self) -> Option<char> {
        if self.idx < self.text.len() {
            Some(self.text[self.idx as int])
        } else {
            None
        }
    }

    /// The line of the cursor, counted from 0.
    pub open spec fn line(self) -> nat {
        line_of(self.text, self.idx as int)
    }

    /// The column of the cursor, counted from 0.
    pub open spec fn column(self) -> nat {
        column_of(self.text, self.idx as int)
    }

    /// The span of the character under the cursor: one line high and one column
    /// wide. At the end of the text, the empty span where the text ends.
    pub open spec fn position(self) -> Positon {
        let ln = self.line() as usize;
        let col = self.column() as usize;
        if self.idx < self.text.len() {
            Positon::spec_single(ln, col)
        } else {
            Positon { ln: ln..ln, col: col..col }
        }
    }

    /// The cursor one character further; at the end of the text it stays.
    pub open spec fn advanced(self) -> Cursor {
        if self.idx < self.text.len() {
            Cursor { text: self.text, idx: self.idx + 1 }
        } else {
            self
        }
    }
}

/// Line and column together never count more than the characters passed.
pub proof fn lemma_line_column_bound(text: Seq<char>, idx: int)
    requires
        0 <= idx,
    ensures
        line_of(text, idx) + column_of(text, idx) <= idx,
    decreases idx,
{
    if idx > 0 {
        lemma_line_column_bound(text, idx - 1);
    }
}

/// The characters that break a line.
pub open spec fn is_line_break() -> spec_fn(char) -> bool {
    |c: char| c == '\n'
}

/// The line of an offset is the number of line breaks before it.
pub proof fn lemma_line_counts_breaks(text: Seq<char>, idx: int)
    requires
        0 <= idx <= text.len(),
    ensures
        line_of(text, idx) == text.take(idx).filter(is_line_break()).len(),
    decreases idx,
{
    reveal(Seq::filter);
    if idx > 0 {
        lemma_line_counts_breaks(text, idx - 1);
        assert(text.take(idx).drop_last() == text.take(idx - 1));
    }
}

/// One step of the cursor: after a line break the line count goes up by one
/// and the column is 0 again; after any other character the column goes up by
/// one and the line stays.
pub proof fn lemma_advance_line_column(c: Cursor)
    requires
        c.idx < c.text.len(),
    ensures
        c.advanced().idx == c.idx + 1,
        c.current() == Some('\n') ==> c.advanced().line() == c.line() + 1
            && c.advanced().column() == 0,
        c.current() != Some('\n') ==> c.advanced().line() == c.line() && c.advanced().column()
            == c.column() + 1,
{
}

/// At the end of the text the cursor stays where it is, however often it is
/// advanced.
pub proof fn lemma_advance_at_end(c: Cursor)
    requires
        c.idx >= c.text.len(),
    ensures
        c.advanced() == c,
        c.current() is None,
{
}

/// Later in the text is later by line and column: of two offsets the greater
/// lies on a later line, or on the same line at a greater column.
pub proof fn lemma_cursor_order(text: Seq<char>, i: int, j: int)
    requires
        0 <= i < j,
    ensures
        line_of(text, i) < line_of(text, j) || (line_of(text, i) == line_of(text, j) && column_of(
            text,
            i,
        ) < column_of(text, j)),
    decreases j,
{
    if i < j - 1 {
        lemma_cursor_order(text, i, j - 1);
    }
}

/// Line and column tell the offset: no two offsets share both.
pub proof fn lemma_line_column_tell_offset(text: Seq<char>, i: int, j: int)
    requires
        0 <= i,
        0 <= j,
        line_of(text, i) == line_of(text, j),
        column_of(text, i) == column_of(text, j),
    ensures
        i == j,
{
    if i < j {
        lemma_cursor_order(text, i, j);
    } else if j < i {
        lemma_cursor_order(text, j, i);
    }
}

/// The column is the distance to the start of the line: `column_of` characters
/// before `idx` the line begins, at the start of the text or just behind a line
/// break, and from there to `idx` there is no line break.
pub proof fn lemma_column_counts_from_line_start(text: Seq<char>, idx: int)
    requires
        0 <= idx,
    ensures
        ({
            let start = idx - column_of(text, idx);
            &&& 0 <= start <= idx
            &&& start == 0 || text[start - 1] == '\n'
            &&& line_of(text, start) == line_of(text, idx)
            &&& forall|k: int| start <= k < idx ==> text[k] != '\n'
        }),
    decreases idx,
{
    if idx > 0 && text[idx - 1] != '\n' {
        lemma_column_counts_from_line_start(text, idx - 1);
    }
}

/// Along a stretch without a line break the line stays and the column grows
/// with the offset.
pub proof fn lemma_same_line(text: Seq<char>, i: int, j: int)
    requires
        0 <= i <= j,
        forall|k: int| i <= k < j ==> text[k] != '\n',
    ensures
        line_of(text, j) == line_of(text, i),
        column_of(text, j) == column_of(text, i) + (j - i),
    decreases j,
{
    if i < j {
        lemma_same_line(text, i, j - 1);
    }
}

/// The position that a valid cursor reports starts at the cursor's line and
/// column, runs forward, and is one character wide unless the text has ended.
pub proof fn lemma_position(c: Cursor)
    requires
        c.valid(),
    ensures
        c.position().ln.start == c.line(),
        c.position().col.start == c.column(),
        c.position().well_formed(),
        c.idx < c.text.len() ==> c.position() == Positon::spec_single(
            c.line() as usize,
            c.column() as usize,
        ) && c.position().ln.end == c.line() + 1 && c.position().col.end == c.column() + 1,
        c.idx == c.text.len() ==> c.position().ln.end == c.line() && c.position().col.end
            == c.column(),
{
    lemma_line_column_bound(c.text, c.idx as int);
}

} // verus!
