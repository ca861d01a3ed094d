use crate::cursor::column_of;
use crate::cursor::lemma_cursor_order;
use crate::cursor::lemma_line_column_bound;
use crate::cursor::lemma_line_column_tell_offset;
use crate::cursor::lemma_same_line;
use crate::cursor::line_of;
use crate::lexer::spec_lex_all;
use crate::lexer::Lexable;
use crate::position::Located;
use crate::position::Positon;
use vstd::prelude::*;

verus! {

/// The span `pos` starts at the line and column of offset `at` of `text`.
pub open spec fn starts_at(pos: Positon, text: Seq<char>, at: nat) -> bool {
    pos.ln.start == line_of(text, at as int) && pos.col.start == column_of(text, at as int)
}

/// The span `pos` starts at the line and column of one of the offsets from
/// `from` up to, not including, `to`.
pub open spec fn starts_within(pos: Positon, text: Seq<char>, from: nat, to: nat) -> bool {
    exists|at: nat| from <= at < to && #[trigger] starts_at(pos, text, at)
}

/// The span `a` starts before the span `b` does: on an earlier line, or on the
/// same line at a smaller column.
pub open spec fn starts_before(a: Positon, b: Positon) -> bool {
    a.ln.start < b.ln.start || (a.ln.start == b.ln.start && a.col.start < b.col.start)
}

/// Each token of `tokens` starts before the tokens behind it.
pub open spec fn ascending<T>(tokens: Seq<Located<T>>) -> bool {
    forall|a: int, b: int|
        0 <= a < b < tokens.len() ==> starts_before(
            #[trigger] tokens[a].pos,
            #[trigger] tokens[b].pos,
        )
}

/// The tokenizer takes the start of each token from the cursor: a token's span
/// starts at the line and column of a character that the step has read, one
/// between the offset where the step began and the offset where it ended.
pub open spec fn anchors_tokens<T: Lexable>(text: Seq<char>) -> bool {
    forall|idx: nat|
        idx <= text.len() ==> match #[trigger] T::spec_lex(text, idx) {
            (Ok(Some(token)), next) => next <= text.len() && starts_within(
                token.pos,
                text,
                idx,
                next,
            ),
            _ => true,
        }
}

/// The tokens of a successful pass come in the order of the text: where the
/// tokenizer takes the start of each token from the cursor, every token starts
/// before the next one, by line and then by column, and none starts before
/// the offset at which the pass began.
pub proof fn lemma_token_positions_ascend<T: Lexable>(text: Seq<char>, idx: nat)
    requires
        idx <= text.len(),
        anchors_tokens::<T>(text),
        spec_lex_all::<T>(text, idx) is Ok,
    ensures
        ascending(spec_lex_all::<T>(text, idx)->Ok_0),
        forall|k: int|
            0 <= k < spec_lex_all::<T>(text, idx)->Ok_0.len() ==> starts_within(
                #[trigger] spec_lex_all::<T>(text, idx)->Ok_0[k].pos,
                text,
                idx,
                text.len(),
            ),
    decreases text.len() - idx,
{
    let tokens = spec_lex_all::<T>(text, idx)->Ok_0;
    if let (Ok(Some(token)), next) = T::spec_lex(text, idx) {
        // The first token starts at `at`, before the end of its step; by
        // induction the others start at that end or later.
        let at = choose|at: nat| idx <= at < next && #[trigger] starts_at(token.pos, text, at);
        lemma_token_positions_ascend::<T>(text, next);
        let rest = spec_lex_all::<T>(text, next)->Ok_0;
        assert(tokens == seq![token] + rest);
        assert forall|k: int| 0 <= k < tokens.len() implies starts_within(
            #[trigger] tokens[k].pos,
            text,
            idx,
            text.len(),
        ) by {
            if k > 0 {
                assert(starts_within(rest[k - 1].pos, text, next, text.len()));
            }
        }
        assert forall|a: int, b: int| 0 <= a < b < tokens.len() implies starts_before(
            #[trigger] tokens[a].pos,
            #[trigger] tokens[b].pos,
        ) by {
            if a == 0 {
                let later = choose|later: nat|
                    next <= later < text.len() && #[trigger] starts_at(rest[b - 1].pos, text, later);
                lemma_cursor_order(text, at as int, later as int);
            } else {
                assert(starts_before(rest[a - 1].pos, rest[b - 1].pos));
            }
        }
    }
}

/// The offset of `text` that lies at line `ln`, column `col`. Where the text
/// has such an offset there is only one.
pub open spec fn offset_of(text: Seq<char>, ln: nat, col: nat) -> nat {
    choose|at: nat|
        at <= text.len() && line_of(text, at as int) == ln && column_of(text, at as int) == col
}

/// The span of the characters of `text` from offset `from` up to, not
/// including, offset `to`, for characters that lie on one line: it starts at
/// the line and column of `from`, is one line high and `to - from` columns wide.
pub open spec fn span_of(text: Seq<char>, from: nat, to: nat) -> Positon {
    let ln = line_of(text, from as int);
    let col = column_of(text, from as int);
    Positon {
        ln: (ln as usize)..((ln + 1) as usize),
        col: (col as usize)..((col + to - from) as usize),
    }
}

/// The characters of `text` that a span on one line covers: those from the
/// offset where the span starts, as many as the span is wide.
pub open spec fn slice_at(text: Seq<char>, pos: Positon) -> Seq<char> {
    let from = offset_of(text, pos.ln.start as nat, pos.col.start as nat);
    text.subrange(from as int, from + (pos.col.end - pos.col.start))
}

/// The slices of `text` at the spans of `tokens`, one behind the other.
pub open spec fn joined_slices<T>(text: Seq<char>, tokens: Seq<Located<T>>) -> Seq<char>
    decreases tokens.len(),
{
    if tokens.len() == 0 {
        Seq::empty()
    } else {
        slice_at(text, tokens[0].pos) + joined_slices(text, tokens.skip(1))
    }
}

/// The characters that are not blank.
pub open spec fn significant(blank: spec_fn(char) -> bool) -> spec_fn(char) -> bool {
    |c: char| !blank(c)
}

/// Every character of `text` from offset `from` up to `to` is blank.
pub open spec fn all_blank(text: Seq<char>, blank: spec_fn(char) -> bool, from: nat, to: nat) -> bool {
    forall|k: int| from <= k < to ==> blank(#[trigger] text[k])
}

/// A step begun at offset `idx` finds its token in the characters from `from`
/// to `to`: blanks alone lie before them, and they are neither blanks nor line
/// breaks.
pub open spec fn is_lexeme(
    text: Seq<char>,
    blank: spec_fn(char) -> bool,
    idx: nat,
    from: nat,
    to: nat,
) -> bool {
    &&& idx <= from < to <= text.len()
    &&& all_blank(text, blank, idx, from)
    &&& forall|k: int| from <= k < to ==> !blank(#[trigger] text[k]) && text[k] != '\n'
}

/// The tokenizer gives each token the span of the characters it was read
/// from: a step skips blanks, reads the characters of one token, which lie on
/// one line and hold no blank, stops behind them, and reports their span; it
/// yields `None` only where nothing but blanks is left.
pub open spec fn spans_what_it_reads<T: Lexable>(
    text: Seq<char>,
    blank: spec_fn(char) -> bool,
) -> bool {
    forall|idx: nat|
        idx <= text.len() ==> match #[trigger] T::spec_lex(text, idx) {
            (Ok(Some(token)), next) => exists|from: nat| #[trigger]
                is_lexeme(text, blank, idx, from, next) && token.pos == span_of(text, from, next),
            (Ok(None), _) => all_blank(text, blank, idx, text.len()),
            (Err(_), _) => true,
        }
}

/// Slicing the text at the span of a stretch of characters on one line gives
/// these characters back.
pub proof fn lemma_slice_at_span(text: Seq<char>, from: nat, to: nat)
    requires
        from <= to <= text.len() <= usize::MAX,
        forall|k: int| from <= k < to ==> text[k] != '\n',
    ensures
        slice_at(text, span_of(text, from, to)) == text.subrange(from as int, to as int),
        span_of(text, from, to).col.end == column_of(text, to as int),
        from < text.len() ==> span_of(text, from, to).well_formed(),
{
    lemma_line_column_bound(text, from as int);
    lemma_line_column_bound(text, to as int);
    lemma_same_line(text, from as int, to as int);
    // `from` lies at the line and column where the span starts, and no other
    // offset does.
    let found = offset_of(text, line_of(text, from as int), column_of(text, from as int));
    lemma_line_column_tell_offset(text, from as int, found as int);
}

proof fn lemma_filter_blanks(s: Seq<char>, blank: spec_fn(char) -> bool)
    requires
        forall|k: int| 0 <= k < s.len() ==> blank(#[trigger] s[k]),
    ensures
        s.filter(significant(blank)) == Seq::<char>::empty(),
    decreases s.len(),
{
    reveal(Seq::filter);
    if s.len() > 0 {
        lemma_filter_blanks(s.drop_last(), blank);
    }
}

proof fn lemma_filter_significant(s: Seq<char>, blank: spec_fn(char) -> bool)
    requires
        forall|k: int| 0 <= k < s.len() ==> !blank(#[trigger] s[k]),
    ensures
        s.filter(significant(blank)) == s,
    decreases s.len(),
{
    reveal(Seq::filter);
    if s.len() > 0 {
        lemma_filter_significant(s.drop_last(), blank);
    }
}

/// The slices at the spans of the tokens of a pass begun at offset `idx`, put
/// together, are the characters of the text from `idx` on that are not blank,
/// in their order.
pub proof fn lemma_slices_rebuild_from<T: Lexable>(
    text: Seq<char>,
    blank: spec_fn(char) -> bool,
    idx: nat,
)
    requires
        idx <= text.len() <= usize::MAX,
        spans_what_it_reads::<T>(text, blank),
        spec_lex_all::<T>(text, idx) is Ok,
    ensures
        joined_slices(text, spec_lex_all::<T>(text, idx)->Ok_0) == text.skip(idx as int).filter(
            significant(blank),
        ),
    decreases text.len() - idx,
{
    let tokens = spec_lex_all::<T>(text, idx)->Ok_0;
    let left = text.skip(idx as int);
    match T::spec_lex(text, idx) {
        (Ok(Some(token)), next) => {
            let from = choose|from: nat| #[trigger]
                is_lexeme(text, blank, idx, from, next) && token.pos == span_of(text, from, next);
            lemma_slices_rebuild_from::<T>(text, blank, next);
            let rest = spec_lex_all::<T>(text, next)->Ok_0;
            assert(tokens == seq![token] + rest);
            assert(tokens.skip(1) == rest);
            lemma_slice_at_span(text, from, next);
            // What is left of the text is blanks, the token, and what lies
            // behind the token.
            let blanks = text.subrange(idx as int, from as int);
            let lexeme = text.subrange(from as int, next as int);
            let behind = text.skip(next as int);
            assert(left == blanks + lexeme + behind);
            Seq::filter_distributes_over_add(blanks + lexeme, behind, significant(blank));
            Seq::filter_distributes_over_add(blanks, lexeme, significant(blank));
            lemma_filter_blanks(blanks, blank);
            lemma_filter_significant(lexeme, blank);
        },
        (Ok(None), _) => {
            lemma_filter_blanks(left, blank);
        },
        (Err(_), _) => {},
    }
}

/// A pass over a text of blanks and tokens loses nothing: where the tokenizer
/// gives each token the span of the characters it was read from, the slices of
/// the text at the spans of the tokens, one behind the other, are the text
/// without its blanks.
pub proof fn lemma_slices_rebuild_text<T: Lexable>(text: Seq<char>, blank: spec_fn(char) -> bool)
    requires
        text.len() <= usize::MAX,
        spans_what_it_reads::<T>(text, blank),
        spec_lex_all::<T>(text, 0) is Ok,
    ensures
        joined_slices(text, spec_lex_all::<T>(text, 0)->Ok_0) == text.filter(significant(blank)),
{
    lemma_slices_rebuild_from::<T>(text, blank, 0);
    assert(text.skip(0) == text);
}

} // verus!
