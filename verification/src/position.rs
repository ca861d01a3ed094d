use std::fmt::Display;
use std::ops::Range;
use vstd::prelude::*;
use vstd::std_specs::cmp::PartialEqSpec;
use vstd::std_specs::convert::FromSpecImpl;

verus! {

/// A span in a text: a half-open range of lines and a half-open range of
/// columns, from where a syntactic unit starts to just past where it ends.
#[derive(Debug)]
pub struct Positon {
    pub ln: Range<usize>,
    pub col: Range<usize>,
}

impl Positon {
    /// Neither range ends before it starts.
    pub open spec fn well_formed(self) -> bool {
        self.ln.start <= self.ln.end && self.col.start <= self.col.end
    }

    /// The empty span at line 0, column 0: the position of what has no place
    /// in the text.
    pub open spec fn origin() -> Self {
        Positon { ln: 0..0, col: 0..0 }
    }

    /// The span that is one line high and one column wide.
    pub open spec fn spec_single(ln: usize, col: usize) -> Self {
        Positon { ln: ln..(ln + 1) as usize, col: col..(col + 1) as usize }
    }

    /// This span with its two ends moved to the ends of `other`.
    pub open spec fn extended(self, other: Self) -> Self {
        Positon { ln: self.ln.start..other.ln.end, col: self.col.start..other.col.end }
    }

    pub fn new(ln: Range<usize>, col: Range<usize>) -> (pos: Self)
        ensures
            pos == (Positon { ln, col }),
    {
        Self { ln, col }
    }

    /// The span of one character at line `ln`, column `col`.
    pub fn single(ln: usize, col: usize) -> (pos: Self)
        requires
            ln < usize::MAX,
            col < usize::MAX,
        ensures
            pos == Self::spec_single(ln, col),
            pos.ln.end == ln + 1,
            pos.col.end == col + 1,
            pos.well_formed(),
    {
        Self { ln: ln..ln + 1, col: col..col + 1 }
    }

    /// Moves the ends of both ranges to the ends of `other`; the starts stay.
    /// Nothing is asked of `other`: it is for the caller to extend by a span
    /// that ends no earlier than this one starts.
    pub fn extend(&mut self, other: &Self)
        ensures
            *final(self) == old(self).extended(*other),
    {
        self.ln.end = other.ln.end;
        self.col.end = other.col.end;
    }
}

/// Extending a span twice gives what the second extension alone gives: the
/// span extended first leaves no trace. In particular a span may be extended
/// by each part of a construct in turn, or by the last part only.
pub proof fn lemma_extend_keeps_last(a: Positon, b: Positon, c: Positon)
    ensures
        a.extended(b).extended(c) == a.extended(c),
{
}

/// Extending by the same span a second time changes nothing.
pub proof fn lemma_extend_idempotent(a: Positon, b: Positon)
    ensures
        a.extended(b).extended(b) == a.extended(b),
{
}

/// An extended span starts where the span started and ends where the other
/// ends; it runs forward exactly when the other ends no earlier, in lines and
/// in columns, than the span starts.
pub proof fn lemma_extend_well_formed(a: Positon, b: Positon)
    ensures
        a.extended(b).ln.start == a.ln.start,
        a.extended(b).col.start == a.col.start,
        a.extended(b).ln.end == b.ln.end,
        a.extended(b).col.end == b.col.end,
        a.extended(b).well_formed() <==> a.ln.start <= b.ln.end && a.col.start <= b.col.end,
{
}

impl Clone for Positon {
    fn clone(&self) -> (pos: Self)
        ensures
            pos == *self,
    {
        Positon { ln: self.ln.start..self.ln.end, col: self.col.start..self.col.end }
    }
}

impl Default for Positon {
    fn default() -> (pos: Self)
        ensures
            pos == Positon::origin(),
            pos.well_formed(),
    {
        Positon { ln: 0..0, col: 0..0 }
    }
}

impl From<(Range<usize>, Range<usize>)> for Positon {
    fn from(value: (Range<usize>, Range<usize>)) -> (pos: Self) {
        let (ln, col) = value;
        Self { ln, col }
    }
}

impl FromSpecImpl<(Range<usize>, Range<usize>)> for Positon {
    open spec fn obeys_from_spec() -> bool {
        true
    }

    open spec fn from_spec(value: (Range<usize>, Range<usize>)) -> Self {
        Positon { ln: value.0, col: value.1 }
    }
}

/// A value together with the span of text it was read from. The span tells
/// where the value came from; it is no part of what the value is.
#[derive(Debug)]
pub struct Located<T> {
    pub value: T,
    pub pos: Positon,
}

impl<T> Located<T> {
    pub fn new(value: T, pos: Positon) -> (located: Self)
        ensures
            located == (Located { value, pos }),
    {
        Self { value, pos }
    }

    /// Applies `f` to the value and keeps the position.
    pub fn map<F: FnOnce(T) -> U, U>(self, f: F) -> (mapped: Located<U>)
        requires
            f.requires((self.value,)),
        ensures
            f.ensures((self.value,), mapped.value),
            mapped.pos == self.pos,
    {
        Located { value: f(self.value), pos: self.pos }
    }

    /// The value without its position.
    pub fn unwrap(self) -> (value: T)
        ensures
            value == self.value,
    {
        self.value
    }
}

impl<T: Display> Located<T> {
    /// The text of the value, as the value's own `Display` writes it; the
    /// position is not part of it.
    pub fn to_string(&self) -> (text: String)
        ensures
            vstd::string::to_string_from_display_ensures::<T>(&self.value, text),
    {
        self.value.to_string()
    }
}

impl<T: Clone> Clone for Located<T> {
    fn clone(&self) -> (copy: Self)
        ensures
            cloned(self.value, copy.value),
            copy.pos == self.pos,
    {
        Self { value: self.value.clone(), pos: self.pos.clone() }
    }
}

impl<T: Default> Default for Located<T> {
    fn default() -> (located: Self)
        ensures
            T::default.ensures((), located.value),
            located.pos == Positon::origin(),
    {
        Self { value: T::default(), pos: Positon::default() }
    }
}

impl<T: PartialEq> PartialEq for Located<T> {
    /// Two located values are equal when the values are; the positions are
    /// not compared.
    fn eq(&self, other: &Self) -> (equal: bool) {
        self.value == other.value
    }
}

impl<T: PartialEq> vstd::std_specs::cmp::PartialEqSpecImpl for Located<T> {
    open spec fn obeys_eq_spec() -> bool {
        T::obeys_eq_spec()
    }

    open spec fn eq_spec(&self, other: &Self) -> bool {
        self.value.eq_spec(&other.value)
    }
}

/// Equality of located values ignores the positions: whatever the two
/// positions are, the located values compare as the values do.
pub proof fn lemma_eq_ignores_position<T: PartialEq>(a: T, b: T, p: Positon, q: Positon)
    ensures
        (Located { value: a, pos: p }).eq_spec(&Located { value: b, pos: q }) == a.eq_spec(&b),
{
}

} // verus!
