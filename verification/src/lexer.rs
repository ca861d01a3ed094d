use crate::cursor::Cursor;
use crate::cursor::column_of;
use crate::cursor::lemma_line_column_bound;
use crate::cursor::line_of;
use crate::position::Located;
use crate::position::Positon;
use vstd::prelude::*;

verus! {

broadcast use vstd::string::group_string_axioms;

/// A token type that can be read off a character cursor.
///
/// `lex` is one tokenizing step: it skips what is insignificant, then yields
/// the next token, `None` at the clean end of the input, or an error. The
/// cursor moves only when the step moves it. The step leaves the text as it
/// is, and a step that yields a token leaves the cursor further on than it
/// found it: this is why the driving loop comes to an end.
///
/// The verifier holds an implementation that it sees to this contract. One
/// that it does not see is taken at its word, and what is proved of the
/// driving loop holds of it only as far as it keeps the contract.
pub trait Lexable: Sized {
    type Error;

    /// Whether `lex` is the function of the cursor that `spec_lex` describes.
    /// Where it is not, only the rest of the contract of `lex` is known.
    open spec fn obeys_lex_spec() -> bool {
        false
    }

    /// What one tokenizing step yields when it starts at offset `idx` of `text`,
    /// and the offset at which it leaves the cursor.
    open spec fn spec_lex(text: Seq<char>, idx: nat) -> (
        Result<Option<Located<Self>>, Located<Self::Error>>,
        nat,
    ) {
        arbitrary()
    }

    fn lex(lexer: &mut Lexer) -> (step: Result<Option<Located<Self>>, Located<Self::Error>>)
        requires
            old(lexer)@.valid(),
        ensures
            final(lexer)@.text == old(lexer)@.text,
            step matches Ok(Some(_)) ==> old(lexer)@.idx < final(lexer)@.idx,
            Self::obeys_lex_spec() ==> (step, final(lexer)@.idx) == Self::spec_lex(
                old(lexer)@.text,
                old(lexer)@.idx,
            ),
    ;
}

/// The outcome of the driving loop started at offset `idx` of `text`: the tokens
/// of the steps up to the first that yields `None`, or the first error. Each
/// step starts where the step before it ended. (A step that yields a token
/// and does not end further on in the text breaks the contract of `lex`; the
/// outcome is cut off behind its token.)
pub open spec fn spec_lex_all<T: Lexable>(text: Seq<char>, idx: nat) -> Result<
    Seq<Located<T>>,
    Located<T::Error>,
>
    decreases text.len() - idx,
{
    match T::spec_lex(text, idx) {
        (Err(error), _) => Err(error),
        (Ok(None), _) => Ok(Seq::empty()),
        (Ok(Some(token)), next) => {
            if idx < next <= text.len() {
                prepend(seq![token], spec_lex_all::<T>(text, next))
            } else {
                Ok(seq![token])
            }
        },
    }
}

/// `rest` with `head` put before its tokens; an error stays as it is.
pub open spec fn prepend<T, E>(head: Seq<Located<T>>, rest: Result<Seq<Located<T>>, E>) -> Result<
    Seq<Located<T>>,
    E,
> {
    match rest {
        Ok(tail) => Ok(head + tail),
        Err(error) => Err(error),
    }
}

/// The outcome of a lexing pass with the token vector replaced by its view.
pub open spec fn lexed<T, E>(tokens: Result<Vec<Located<T>>, E>) -> Result<Seq<Located<T>>, E> {
    match tokens {
        Ok(v) => Ok(v@),
        Err(error) => Err(error),
    }
}

proof fn lemma_prepend_nothing<T, E>(rest: Result<Seq<Located<T>>, E>)
    ensures
        prepend(Seq::empty(), rest) == rest,
{
    if let Ok(tail) = rest {
        assert(Seq::<Located<T>>::empty() + tail == tail);
    }
}

proof fn lemma_prepend_push<T, E>(head: Seq<Located<T>>, token: Located<T>, rest: Result<
    Seq<Located<T>>,
    E,
>)
    ensures
        prepend(head, prepend(seq![token], rest)) == prepend(head.push(token), rest),
{
    if rest is Ok {
        assert(head + (seq![token] + rest->Ok_0) == head.push(token) + rest->Ok_0);
    }
}

/// Where the cursor stands: its offset, and the line and column of that offset.
#[derive(Clone, Copy)]
struct Place {
    idx: usize,
    ln: usize,
    col: usize,
}

/// A cursor over the characters of a source text. It shows the character under
/// it and moves one character at a time, keeping count of line and column.
/// Its view tells the text and the offset; line and column follow from them.
pub struct Lexer {
    text: String,
    /// The characters of `text`, for access by offset.
    chars: Vec<char>,
    at: Place,
}

impl View for Lexer {
    type V = Cursor;

    closed spec fn view(&self) -> Cursor {
        Cursor { text: self.text@, idx: self.at.idx as nat }
    }
}

impl Lexer {
    #[verifier::type_invariant]
    spec fn inv(self) -> bool {
        &&& self.chars@ == self.text@
        &&& self.at.idx <= self.text@.len() <= usize::MAX
        &&& self.at.ln == line_of(self.text@, self.at.idx as int)
        &&& self.at.col == column_of(self.text@, self.at.idx as int)
    }

    /// A cursor at the start of `text`.
    pub fn new(text: String) -> (lexer: Self)
        ensures
            lexer@ == (Cursor { text: text@, idx: 0 }),
            lexer@.valid(),
    {
        let mut chars: Vec<char> = Vec::new();
        for c in it: text.as_str().chars()
            invariant
                it.seq() == text@,
                chars@ == it.seq().take(it.index() as int),
        {
            chars.push(c);
        }
        assert(chars@ == text@);
        assert(chars@.len() == chars.len());
        Lexer { text, chars, at: Place { idx: 0, ln: 0, col: 0 } }
    }

    /// Runs the tokenizer of `T` from where the cursor stands until it yields
    /// `None`, and returns the tokens in their order; the first error ends the
    /// pass and is returned alone.
    pub fn lex<T: Lexable>(&mut self) -> (tokens: Result<Vec<Located<T>>, Located<T::Error>>)
        ensures
            final(self)@.text == old(self)@.text,
            final(self)@.valid(),
            tokens matches Ok(v) ==> old(self)@.idx + v@.len() <= old(self)@.text.len(),
            T::obeys_lex_spec() ==> lexed(tokens) == spec_lex_all::<T>(
                old(self)@.text,
                old(self)@.idx,
            ),
    {
        let mut tokens: Vec<Located<T>> = Vec::new();
        proof {
            use_type_invariant(&*self);
            lemma_prepend_nothing(spec_lex_all::<T>(self@.text, self@.idx));
        }
        loop
            invariant
                self@.text == old(self)@.text,
                self@.valid(),
                old(self)@.idx + tokens@.len() <= self@.idx,
                T::obeys_lex_spec() ==> spec_lex_all::<T>(old(self)@.text, old(self)@.idx)
                    == prepend(tokens@, spec_lex_all::<T>(self@.text, self@.idx)),
            decreases self@.text.len() - self@.idx,
        {
            let step = T::lex(self);
            proof {
                use_type_invariant(&*self);
            }
            match step {
                Ok(Some(token)) => {
                    proof {
                        lemma_prepend_push(
                            tokens@,
                            token,
                            spec_lex_all::<T>(self@.text, self@.idx),
                        );
                    }
                    tokens.push(token);
                },
                Ok(None) => {
                    return Ok(tokens);
                },
                Err(error) => {
                    return Err(error);
                },
            }
        }
    }

    /// The character under the cursor, `None` at the end of the text.
    pub fn get(&self) -> (c: Option<char>)
        ensures
            c == self@.current(),
            self@.valid(),
    {
        proof {
            use_type_invariant(self);
        }
        if self.at.idx < self.chars.len() {
            Some(self.chars[self.at.idx])
        } else {
            None
        }
    }

    /// The span of the character under the cursor; at the end of the text the
    /// empty span at the line and column where the text ends.
    pub fn pos(&self) -> (pos: Positon)
        ensures
            pos == self@.position(),
            pos.well_formed(),
            self@.valid(),
    {
        proof {
            use_type_invariant(self);
            lemma_line_column_bound(self.text@, self.at.idx as int);
        }
        if self.at.idx < self.chars.len() {
            Positon::single(self.at.ln, self.at.col)
        } else {
            Positon::new(self.at.ln..self.at.ln, self.at.col..self.at.col)
        }
    }

    /// Moves the cursor over one character: behind a line break the next line
    /// begins at column 0, behind any other character the column is one more.
    /// At the end of the text the cursor stays where it is.
    pub fn advance(&mut self)
        ensures
            final(self)@ == old(self)@.advanced(),
            final(self)@.valid(),
    {
        proof {
            use_type_invariant(&*self);
        }
        let Place { idx, ln, col } = self.at;
        if idx < self.chars.len() {
            proof {
                lemma_line_column_bound(self.text@, idx as int);
            }
            if self.chars[idx] == '\n' {
                self.at = Place { idx: idx + 1, ln: ln + 1, col: 0 };
            } else {
                self.at = Place { idx: idx + 1, ln, col: col + 1 };
            }
        }
    }

    /// The source text.
    pub fn text(&self) -> (text: &String)
        ensures
            text@ == self@.text,
            self@.valid(),
    {
        proof {
            use_type_invariant(self);
        }
        &self.text
    }

    /// The offset of the cursor, counted in characters.
    pub fn idx(&self) -> (idx: usize)
        ensures
            idx == self@.idx,
            self@.valid(),
    {
        proof {
            use_type_invariant(self);
        }
        self.at.idx
    }

    /// The line of the cursor, counted from 0.
    pub fn ln(&self) -> (ln: usize)
        ensures
            ln == self@.line(),
            self@.valid(),
    {
        proof {
            use_type_invariant(self);
        }
        self.at.ln
    }

    /// The column of the cursor, counted from 0.
    pub fn col(&self) -> (col: usize)
        ensures
            col == self@.column(),
            self@.valid(),
    {
        proof {
            use_type_invariant(self);
        }
        self.at.col
    }
}

} // verus!
