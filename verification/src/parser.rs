use crate::lexer::Lexable;
use crate::position::Located;
use vstd::prelude::*;

verus! {

/// A syntax value that can be built from a token cursor.
///
/// `parse` is one parse step: it reads tokens from the front of the cursor,
/// as many as the value takes, and yields the value with the span of what it
/// read, or an error. A step may run the steps of other types for the parts
/// of its value.
///
/// The verifier holds an implementation that it sees to this contract. One
/// that it does not see is taken at its word.
pub trait Parsable<T: Lexable>: Sized {
    type Error;

    /// Whether `parse` is the function of the unread tokens that `spec_parse`
    /// describes. Where it is not, nothing is known of what `parse` returns.
    open spec fn obeys_parse_spec() -> bool {
        false
    }

    /// What a parse step yields when `tokens` are the ones still to be read,
    /// and the tokens it leaves unread.
    open spec fn spec_parse(tokens: Seq<Located<T>>) -> (
        Result<Located<Self>, Located<Self::Error>>,
        Seq<Located<T>>,
    ) {
        arbitrary()
    }

    fn parse(parser: &mut Parser<T>) -> (parsed: Result<Located<Self>, Located<Self::Error>>)
        ensures
            Self::obeys_parse_spec() ==> (parsed, final(parser)@) == Self::spec_parse(
                old(parser)@,
            ),
    ;
}

/// What taking a token does when `tokens` are the ones still to be read: the
/// first of them comes out and the others are left; from the empty sequence
/// `None` comes out and it stays empty.
pub open spec fn spec_token<A>(tokens: Seq<A>) -> (Option<A>, Seq<A>) {
    if tokens.len() > 0 {
        (Some(tokens[0]), tokens.skip(1))
    } else {
        (None, tokens)
    }
}

/// What looking at the next token does: the first of `tokens` is shown, `None`
/// where there is none, and all of them are left.
pub open spec fn spec_token_ref<A>(tokens: Seq<A>) -> (Option<A>, Seq<A>) {
    (spec_token(tokens).0, tokens)
}

/// What is left of `tokens` after `n` tokens were taken.
pub open spec fn spec_taken<A>(tokens: Seq<A>, n: nat) -> Seq<A>
    decreases n,
{
    if n == 0 {
        tokens
    } else {
        spec_token(spec_taken(tokens, (n - 1) as nat)).1
    }
}

/// A cursor over a token sequence that hands the tokens out from the front.
/// Its view is the sequence of the tokens still to be read, the next one
/// first.
pub struct Parser<T: Lexable> {
    /// The tokens still to be read, the next one last.
    stack: Vec<Located<T>>,
}

impl<T: Lexable> View for Parser<T> {
    type V = Seq<Located<T>>;

    closed spec fn view(&self) -> Seq<Located<T>> {
        self.stack@.reverse()
    }
}

impl<T: Lexable> Parser<T> {
    /// A cursor that will hand out `tokens` in their order.
    pub fn new(tokens: Vec<Located<T>>) -> (parser: Self)
        ensures
            parser@ == tokens@,
    {
        let mut tokens = tokens;
        let mut stack: Vec<Located<T>> = Vec::new();
        let ghost all = tokens@;
        while tokens.len() > 0
            invariant
                tokens@.len() <= all.len(),
                tokens@ == all.take(tokens@.len() as int),
                stack@ == all.skip(tokens@.len() as int).reverse(),
            decreases tokens@.len(),
        {
            let token = tokens.pop().unwrap();
            stack.push(token);
        }
        Parser { stack }
    }

    /// Takes the next token off the cursor; `None`, and no change, where no
    /// token is left.
    pub fn token(&mut self) -> (token: Option<Located<T>>)
        ensures
            (token, final(self)@) == spec_token(old(self)@),
    {
        self.stack.pop()
    }

    /// The next token, which stays on the cursor; `None` where no token is
    /// left.
    pub fn token_ref(&mut self) -> (token: Option<&Located<T>>)
        ensures
            token == match spec_token_ref(old(self)@).0 {
                Some(next) => Some(&next),
                None => None,
            },
            final(self)@ == spec_token_ref(old(self)@).1,
    {
        self.stack.last()
    }
}

/// Looking at the next token takes nothing away: a second look shows the token
/// of the first and leaves as many tokens as there were, and the token taken
/// afterwards is the one that was shown.
pub proof fn lemma_peek_is_stable<A>(tokens: Seq<A>)
    ensures
        ({
            let first = spec_token_ref(tokens);
            let second = spec_token_ref(first.1);
            &&& second.0 == first.0
            &&& second.1 == tokens
            &&& spec_token(second.1).0 == first.0
        }),
{
}

/// Once the tokens are used up they stay used up: taking a token from the
/// empty sequence yields `None` and leaves it empty, however often it is done.
pub proof fn lemma_exhausted_stays_exhausted<A>(tokens: Seq<A>, n: nat)
    requires
        tokens.len() == 0,
    ensures
        spec_taken(tokens, n) == tokens,
        spec_token(spec_taken(tokens, n)) == (None::<A>, tokens),
    decreases n,
{
    if n > 0 {
        lemma_exhausted_stays_exhausted(tokens, (n - 1) as nat);
    }
}

/// Tokens come out in their order and none comes twice: after `n` tokens were
/// taken those from the `n`-th on are left, and the next to come out is the
/// `n`-th of the sequence.
pub proof fn lemma_tokens_in_order<A>(tokens: Seq<A>, n: nat)
    requires
        n <= tokens.len(),
    ensures
        spec_taken(tokens, n) == tokens.skip(n as int),
        n < tokens.len() ==> spec_token(spec_taken(tokens, n)).0 == Some(tokens[n as int]),
    decreases n,
{
    if n > 0 {
        lemma_tokens_in_order(tokens, (n - 1) as nat);
    }
}

} // verus!
