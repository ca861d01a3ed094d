pub mod cursor;
pub mod lexer;
pub mod parser;
pub mod position;
pub mod spans;

use crate::lexer::lexed;
use crate::lexer::spec_lex_all;
use crate::lexer::Lexable;
use crate::lexer::Lexer;
use crate::parser::Parsable;
use crate::parser::Parser;
use crate::position::Located;
use std::fmt::Display;
use vstd::prelude::*;
use vstd::std_specs::convert::IntoSpec;

verus! {

/// Reads all the tokens of `text`: runs the tokenizer of `T` over the text
/// from its start until it yields `None`. The first error ends the pass and
/// comes back alone, with its position.
pub fn lex<T: Lexable>(text: String) -> (tokens: Result<Vec<Located<T>>, Located<T::Error>>)
    ensures
        tokens matches Ok(v) ==> v@.len() <= text@.len(),
        T::obeys_lex_spec() ==> lexed(tokens) == spec_lex_all::<T>(text@, 0),
{
    let mut lexer = Lexer::new(text);
    lexer.lex::<T>()
}

/// `converted` is `result` with the value of its error converted into `E`: a
/// success is the same success, an error is an error at the same position,
/// and its value is what `Into` makes of the value, where `Into` says what it
/// makes.
pub open spec fn error_converted<V, A: Into<E>, E>(
    result: Result<V, Located<A>>,
    converted: Result<V, Located<E>>,
) -> bool {
    match result {
        Ok(value) => converted == Ok::<V, Located<E>>(value),
        Err(error) => {
            &&& converted matches Err(e)
            &&& e.pos == error.pos
            &&& <A as IntoSpec<E>>::obeys_into_spec() ==> e.value == error.value.into_spec()
        },
    }
}

/// Converts the value of the error of `result` into `E` and keeps its
/// position; a success passes through.
pub fn convert_error<V, A: Into<E>, E>(result: Result<V, Located<A>>) -> (converted: Result<
    V,
    Located<E>,
>)
    ensures
        error_converted(result, converted),
{
    match result {
        Ok(value) => Ok(value),
        Err(error) => {
            let convert = |value: A| -> (into: E)
                ensures
                    A::obeys_into_spec() ==> into == value.into_spec(),
                {
                    value.into()
                };
            Err(error.map(convert))
        },
    }
}

/// Reads all the tokens of `text`, then lets the grammar of `P` build its
/// value from them. The first error of either stage ends the work and comes
/// back with its position, its value converted into `E`.
pub fn parse<T: Lexable, P: Parsable<T>, E>(text: String) -> (parsed: Result<
    Located<P>,
    Located<E>,
>) where P::Error: Display + Into<E>, T::Error: Display + Into<E>
    ensures
        T::obeys_lex_spec() ==> match spec_lex_all::<T>(text@, 0) {
            Err(error) => error_converted(Err::<Located<P>, Located<T::Error>>(error), parsed),
            Ok(tokens) => P::obeys_parse_spec() ==> error_converted(
                P::spec_parse(tokens).0,
                parsed,
            ),
        },
{
    let tokens = match convert_error(lex::<T>(text)) {
        Ok(tokens) => tokens,
        Err(error) => {
            return Err(error);
        },
    };
    let mut parser = Parser::new(tokens);
    convert_error(P::parse(&mut parser))
}

} // verus!
