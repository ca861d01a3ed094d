use lexparse::lex;
use lexparse::lexer::Lexable;
use lexparse::lexer::Lexer;
use lexparse::position::Located;
use lexparse::position::Positon;
use std::fmt::Display;

#[derive(Debug, PartialEq)]
pub enum Token {
    Add,
    Sub,
    Div,
    Mul,
    Number(f64),
}

#[derive(Debug)]
pub enum LexError {
    BadCharacter(char),
}

impl Display for LexError {
    fn fmt(&self, f: &mut std::fmt::Formatter<'_>) -> std::fmt::Result {
        match self {
            LexError::BadCharacter(c) => f.write_str(&format!("bad character {c:?}")),
        }
    }
}

impl Lexable for Token {
    type Error = LexError;

    fn lex(lexer: &mut Lexer) -> Result<Option<Located<Self>>, Located<Self::Error>> {
        while let Some(c) = lexer.get() {
            if !c.is_whitespace() {
                break;
            }
            lexer.advance();
        }
        let mut pos = lexer.pos();
        let Some(c) = lexer.get() else {
            return Ok(None);
        };
        lexer.advance();
        match c {
            '+' => Ok(Some(Located::new(Token::Add, pos))),
            '-' => Ok(Some(Located::new(Token::Sub, pos))),
            '*' => Ok(Some(Located::new(Token::Mul, pos))),
            '/' => Ok(Some(Located::new(Token::Div, pos))),
            c if c.is_ascii_digit() => {
                let mut number = String::from(c);
                while let Some(c) = lexer.get() {
                    if !c.is_ascii_digit() {
                        break;
                    }
                    number.push(c);
                    pos.extend(&lexer.pos());
                    lexer.advance();
                }
                if lexer.get() == Some('.') {
                    number.push('.');
                    pos.extend(&lexer.pos());
                    lexer.advance();
                    while let Some(c) = lexer.get() {
                        if !c.is_ascii_digit() {
                            break;
                        }
                        number.push(c);
                        pos.extend(&lexer.pos());
                        lexer.advance();
                    }
                }
                Ok(Some(Located::new(Token::Number(number.parse().unwrap()), pos)))
            }
            c => Err(Located::new(LexError::BadCharacter(c), pos)),
        }
    }
}

#[test]
fn simple_lexer() -> Result<(), String> {
    let tokens = lex::<Token>("1 + 2".to_string()).map_err(|err| err.unwrap().to_string())?;
    let mut tokens = tokens.into_iter();
    assert_eq!(tokens.next().unwrap().unwrap(), Token::Number(1.));
    assert_eq!(tokens.next().unwrap().unwrap(), Token::Add);
    assert_eq!(tokens.next().unwrap().unwrap(), Token::Number(2.));
    Ok(())
}

fn tokens_of(text: &str) -> Vec<Located<Token>> {
    match lex::<Token>(text.to_string()) {
        Ok(tokens) => tokens,
        Err(err) => panic!("{}", err.unwrap()),
    }
}

fn slice_at(text: &str, pos: &Positon) -> String {
    let line = text.split('\n').nth(pos.ln.start).unwrap();
    line.chars()
        .skip(pos.col.start)
        .take(pos.col.end - pos.col.start)
        .collect()
}

#[test]
fn lexes_one_plus_two_with_positions() {
    let tokens = tokens_of("1 + 2");
    assert_eq!(tokens.len(), 3);
    assert_eq!(tokens[0].value, Token::Number(1.0));
    assert_eq!(tokens[0].pos.ln, 0..1);
    assert_eq!(tokens[0].pos.col, 0..1);
    assert_eq!(tokens[1].value, Token::Add);
    assert_eq!(tokens[1].pos.ln, 0..1);
    assert_eq!(tokens[1].pos.col, 2..3);
    assert_eq!(tokens[2].value, Token::Number(2.0));
    assert_eq!(tokens[2].pos.ln, 0..1);
    assert_eq!(tokens[2].pos.col, 4..5);
}

#[test]
fn lexes_every_symbol() {
    let tokens = tokens_of("+-*/");
    let values: Vec<Token> = tokens.into_iter().map(|token| token.unwrap()).collect();
    assert_eq!(values, vec![Token::Add, Token::Sub, Token::Mul, Token::Div]);
}

#[test]
fn a_number_spans_all_its_digits() {
    let tokens = tokens_of("  12.75 ");
    assert_eq!(tokens.len(), 1);
    assert_eq!(tokens[0].value, Token::Number(12.75));
    assert_eq!(tokens[0].pos.ln, 0..1);
    assert_eq!(tokens[0].pos.col, 2..7);
}

#[test]
fn empty_text_has_no_tokens() {
    assert_eq!(tokens_of("").len(), 0);
}

#[test]
fn blank_text_has_no_tokens() {
    assert_eq!(tokens_of(" \n\t  \n").len(), 0);
}

#[test]
fn bad_character_is_reported_with_its_column() {
    let Err(err) = lex::<Token>("1 & 2".to_string()) else {
        panic!("lexed")
    };
    assert_eq!(err.pos.ln, 0..1);
    assert_eq!(err.pos.col, 2..3);
    let LexError::BadCharacter(c) = err.unwrap();
    assert_eq!(c, '&');
}

#[test]
fn bad_character_on_a_later_line() {
    let Err(err) = lex::<Token>("1 +\n 2 ?".to_string()) else {
        panic!("lexed")
    };
    assert_eq!(err.pos.ln, 1..2);
    assert_eq!(err.pos.col, 3..4);
    assert_eq!(err.to_string(), "bad character '?'");
}

#[test]
fn the_first_error_ends_the_pass() {
    let Err(err) = lex::<Token>("1 $ 2 # 3".to_string()) else {
        panic!("lexed")
    };
    assert_eq!(err.pos.col, 2..3);
    let LexError::BadCharacter(c) = err.unwrap();
    assert_eq!(c, '$');
}

#[test]
fn token_positions_ascend() {
    let tokens = tokens_of("1 +\n  22 * 3.5\n/ 4 -\n\n5");
    assert_eq!(tokens.len(), 9);
    let starts: Vec<(usize, usize)> = tokens
        .iter()
        .map(|token| (token.pos.ln.start, token.pos.col.start))
        .collect();
    assert_eq!(
        starts,
        vec![(0, 0), (0, 2), (1, 2), (1, 5), (1, 7), (2, 0), (2, 2), (2, 4), (4, 0)]
    );
    for pair in starts.windows(2) {
        assert!(pair[0] < pair[1]);
    }
}

#[test]
fn slices_at_the_positions_rebuild_the_text() {
    let text = " + -  *\n/ +\n\n  -";
    let tokens = tokens_of(text);
    let rebuilt: String = tokens.iter().map(|token| slice_at(text, &token.pos)).collect();
    let expected: String = text.chars().filter(|c| !c.is_whitespace()).collect();
    assert_eq!(rebuilt, expected);
    assert_eq!(rebuilt, "+-*/+-");
}

#[test]
fn slices_of_numbers_rebuild_the_text() {
    let text = "12 + 3.5\n* 400";
    let tokens = tokens_of(text);
    let slices: Vec<String> = tokens.iter().map(|token| slice_at(text, &token.pos)).collect();
    assert_eq!(slices, vec!["12", "+", "3.5", "*", "400"]);
}

#[test]
fn a_pass_can_start_in_the_middle() {
    let mut lexer = Lexer::new("1 + 2".to_string());
    lexer.advance();
    let Ok(tokens) = lexer.lex::<Token>() else {
        panic!("not lexed")
    };
    assert_eq!(tokens.len(), 2);
    assert_eq!(tokens[0].value, Token::Add);
    assert_eq!(tokens[1].value, Token::Number(2.0));
    assert_eq!(lexer.get(), None);
    assert_eq!(lexer.idx(), 5);
    assert_eq!(lexer.text(), "1 + 2");
}

#[test]
fn a_pass_at_the_end_has_no_tokens() {
    let mut lexer = Lexer::new("7".to_string());
    let Ok(first) = lexer.lex::<Token>() else {
        panic!("not lexed")
    };
    assert_eq!(first.len(), 1);
    let Ok(second) = lexer.lex::<Token>() else {
        panic!("not lexed")
    };
    assert_eq!(second.len(), 0);
}

#[test]
fn there_are_no_more_tokens_than_characters() {
    let text = "+-+-1 2 3";
    let tokens = tokens_of(text);
    assert_eq!(tokens.len(), 7);
    assert!(tokens.len() <= text.chars().count());
}
