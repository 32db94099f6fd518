//! The parser: a token sequence to one nested list.

use vstd::prelude::*;
use crate::lexer::{lexemes, tokenize, tokens_view, Lexeme, Token};
use crate::object::{objects_view, lemma_view_parts, Object, Term};

verus! {

/// Why a program text is not one parenthesised form.
#[derive(Debug, PartialEq, Eq, Clone, Copy, Structural)]
pub enum ParseReason {
    /// The text does not start with an opening parenthesis.
    ExpectedOpenParen,
    /// The text ends inside a list.
    InsufficientTokens,
}

/// A failure to parse.
#[derive(Debug, PartialEq, Eq, Clone, Copy, Structural)]
pub struct ParseError {
    pub reason: ParseReason,
}

/// `first` put in front of the items that the rest of a list gave.
pub open spec fn items_after(first: Term, rest: Option<(Seq<Term>, int)>) -> Option<
    (Seq<Term>, int),
> {
    match rest {
        Some((items, next)) => Some((seq![first] + items, next)),
        None => None,
    }
}

/// The items of a list whose opening parenthesis stands just before `pos`,
/// with the index after its closing parenthesis; `None` where the tokens end
/// before the list is closed.
pub open spec fn items_at(tokens: Seq<Lexeme>, pos: int) -> Option<(Seq<Term>, int)>
    decreases tokens.len() - pos,
{
    if pos < 0 || pos >= tokens.len() {
        None
    } else {
        match tokens[pos] {
            Lexeme::CloseParen => Some((Seq::empty(), pos + 1)),
            Lexeme::Integer(n) => items_after(Term::Integer(n), items_at(tokens, pos + 1)),
            Lexeme::Symbol(s) => items_after(Term::Symbol(s), items_at(tokens, pos + 1)),
            Lexeme::OpenParen => match items_at(tokens, pos + 1) {
                Some((inner, next)) => if pos < next <= tokens.len() {
                    items_after(Term::List(inner), items_at(tokens, next))
                } else {
                    None
                },
                None => None,
            },
        }
    }
}

/// A list ends after it starts and within the tokens, so the list that
/// follows a nested one is always read.
pub proof fn lemma_items_at_bounds(tokens: Seq<Lexeme>, pos: int)
    ensures
        items_at(tokens, pos) matches Some((_, next)) ==> pos < next <= tokens.len(),
    decreases tokens.len() - pos,
{
    if 0 <= pos < tokens.len() {
        match tokens[pos] {
            Lexeme::CloseParen => {},
            Lexeme::OpenParen => {
                lemma_items_at_bounds(tokens, pos + 1);
                if let Some((_, next)) = items_at(tokens, pos + 1) {
                    lemma_items_at_bounds(tokens, next);
                }
            },
            _ => {
                lemma_items_at_bounds(tokens, pos + 1);
            },
        }
    }
}

/// The first top-level form of a token sequence. Tokens after it are ignored.
pub open spec fn parse_lexemes(tokens: Seq<Lexeme>) -> Result<Term, ParseReason> {
    if tokens.len() == 0 || tokens[0] != Lexeme::OpenParen {
        Err(ParseReason::ExpectedOpenParen)
    } else {
        match items_at(tokens, 1) {
            Some((items, _)) => Ok(Term::List(items)),
            None => Err(ParseReason::InsufficientTokens),
        }
    }
}

/// The form that a program text denotes.
pub open spec fn parse_text(text: Seq<char>) -> Result<Term, ParseReason> {
    parse_lexemes(lexemes(text))
}

/// `acc` put in front of the items that the rest of a list gave.
pub open spec fn items_joined(acc: Seq<Term>, rest: Option<(Seq<Term>, int)>) -> Option<
    (Seq<Term>, int),
> {
    match rest {
        Some((items, next)) => Some((acc + items, next)),
        None => None,
    }
}

/// The view of a parse result.
pub open spec fn parsed_view(r: Result<Object, ParseError>) -> Result<Term, ParseReason> {
    match r {
        Ok(o) => Ok(o@),
        Err(e) => Err(e.reason),
    }
}

/// Parses the list that starts at `tokens[pos]`, which must be an opening
/// parenthesis. Returns the list and the index after its closing parenthesis.
pub fn parse_list(tokens: &Vec<Token>, pos: usize) -> (r: Result<(Object, usize), ParseError>)
    ensures
        pos >= tokens.len() || tokens[pos as int]@ != Lexeme::OpenParen ==> r == Err::<
            (Object, usize),
            ParseError,
        >(ParseError { reason: ParseReason::ExpectedOpenParen }),
        pos < tokens.len() && tokens[pos as int]@ == Lexeme::OpenParen ==> match items_at(
            tokens_view(tokens@),
            pos + 1,
        ) {
            Some((items, next)) => r is Ok && r->Ok_0.0@ == Term::List(items) && r->Ok_0.1 == next
                && pos < next <= tokens.len(),
            None => r == Err::<(Object, usize), ParseError>(
                ParseError { reason: ParseReason::InsufficientTokens },
            ),
        },
    decreases tokens.len() - pos,
{
    if pos >= tokens.len() {
        return Err(ParseError { reason: ParseReason::ExpectedOpenParen });
    }
    match &tokens[pos] {
        Token::OpenParen => {},
        _ => {
            return Err(ParseError { reason: ParseReason::ExpectedOpenParen });
        },
    }
    let ghost lex = tokens_view(tokens@);
    let mut list: Vec<Object> = Vec::new();
    let mut at: usize = pos + 1;
    while at < tokens.len()
        invariant
            pos < at <= tokens.len(),
            tokens[pos as int]@ == Lexeme::OpenParen,
            lex == tokens_view(tokens@),
            items_at(lex, pos + 1) == items_joined(objects_view(list@), items_at(lex, at as int)),
        decreases tokens.len() - at,
    {
        let ghost acc = objects_view(list@);
        let ghost here = at as int;
        assert(lex[here] == tokens[here]@);
        match &tokens[at] {
            Token::Integer(n) => {
                list.push(Object::Integer(*n));
                at += 1;
                proof {
                    assert(objects_view(list@) =~= acc.push(Term::Integer(*n)));
                    lemma_join_step(acc, Term::Integer(*n), items_at(lex, at as int));
                }
            },
            Token::Symbol(s) => {
                list.push(Object::Symbol(s.clone()));
                at += 1;
                proof {
                    assert(objects_view(list@) =~= acc.push(Term::Symbol(s@)));
                    lemma_join_step(acc, Term::Symbol(s@), items_at(lex, at as int));
                }
            },
            Token::OpenParen => {
                match parse_list(tokens, at) {
                    Ok((sub, next)) => {
                        let ghost inner = items_at(lex, here + 1)->Some_0.0;
                        list.push(sub);
                        at = next;
                        proof {
                            assert(objects_view(list@) =~= acc.push(Term::List(inner)));
                            lemma_join_step(acc, Term::List(inner), items_at(lex, at as int));
                        }
                    },
                    Err(e) => {
                        return Err(e);
                    },
                }
            },
            Token::CloseParen => {
                let r = Object::List(list);
                proof {
                    lemma_view_parts(r);
                    assert(acc + Seq::<Term>::empty() =~= acc);
                }
                return Ok((r, at + 1));
            },
        }
    }
    Err(ParseError { reason: ParseReason::InsufficientTokens })
}

/// Putting one more item behind `acc` and joining equals joining with the
/// item in front of the rest.
pub proof fn lemma_join_step(acc: Seq<Term>, item: Term, rest: Option<(Seq<Term>, int)>)
    ensures
        items_joined(acc.push(item), rest) == items_joined(acc, items_after(item, rest)),
{
    match rest {
        Some((items, next)) => {
            assert(acc.push(item) + items =~= acc + (seq![item] + items));
        },
        None => {},
    }
}

/// Parses a program text into its first top-level form.
pub fn parse(stream: &str) -> (r: Result<Object, ParseError>)
    ensures
        parsed_view(r) == parse_text(stream@),
{
    match tokenize(stream) {
        Ok(tokens) => {
            assert(tokens_view(tokens@).len() == tokens@.len());
            if tokens.len() > 0 {
                assert(tokens_view(tokens@)[0] == tokens[0]@);
            }
            match parse_list(&tokens, 0) {
                Ok((list, _)) => Ok(list),
                Err(e) => Err(e),
            }
        },
        // Tokenizing never fails, so this arm is never taken.
        Err(_) => Err(ParseError { reason: ParseReason::ExpectedOpenParen }),
    }
}

} // verus!
