use lisp_rs::lexer::{
    is_whitespace, is_word_end, lex_string, parse_integer, tokenize, Keyword, Symbol, Token,
};
use lisp_rs::object::Object;
use lisp_rs::parser::{parse, parse_list, ParseError, ParseReason};

fn sym(s: &str) -> Object {
    Object::Symbol(s.to_string())
}

#[test]
fn test_add() {
    let list = parse("(+ 1 2 )").unwrap();
    assert_eq!(
        list,
        Object::List(vec![sym("+"), Object::Integer(1), Object::Integer(2)])
    );
}

#[test]
fn tokenize_addition() {
    let tokens = tokenize("(+ 1 2)").unwrap();
    assert_eq!(
        tokens,
        vec![
            Token::OpenParen,
            Token::Symbol("+".to_string()),
            Token::Integer(1),
            Token::Integer(2),
            Token::CloseParen,
        ]
    );
}

#[test]
fn tokenize_empty_text() {
    assert_eq!(tokenize("").unwrap(), vec![]);
    assert_eq!(tokenize("  \t\n ").unwrap(), vec![]);
}

#[test]
fn tokenize_parens_without_spaces() {
    let tokens = tokenize("((a)b)").unwrap();
    assert_eq!(
        tokens,
        vec![
            Token::OpenParen,
            Token::OpenParen,
            Token::Symbol("a".to_string()),
            Token::CloseParen,
            Token::Symbol("b".to_string()),
            Token::CloseParen,
        ]
    );
}

#[test]
fn tokenize_word_at_end_of_text() {
    let tokens = tokenize("def  lambda").unwrap();
    assert_eq!(
        tokens,
        vec![Token::Symbol("def".to_string()), Token::Symbol("lambda".to_string())]
    );
}

#[test]
fn tokenize_unicode_white_space() {
    let tokens = tokenize("(+\u{a0}1\t2\u{3000}\u{2003}3\r\n)").unwrap();
    assert_eq!(
        tokens,
        vec![
            Token::OpenParen,
            Token::Symbol("+".to_string()),
            Token::Integer(1),
            Token::Integer(2),
            Token::Integer(3),
            Token::CloseParen,
        ]
    );
}

#[test]
fn white_space_matches_std() {
    let mut u: u32 = 0;
    while u < 0x3100 {
        if let Some(c) = char::from_u32(u) {
            assert_eq!(is_whitespace(c), c.is_whitespace(), "U+{:04X}", u);
        }
        u += 1;
    }
}

#[test]
fn tokenize_non_ascii_symbol() {
    let tokens = tokenize("(λ é)").unwrap();
    assert_eq!(
        tokens,
        vec![
            Token::OpenParen,
            Token::Symbol("λ".to_string()),
            Token::Symbol("é".to_string()),
            Token::CloseParen,
        ]
    );
}

#[test]
fn lex_signed_integers() {
    assert_eq!(lex_string("-12"), Token::Integer(-12));
    assert_eq!(lex_string("+7"), Token::Integer(7));
    assert_eq!(lex_string("007"), Token::Integer(7));
    assert_eq!(lex_string("-0"), Token::Integer(0));
    assert_eq!(lex_string("9223372036854775807"), Token::Integer(i64::MAX));
    assert_eq!(lex_string("-9223372036854775808"), Token::Integer(i64::MIN));
}

#[test]
fn lex_words_that_are_no_integers() {
    assert_eq!(lex_string("-"), Token::Symbol("-".to_string()));
    assert_eq!(lex_string("+"), Token::Symbol("+".to_string()));
    assert_eq!(lex_string("12a"), Token::Symbol("12a".to_string()));
    assert_eq!(lex_string("1_000"), Token::Symbol("1_000".to_string()));
    assert_eq!(lex_string("--1"), Token::Symbol("--1".to_string()));
    assert_eq!(
        lex_string("9223372036854775808"),
        Token::Symbol("9223372036854775808".to_string())
    );
    assert_eq!(
        lex_string("-9223372036854775809"),
        Token::Symbol("-9223372036854775809".to_string())
    );
    assert_eq!(lex_string("true"), Token::Symbol("true".to_string()));
}

#[test]
fn glyphs_and_keywords() {
    assert_eq!(Symbol::Add.glyph(), "+");
    assert_eq!(Symbol::Sub.glyph(), "-");
    assert_eq!(Symbol::Mul.glyph(), "*");
    assert_eq!(Symbol::Div.glyph(), "/");
    assert_eq!(Keyword::Def.word(), "def");
    assert_eq!(Keyword::Assign.word(), "set");
}

#[test]
fn parse_addition() {
    assert_eq!(
        parse("(+ 1 2)"),
        Ok(Object::List(vec![sym("+"), Object::Integer(1), Object::Integer(2)]))
    );
}

#[test]
fn parse_nested_lists() {
    assert_eq!(
        parse("(if (> 3 2) (a () 1) 0)"),
        Ok(Object::List(vec![
            sym("if"),
            Object::List(vec![sym(">"), Object::Integer(3), Object::Integer(2)]),
            Object::List(vec![sym("a"), Object::List(vec![]), Object::Integer(1)]),
            Object::Integer(0),
        ]))
    );
}

#[test]
fn parse_ignores_what_follows_the_first_form() {
    assert_eq!(parse("(1) (2"), Ok(Object::List(vec![Object::Integer(1)])));
    assert_eq!(parse("() )"), Ok(Object::List(vec![])));
}

#[test]
fn parse_expects_open_paren() {
    let expected = Err(ParseError { reason: ParseReason::ExpectedOpenParen });
    assert_eq!(parse("1"), expected);
    assert_eq!(parse(""), expected);
    assert_eq!(parse(") ("), expected);
    assert_eq!(parse("x (1)"), expected);
}

#[test]
fn parse_insufficient_tokens() {
    let expected = Err(ParseError { reason: ParseReason::InsufficientTokens });
    assert_eq!(parse("("), expected);
    assert_eq!(parse("(+ 1"), expected);
    assert_eq!(parse("(+ (1 2)"), expected);
    assert_eq!(parse("((("), expected);
}

#[test]
fn parse_list_gives_the_next_index() {
    let tokens = tokenize("a (1 (2)) b").unwrap();
    assert_eq!(
        parse_list(&tokens, 1),
        Ok((
            Object::List(vec![Object::Integer(1), Object::List(vec![Object::Integer(2)])]),
            7
        ))
    );
    assert_eq!(
        parse_list(&tokens, 0),
        Err(ParseError { reason: ParseReason::ExpectedOpenParen })
    );
    assert_eq!(
        parse_list(&tokens, 9),
        Err(ParseError { reason: ParseReason::ExpectedOpenParen })
    );
}

#[test]
fn deep_clone_keeps_the_value() {
    let o = parse("(def f (lambda (a b) (+ a (g b 1))))").unwrap();
    assert_eq!(o.deep_clone(), o);
    let l = Object::Lambda(vec!["a".to_string()], vec![sym("a"), Object::Bool(true), Object::Void]);
    assert_eq!(l.deep_clone(), l);
}

#[test]
fn parse_integer_accepts_sign_and_digits_only() {
    assert_eq!(parse_integer("0"), Some(0));
    assert_eq!(parse_integer("42"), Some(42));
    assert_eq!(parse_integer("-42"), Some(-42));
    assert_eq!(parse_integer("+42"), Some(42));
    assert_eq!(parse_integer("0000000000000000000000012"), Some(12));
    assert_eq!(parse_integer("9223372036854775807"), Some(i64::MAX));
    assert_eq!(parse_integer("+9223372036854775807"), Some(i64::MAX));
    assert_eq!(parse_integer("-9223372036854775808"), Some(i64::MIN));
    assert_eq!(parse_integer(""), None);
    assert_eq!(parse_integer("+"), None);
    assert_eq!(parse_integer("-"), None);
    assert_eq!(parse_integer("+-1"), None);
    assert_eq!(parse_integer("1-"), None);
    assert_eq!(parse_integer("1.5"), None);
    assert_eq!(parse_integer("0x10"), None);
    assert_eq!(parse_integer("\u{661}"), None);
    assert_eq!(parse_integer("9223372036854775808"), None);
    assert_eq!(parse_integer("+9223372036854775808"), None);
    assert_eq!(parse_integer("-9223372036854775809"), None);
    assert_eq!(parse_integer("99999999999999999999999999"), None);
    assert_eq!(parse_integer("-99999999999999999999999999"), None);
    assert_eq!(parse_integer("92233720368547758070x"), None);
}

#[test]
fn parse_integer_agrees_with_std() {
    let words = [
        "", "0", "-0", "+0", "7", "-7", "+7", "12345678901234567890", "-12345678901234567890",
        "9223372036854775807", "9223372036854775808", "-9223372036854775808",
        "-9223372036854775809", "1a", "a1", " 1", "1 ", "--1", "++1", "1_0",
    ];
    for w in words {
        assert_eq!(parse_integer(w), w.parse::<i64>().ok(), "{:?}", w);
    }
}

#[test]
fn word_ends() {
    assert!(is_word_end('('));
    assert!(is_word_end(')'));
    assert!(is_word_end(' '));
    assert!(is_word_end('\n'));
    assert!(!is_word_end('a'));
    assert!(!is_word_end('['));
    assert!(!is_word_end('-'));
}

#[test]
fn clone_keeps_the_value() {
    let o = parse("(a (b 1) ())").unwrap();
    assert_eq!(o.clone(), o);
}
