//! The lexer: program text to a sequence of tokens.

use vstd::prelude::*;
use vstd::string::StrSliceExecFns;
use vstd::string::StringExecFns;

verus! {

/// One lexical unit of a program.
#[derive(Debug, PartialEq, Clone)]
pub enum Token {
    Integer(i64),
    Symbol(String),
    OpenParen,
    CloseParen,
}

/// Mathematical model of a [`Token`].
pub enum Lexeme {
    Integer(i64),
    Symbol(Seq<char>),
    OpenParen,
    CloseParen,
}

impl View for Token {
    type V = Lexeme;

    open spec fn view(&self) -> Lexeme {
        match self {
            Token::Integer(n) => Lexeme::Integer(*n),
            Token::Symbol(s) => Lexeme::Symbol(s@),
            Token::OpenParen => Lexeme::OpenParen,
            Token::CloseParen => Lexeme::CloseParen,
        }
    }
}

/// The lexemes held by a vector of tokens.
pub open spec fn tokens_view(tokens: Seq<Token>) -> Seq<Lexeme> {
    Seq::new(tokens.len(), |i: int| tokens[i]@)
}

/// The arithmetic operator glyphs.
#[derive(Debug, PartialEq, Clone)]
pub enum Symbol {
    Add,
    Sub,
    Mul,
    Div,
}

impl Symbol {
    /// The glyph as it is written in a program.
    pub fn glyph(&self) -> (r: String)
        ensures
            r@ == match self {
                Symbol::Add => "+"@,
                Symbol::Sub => "-"@,
                Symbol::Mul => "*"@,
                Symbol::Div => "/"@,
            },
    {
        match self {
            Symbol::Add => String::from_str("+"),
            Symbol::Sub => String::from_str("-"),
            Symbol::Mul => String::from_str("*"),
            Symbol::Div => String::from_str("/"),
        }
    }
}

/// The binding keywords.
#[derive(Debug, PartialEq, Clone)]
pub enum Keyword {
    Def,
    Assign,
}

impl Keyword {
    /// The keyword as it is written in a program.
    pub fn word(&self) -> (r: String)
        ensures
            r@ == match self {
                Keyword::Def => "def"@,
                Keyword::Assign => "set"@,
            },
    {
        match self {
            Keyword::Def => String::from_str("def"),
            Keyword::Assign => String::from_str("set"),
        }
    }
}

/// A character that no token can hold. Every word that is not an integer is a
/// symbol, so [`tokenize`] never returns this.
#[derive(Debug)]
pub struct TokenError {
    pub ch: char,
}

/// Whether `c` is white space as Unicode defines it (White_Space).
pub open spec fn is_space(c: char) -> bool {
    let u = c as u32;
    (0x09 <= u <= 0x0D) || u == 0x20 || u == 0x85 || u == 0xA0 || u == 0x1680 || (0x2000 <= u
        <= 0x200A) || u == 0x2028 || u == 0x2029 || u == 0x202F || u == 0x205F || u == 0x3000
}

/// Whether `c` ends a word: white space or a parenthesis.
pub open spec fn is_delimiter(c: char) -> bool {
    is_space(c) || c == '(' || c == ')'
}

/// The value of a run of decimal digits, most significant first.
pub open spec fn digits_value(digits: Seq<char>) -> int
    decreases digits.len(),
{
    if digits.len() == 0 {
        0
    } else {
        digits_value(digits.drop_last()) * 10 + (digits.last() as u32 - '0' as u32)
    }
}

/// Whether every character is one of `0` to `9`.
pub open spec fn all_digits(digits: Seq<char>) -> bool {
    forall|i: int| 0 <= i < digits.len() ==> '0' as u32 <= #[trigger] digits[i] as u32 <= '9' as u32
}

/// The integer that a word denotes: an optional sign, then one or more
/// decimal digits, with a value that fits in 64 bits.
pub open spec fn integer_of(word: Seq<char>) -> Option<i64> {
    let signed = word.len() > 0 && (word[0] == '-' || word[0] == '+');
    let digits = if signed {
        word.drop_first()
    } else {
        word
    };
    let magnitude = digits_value(digits);
    let value = if signed && word[0] == '-' {
        -magnitude
    } else {
        magnitude
    };
    if digits.len() > 0 && all_digits(digits) && i64::MIN <= value <= i64::MAX {
        Some(value as i64)
    } else {
        None
    }
}

/// The lexeme of one word: an integer where the word denotes one, else a symbol.
pub open spec fn word_lexeme(word: Seq<char>) -> Lexeme {
    match integer_of(word) {
        Some(n) => Lexeme::Integer(n),
        None => Lexeme::Symbol(word),
    }
}

/// The index at which the word that covers `i` ends: the first delimiter at or
/// after `i`, or the end of the text.
pub open spec fn word_end(text: Seq<char>, i: int) -> int
    decreases text.len() - i,
{
    if i < 0 || i >= text.len() || is_delimiter(text[i]) {
        i
    } else {
        word_end(text, i + 1)
    }
}

/// The lexemes of `text` from index `i` on. White space separates, each
/// parenthesis stands alone, and every other maximal run is a word.
pub open spec fn lexemes_from(text: Seq<char>, i: int) -> Seq<Lexeme>
    decreases text.len() - i,
{
    if i < 0 || i >= text.len() {
        Seq::empty()
    } else if is_space(text[i]) {
        lexemes_from(text, i + 1)
    } else if text[i] == '(' {
        seq![Lexeme::OpenParen] + lexemes_from(text, i + 1)
    } else if text[i] == ')' {
        seq![Lexeme::CloseParen] + lexemes_from(text, i + 1)
    } else {
        let end = word_end(text, i + 1);
        if i < end <= text.len() {
            seq![word_lexeme(text.subrange(i, end))] + lexemes_from(text, end)
        } else {
            Seq::empty()
        }
    }
}

/// The lexemes of a whole program text.
pub open spec fn lexemes(text: Seq<char>) -> Seq<Lexeme> {
    lexemes_from(text, 0)
}

/// A word ends at or after the index it is asked from and within the text,
/// so every word of a text is read to its end.
pub proof fn lemma_word_end_bounds(text: Seq<char>, i: int)
    requires
        0 <= i <= text.len(),
    ensures
        i <= word_end(text, i) <= text.len(),
    decreases text.len() - i,
{
    if i < text.len() && !is_delimiter(text[i]) {
        lemma_word_end_bounds(text, i + 1);
    }
}

/// Decides [`is_space`].
pub fn is_whitespace(c: char) -> (r: bool)
    ensures
        r == is_space(c),
{
    let u: u32 = c as u32;
    (0x09 <= u && u <= 0x0D) || u == 0x20 || u == 0x85 || u == 0xA0 || u == 0x1680 || (0x2000 <= u
        && u <= 0x200A) || u == 0x2028 || u == 0x2029 || u == 0x202F || u == 0x205F || u == 0x3000
}

/// The value of a run of digits is not negative.
pub proof fn lemma_digits_value_bounds(digits: Seq<char>)
    requires
        all_digits(digits),
    ensures
        0 <= digits_value(digits),
    decreases digits.len(),
{
    if digits.len() > 0 {
        assert(all_digits(digits.drop_last())) by {
            assert forall|i: int| 0 <= i < digits.drop_last().len() implies '0' as u32
                <= #[trigger] digits.drop_last()[i] as u32 <= '9' as u32 by {
                assert(digits.drop_last()[i] == digits[i]);
            }
        }
        lemma_digits_value_bounds(digits.drop_last());
    }
}

/// More digits never give a smaller value.
pub proof fn lemma_digits_value_prefix(digits: Seq<char>, k: int)
    requires
        all_digits(digits),
        0 <= k <= digits.len(),
    ensures
        digits_value(digits.take(k)) <= digits_value(digits),
    decreases digits.len(),
{
    if k == digits.len() {
        assert(digits.take(k) =~= digits);
    } else {
        let shorter = digits.drop_last();
        assert(all_digits(shorter)) by {
            assert forall|i: int| 0 <= i < shorter.len() implies '0' as u32
                <= #[trigger] shorter[i] as u32 <= '9' as u32 by {
                assert(shorter[i] == digits[i]);
            }
        }
        lemma_digits_value_prefix(shorter, k);
        lemma_digits_value_bounds(shorter);
        assert(shorter.take(k) =~= digits.take(k));
    }
}

/// Reads a word as a decimal integer, as [`integer_of`] defines it.
pub fn parse_integer(word: &str) -> (r: Option<i64>)
    ensures
        r == integer_of(word@),
{
    let n = word.unicode_len();
    if n == 0 {
        return None;
    }
    let first = word.get_char(0);
    let negative = first == '-';
    let start: usize = if first == '-' || first == '+' {
        1
    } else {
        0
    };
    let ghost digits = if start == 1 {
        word@.drop_first()
    } else {
        word@
    };
    if start == n {
        return None;
    }
    // The value is gathered as a negative number, so that the least `i64` is reached.
    let mut acc: i64 = 0;
    let mut i: usize = start;
    assert(digits.take(0) =~= Seq::<char>::empty());
    while i < n
        invariant
            n == word@.len(),
            start < n,
            negative == (word@[0] == '-'),
            (start == 1) == (word@[0] == '-' || word@[0] == '+'),
            digits == if start == 1 {
                word@.drop_first()
            } else {
                word@
            },
            start <= i <= n,
            digits.len() == n - start,
            forall|j: int| 0 <= j < digits.len() ==> digits[j] == word@[j + start],
            all_digits(digits.take(i - start)),
            acc == -digits_value(digits.take(i - start)),
        decreases n - i,
    {
        let c = word.get_char(i);
        let u: u32 = c as u32;
        let ghost k = i - start;
        assert(digits[k] == c);
        if u < 48 || u > 57 {
            assert(!all_digits(digits)) by {
                assert(!('0' as u32 <= digits[k] as u32 <= '9' as u32));
            }
            return None;
        }
        let d: i64 = (u - 48) as i64;
        proof {
            assert(digits.take(k + 1).drop_last() =~= digits.take(k));
            assert(digits.take(k + 1).last() == c);
            assert(all_digits(digits.take(k + 1))) by {
                assert forall|j: int| 0 <= j < k + 1 implies '0' as u32
                    <= #[trigger] digits.take(k + 1)[j] as u32 <= '9' as u32 by {
                    if j < k {
                        assert(digits.take(k)[j] == digits.take(k + 1)[j]);
                    }
                }
            }
            lemma_digits_value_bounds(digits.take(k));
            if all_digits(digits) {
                lemma_digits_value_prefix(digits, k + 1);
            }
        }
        let shifted = match acc.checked_mul(10) {
            Some(m) => m,
            None => {
                return None;
            },
        };
        acc = match shifted.checked_sub(d) {
            Some(v) => v,
            None => {
                return None;
            },
        };
        i += 1;
    }
    assert(digits.take(n - start) =~= digits);
    if negative {
        Some(acc)
    } else if acc == i64::MIN {
        None
    } else {
        Some(-acc)
    }
}

/// Turns one word into a token.
pub fn lex_string(string: &str) -> (r: Token)
    ensures
        r@ == word_lexeme(string@),
{
    match parse_integer(string) {
        Some(n) => Token::Integer(n),
        None => Token::Symbol(String::from_str(string)),
    }
}

/// Splits a program text into tokens. Tokenizing is total: the result is
/// always `Ok`, and it holds exactly the lexemes of the text.
///
/// A `str` is indexed by character in linear time, so the time taken grows
/// with the square of the length of the text.
pub fn tokenize(stream: &str) -> (r: Result<Vec<Token>, TokenError>)
    ensures
        r is Ok,
        tokens_view(r->Ok_0@) == lexemes(stream@),
{
    let n = stream.unicode_len();
    let mut tokens: Vec<Token> = Vec::new();
    let mut i: usize = 0;
    while i < n
        invariant
            n == stream@.len(),
            i <= n,
            lexemes(stream@) == tokens_view(tokens@) + lexemes_from(stream@, i as int),
        decreases n - i,
    {
        let ghost before = tokens_view(tokens@);
        let c = stream.get_char(i);
        if is_whitespace(c) {
            i += 1;
        } else if c == '(' {
            tokens.push(Token::OpenParen);
            i += 1;
        } else if c == ')' {
            tokens.push(Token::CloseParen);
            i += 1;
        } else {
            let mut end: usize = i + 1;
            while end < n && !is_word_end(stream.get_char(end))
                invariant
                    n == stream@.len(),
                    i < end <= n,
                    word_end(stream@, i + 1) == word_end(stream@, end as int),
                decreases n - end,
            {
                end += 1;
            }
            tokens.push(lex_string(stream.substring_char(i, end)));
            i = end;
        }
        proof {
            let after = tokens_view(tokens@);
            if tokens.len() > before.len() {
                assert(after =~= before.push(tokens@.last()@));
            } else {
                assert(after =~= before);
            }
            assert(lexemes(stream@) =~= after + lexemes_from(stream@, i as int));
        }
    }
    assert(tokens_view(tokens@) =~= lexemes(stream@));
    Ok(tokens)
}

/// Decides [`is_delimiter`].
pub fn is_word_end(c: char) -> (r: bool)
    ensures
        r == is_delimiter(c),
{
    is_whitespace(c) || c == '(' || c == ')'
}

} // verus!
