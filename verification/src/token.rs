//! Tokens and the pure character/word classifier.
//!
//! The character classes recognized by the tokenizer are the Unicode ones
//! that the standard library decides: `White_Space` for whitespace,
//! `Alphabetic` for the characters an identifier may hold, and the numeric
//! general categories for a numeric run. Below code 128 the three classes
//! are written out exactly; beyond ASCII they enter the contracts by name,
//! as what `char::is_whitespace`, `char::is_alphabetic` and
//! `char::is_numeric` return. Any character in none of these classes and not
//! a recognized punctuation or operator character is out of the language.

use vstd::prelude::*;

verus! {

/// A lexical token. Identifier and diagnostic text is owned, so a token
/// sequence never borrows from the input buffer it was scanned from.
#[derive(Debug, Clone, PartialEq, Eq)]
pub enum Token {
    /// A run of letters that is not a keyword; holds the exact source text.
    Identifier(String),
    /// A recognized but malformed unit, with a diagnostic message.
    Illegal(String),
    /// A successfully decoded integer literal.
    Int(i32),
    Assign,
    Eq,
    NotEq,
    Plus,
    Minus,
    Bang,
    Asterisk,
    Slash,
    LessThan,
    GreaterThan,
    Comma,
    Semicolon,
    LeftParen,
    RightParen,
    LeftBrace,
    RightBrace,
    Function,
    Let,
    True,
    False,
    If,
    Else,
    Return,
}

/// The mathematical model of a token: text as a sequence of characters and
/// an integer value without a fixed width.
pub enum TokenModel {
    Identifier(Seq<char>),
    Illegal(Seq<char>),
    Int(int),
    Assign,
    Eq,
    NotEq,
    Plus,
    Minus,
    Bang,
    Asterisk,
    Slash,
    LessThan,
    GreaterThan,
    Comma,
    Semicolon,
    LeftParen,
    RightParen,
    LeftBrace,
    RightBrace,
    Function,
    Let,
    True,
    False,
    If,
    Else,
    Return,
}

impl View for Token {
    type V = TokenModel;

    open spec fn view(&self) -> TokenModel {
        match self {
            Token::Identifier(s) => TokenModel::Identifier(s@),
            Token::Illegal(m) => TokenModel::Illegal(m@),
            Token::Int(n) => TokenModel::Int(*n as int),
            Token::Assign => TokenModel::Assign,
            Token::Eq => TokenModel::Eq,
            Token::NotEq => TokenModel::NotEq,
            Token::Plus => TokenModel::Plus,
            Token::Minus => TokenModel::Minus,
            Token::Bang => TokenModel::Bang,
            Token::Asterisk => TokenModel::Asterisk,
            Token::Slash => TokenModel::Slash,
            Token::LessThan => TokenModel::LessThan,
            Token::GreaterThan => TokenModel::GreaterThan,
            Token::Comma => TokenModel::Comma,
            Token::Semicolon => TokenModel::Semicolon,
            Token::LeftParen => TokenModel::LeftParen,
            Token::RightParen => TokenModel::RightParen,
            Token::LeftBrace => TokenModel::LeftBrace,
            Token::RightBrace => TokenModel::RightBrace,
            Token::Function => TokenModel::Function,
            Token::Let => TokenModel::Let,
            Token::True => TokenModel::True,
            Token::False => TokenModel::False,
            Token::If => TokenModel::If,
            Token::Else => TokenModel::Else,
            Token::Return => TokenModel::Return,
        }
    }
}

/// The ASCII whitespace characters, exactly the ASCII part of the Unicode
/// `White_Space` property: tab, line feed, vertical tab, form feed, carriage
/// return (codes 9..13) and the space (code 32).
pub open spec fn is_space_char(c: char) -> bool {
    c as int == 32 || (9 <= c as int && c as int <= 13)
}

/// The ASCII letters, exactly the ASCII part of the Unicode `Alphabetic`
/// property: `A`..`Z` (codes 65..90) and `a`..`z` (97..122).
pub open spec fn is_letter_char(c: char) -> bool {
    (65 <= c as int && c as int <= 90) || (97 <= c as int && c as int <= 122)
}

/// The ASCII digits, exactly the ASCII part of the Unicode numeric
/// categories: `0`..`9` (codes 48..57).
pub open spec fn is_digit_char(c: char) -> bool {
    48 <= c as int && c as int <= 57
}

/// The numeric value of an ASCII digit character.
pub open spec fn digit_val(c: char) -> int {
    c as int - 48
}

/// The Unicode `White_Space` property beyond ASCII, named but not written
/// out: what `char::is_whitespace` returns there.
pub uninterp spec fn whitespace_char_ext(c: char) -> bool;

/// The Unicode `Alphabetic` property beyond ASCII, named but not written
/// out: what `char::is_alphabetic` returns there.
pub uninterp spec fn alphabetic_char_ext(c: char) -> bool;

/// The Unicode numeric categories beyond ASCII, named but not written out:
/// what `char::is_numeric` returns there.
pub uninterp spec fn numeric_char_ext(c: char) -> bool;

/// The whitespace class of the tokenizer: the Unicode `White_Space`
/// property, written out below code 128.
pub open spec fn whitespace_char(c: char) -> bool {
    if (c as int) < 128 {
        is_space_char(c)
    } else {
        whitespace_char_ext(c)
    }
}

/// The letter class of the tokenizer: the Unicode `Alphabetic` property,
/// written out below code 128.
pub open spec fn alphabetic_char(c: char) -> bool {
    if (c as int) < 128 {
        is_letter_char(c)
    } else {
        alphabetic_char_ext(c)
    }
}

/// The numeric class of the tokenizer: the Unicode numeric general
/// categories, written out below code 128.
pub open spec fn numeric_char(c: char) -> bool {
    if (c as int) < 128 {
        is_digit_char(c)
    } else {
        numeric_char_ext(c)
    }
}

/// Relies on char::is_whitespace: whether `c` has the Unicode `White_Space`
/// property, a function of the character alone; its ASCII part is the six
/// characters that `is_space_char` lists.
pub assume_specification[ char::is_whitespace ](c: char) -> (r: bool)
    ensures
        r == whitespace_char(c),
        c as int >= 128 ==> r == whitespace_char_ext(c),
;

/// Relies on char::is_alphabetic: whether `c` has the Unicode `Alphabetic`
/// property, a function of the character alone; its ASCII part is the two
/// letter ranges that `is_letter_char` lists.
pub assume_specification[ char::is_alphabetic ](c: char) -> (r: bool)
    ensures
        r == alphabetic_char(c),
        c as int >= 128 ==> r == alphabetic_char_ext(c),
;

/// Relies on char::is_numeric: whether `c` is in one of the Unicode numeric
/// general categories, a function of the character alone; its ASCII part is
/// the digit range that `is_digit_char` lists.
pub assume_specification[ char::is_numeric ](c: char) -> (r: bool)
    ensures
        r == numeric_char(c),
        c as int >= 128 ==> r == numeric_char_ext(c),
;

/// Whether `c` is a recognized one-character punctuation or operator token,
/// and which.
pub open spec fn single_char_token(c: char) -> Option<TokenModel> {
    if c == '=' {
        Some(TokenModel::Assign)
    } else if c == '+' {
        Some(TokenModel::Plus)
    } else if c == '-' {
        Some(TokenModel::Minus)
    } else if c == '!' {
        Some(TokenModel::Bang)
    } else if c == '*' {
        Some(TokenModel::Asterisk)
    } else if c == '/' {
        Some(TokenModel::Slash)
    } else if c == '<' {
        Some(TokenModel::LessThan)
    } else if c == '>' {
        Some(TokenModel::GreaterThan)
    } else if c == ',' {
        Some(TokenModel::Comma)
    } else if c == ';' {
        Some(TokenModel::Semicolon)
    } else if c == '(' {
        Some(TokenModel::LeftParen)
    } else if c == ')' {
        Some(TokenModel::RightParen)
    } else if c == '{' {
        Some(TokenModel::LeftBrace)
    } else if c == '}' {
        Some(TokenModel::RightBrace)
    } else {
        None
    }
}

/// The keyword token for `w`, if `w` is exactly one of the fixed keyword
/// strings.
pub open spec fn spec_keyword(w: Seq<char>) -> Option<TokenModel> {
    if w == "let"@ {
        Some(TokenModel::Let)
    } else if w == "fn"@ {
        Some(TokenModel::Function)
    } else if w == "true"@ {
        Some(TokenModel::True)
    } else if w == "false"@ {
        Some(TokenModel::False)
    } else if w == "if"@ {
        Some(TokenModel::If)
    } else if w == "else"@ {
        Some(TokenModel::Else)
    } else if w == "return"@ {
        Some(TokenModel::Return)
    } else {
        None
    }
}

/// The token for a completed run of letters: the keyword token if `w` matches
/// one of the fixed keyword strings exactly, else an identifier holding `w`.
pub open spec fn word_token(w: Seq<char>) -> TokenModel {
    match spec_keyword(w) {
        Some(t) => t,
        None => TokenModel::Identifier(w),
    }
}

/// Character-by-character string equality, decided without assuming anything
/// about the encoding.
fn str_eq(a: &str, b: &str) -> (r: bool)
    ensures
        r == (a@ == b@),
{
    let an = a.unicode_len();
    let bn = b.unicode_len();
    if an != bn {
        return false;
    }
    let mut i: usize = 0;
    while i < an
        invariant
            i <= an,
            an == a@.len(),
            bn == b@.len(),
            an == bn,
            forall|k: int| 0 <= k < i ==> a@[k] == b@[k],
        decreases an - i,
    {
        if a.get_char(i) != b.get_char(i) {
            return false;
        }
        i = i + 1;
    }
    proof {
        assert(a@ =~= b@);
    }
    true
}

impl Token {
    /// The one-character punctuation or operator token for `c`, or `None` if
    /// `c` is not such a character. Digits, letters and the lead characters of
    /// the two-character operators are resolved by the lexer, not here.
    pub fn try_from_char(c: char) -> (t: Option<Token>)
        ensures
            match t {
                Some(tok) => single_char_token(c) == Some(tok@),
                None => single_char_token(c) is None,
            },
    {
        match c {
            '=' => Some(Token::Assign),
            '+' => Some(Token::Plus),
            '-' => Some(Token::Minus),
            '!' => Some(Token::Bang),
            '*' => Some(Token::Asterisk),
            '/' => Some(Token::Slash),
            '<' => Some(Token::LessThan),
            '>' => Some(Token::GreaterThan),
            ',' => Some(Token::Comma),
            ';' => Some(Token::Semicolon),
            '(' => Some(Token::LeftParen),
            ')' => Some(Token::RightParen),
            '{' => Some(Token::LeftBrace),
            '}' => Some(Token::RightBrace),
            _ => None,
        }
    }

    /// The token for a completed word: a keyword token on an exact match
    /// against the fixed keyword set, else `Identifier` holding the word.
    pub fn from_string(s: &str) -> (t: Token)
        ensures
            t@ == word_token(s@),
    {
        if str_eq(s, "let") {
            Token::Let
        } else if str_eq(s, "fn") {
            Token::Function
        } else if str_eq(s, "true") {
            Token::True
        } else if str_eq(s, "false") {
            Token::False
        } else if str_eq(s, "if") {
            Token::If
        } else if str_eq(s, "else") {
            Token::Else
        } else if str_eq(s, "return") {
            Token::Return
        } else {
            Token::Identifier(s.to_owned())
        }
    }
}

} // verus!
