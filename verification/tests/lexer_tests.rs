use interpreter_rust::lexer::tokenize;
use interpreter_rust::lexer::Lexer;
use interpreter_rust::token::Token;

#[test]
fn tokens_should_not_contain_white_space() {
    let s = "( = ;";

    let tokens = tokenize(s);
    let expected = vec![Token::LeftParen, Token::Assign, Token::Semicolon];

    assert_eq!(tokens, expected);
}

#[test]
fn should_parse_single_char_tokens() {
    let s = "=+-!*/<,>(){};";

    let tokens = tokenize(s);
    let expected = vec![
        Token::Assign,
        Token::Plus,
        Token::Minus,
        Token::Bang,
        Token::Asterisk,
        Token::Slash,
        Token::LessThan,
        Token::Comma,
        Token::GreaterThan,
        Token::LeftParen,
        Token::RightParen,
        Token::LeftBrace,
        Token::RightBrace,
        Token::Semicolon,
    ];

    assert_eq!(tokens, expected);
}

#[test]
fn should_parse_identifiers() {
    let s = "(  five hello  what;";

    let tokens = tokenize(s);
    let expected = vec![
        Token::LeftParen,
        Token::Identifier("five".to_string()),
        Token::Identifier("hello".to_string()),
        Token::Identifier("what".to_string()),
        Token::Semicolon,
    ];

    assert_eq!(tokens, expected);
}

#[test]
fn should_parse_keywords() {
    let s = "let return if else  fn true+false;";
    let tokens = tokenize(s);

    let expected = vec![
        Token::Let,
        Token::Return,
        Token::If,
        Token::Else,
        Token::Function,
        Token::True,
        Token::Plus,
        Token::False,
        Token::Semicolon,
    ];

    assert_eq!(tokens, expected);
}

#[test]
fn should_parse_integers() {
    let s = "5 10 15 20;";
    let tokens = tokenize(s);

    let expected = vec![
        Token::Int(5),
        Token::Int(10),
        Token::Int(15),
        Token::Int(20),
        Token::Semicolon,
    ];

    assert_eq!(tokens, expected);
}

#[test]
fn should_parse_multi_character_non_alphanumeric_tokens() {
    let s = "!= == ";
    let tokens = tokenize(s);

    let expected = vec![Token::NotEq, Token::Eq];

    assert_eq!(tokens, expected);
}

#[test]
fn empty_and_whitespace_only_input_yields_no_tokens() {
    assert_eq!(tokenize(""), Vec::<Token>::new());
    assert_eq!(tokenize(" \t\r\n  \n"), Vec::<Token>::new());
    assert_eq!(tokenize("\u{b}\u{c}"), Vec::<Token>::new());
}

#[test]
fn unicode_whitespace_separates_tokens_and_scans_to_nothing() {
    assert_eq!(tokenize("\u{a0}\u{3000}\u{2028}"), Vec::<Token>::new());
    assert_eq!(
        tokenize("=\u{a0};"),
        vec![Token::Assign, Token::Semicolon]
    );
}

#[test]
fn unicode_letters_form_identifiers() {
    assert_eq!(
        tokenize("caf\u{e9}"),
        vec![Token::Identifier("caf\u{e9}".to_string())]
    );
    assert_eq!(
        tokenize("\u{3b1}\u{3b2} let"),
        vec![
            Token::Identifier("\u{3b1}\u{3b2}".to_string()),
            Token::Let,
        ]
    );
}

#[test]
fn non_ascii_numeric_runs_are_illegal() {
    assert_eq!(
        tokenize("\u{663}"),
        vec![Token::Illegal("invalid digit in integer literal".to_string())]
    );
    assert_eq!(
        tokenize("1\u{663};"),
        vec![
            Token::Illegal("invalid digit in integer literal".to_string()),
            Token::Semicolon,
        ]
    );
}

#[test]
fn two_char_operators_are_not_split() {
    assert_eq!(tokenize("!="), vec![Token::NotEq]);
    assert_eq!(tokenize("=="), vec![Token::Eq]);
    assert_eq!(tokenize("! ="), vec![Token::Bang, Token::Assign]);
}

#[test]
fn every_keyword_is_recognized_alone() {
    assert_eq!(tokenize("let"), vec![Token::Let]);
    assert_eq!(tokenize("fn"), vec![Token::Function]);
    assert_eq!(tokenize("true"), vec![Token::True]);
    assert_eq!(tokenize("false"), vec![Token::False]);
    assert_eq!(tokenize("if"), vec![Token::If]);
    assert_eq!(tokenize("else"), vec![Token::Else]);
    assert_eq!(tokenize("return"), vec![Token::Return]);
}

#[test]
fn non_keyword_letter_runs_are_identifiers() {
    assert_eq!(
        tokenize("lets"),
        vec![Token::Identifier("lets".to_string())]
    );
    assert_eq!(tokenize("Fn"), vec![Token::Identifier("Fn".to_string())]);
    assert_eq!(
        tokenize("truefalse"),
        vec![Token::Identifier("truefalse".to_string())]
    );
}

#[test]
fn integer_literals_at_the_representable_edge() {
    assert_eq!(tokenize("0"), vec![Token::Int(0)]);
    assert_eq!(tokenize("2147483647"), vec![Token::Int(2147483647)]);
    assert_eq!(
        tokenize("2147483648"),
        vec![Token::Illegal("integer literal out of range".to_string())]
    );
    assert_eq!(
        tokenize("99999999999999999999"),
        vec![Token::Illegal("integer literal out of range".to_string())]
    );
}

#[test]
fn unrecognized_character_yields_illegal_and_scanning_continues() {
    assert_eq!(
        tokenize("@;"),
        vec![
            Token::Illegal("unrecognized character".to_string()),
            Token::Semicolon,
        ]
    );
    assert_eq!(
        tokenize("a # b"),
        vec![
            Token::Identifier("a".to_string()),
            Token::Illegal("unrecognized character".to_string()),
            Token::Identifier("b".to_string()),
        ]
    );
}

#[test]
fn let_statement_scenario() {
    let tokens = tokenize("let five = 5;");
    let expected = vec![
        Token::Let,
        Token::Identifier("five".to_string()),
        Token::Assign,
        Token::Int(5),
        Token::Semicolon,
    ];
    assert_eq!(tokens, expected);
}

#[test]
fn pull_based_session_matches_eager_tokenize() {
    let s = "let five = 5; if (five != ten) { return true; }";
    let mut lx = Lexer::new(s);
    let mut pulled: Vec<Token> = Vec::new();
    while let Some(t) = lx.next_token() {
        pulled.push(t);
    }
    assert_eq!(pulled, tokenize(s));
}

#[test]
fn exhausted_session_keeps_signaling_end_of_stream() {
    let mut lx = Lexer::new("fn");
    assert_eq!(lx.next_token(), Some(Token::Function));
    assert_eq!(lx.next_token(), None);
    assert_eq!(lx.next_token(), None);
}

#[test]
fn retokenizing_the_same_text_yields_identical_sequences() {
    let s = "let add = fn(x, y) { x + y; }; add(1, 2) == 3;";
    let first = tokenize(s);
    let second = tokenize(s);
    assert_eq!(first, second);

    let mut a = Lexer::new(s);
    let mut b = Lexer::new(s);
    loop {
        let ta = a.next_token();
        let tb = b.next_token();
        assert_eq!(ta, tb);
        if ta.is_none() {
            break;
        }
    }
}

#[test]
fn lookahead_applies_only_to_assign_and_bang() {
    assert_eq!(tokenize("+="), vec![Token::Plus, Token::Assign]);
    assert_eq!(tokenize("<="), vec![Token::LessThan, Token::Assign]);
    assert_eq!(tokenize("==="), vec![Token::Eq, Token::Assign]);
}

#[test]
fn digits_end_a_letter_run() {
    assert_eq!(
        tokenize("abc123"),
        vec![Token::Identifier("abc".to_string()), Token::Int(123)]
    );
}

#[test]
fn try_from_char_classifies_punctuation_only() {
    assert_eq!(Token::try_from_char('='), Some(Token::Assign));
    assert_eq!(Token::try_from_char('+'), Some(Token::Plus));
    assert_eq!(Token::try_from_char('{'), Some(Token::LeftBrace));
    assert_eq!(Token::try_from_char('a'), None);
    assert_eq!(Token::try_from_char('7'), None);
    assert_eq!(Token::try_from_char(' '), None);
}

#[test]
fn from_string_separates_keywords_from_identifiers() {
    assert_eq!(Token::from_string("let"), Token::Let);
    assert_eq!(Token::from_string("return"), Token::Return);
    assert_eq!(
        Token::from_string("letter"),
        Token::Identifier("letter".to_string())
    );
    assert_eq!(
        Token::from_string("x"),
        Token::Identifier("x".to_string())
    );
}
