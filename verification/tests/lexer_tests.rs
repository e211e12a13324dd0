use kaleidoscope::lexer::{is_lexable, LexError, Lexer, Token};

fn tokens_of(input: &str) -> Vec<Token> {
    let mut lexer = Lexer::new(input);
    let mut tokens = Vec::new();
    while let Some(token) = lexer.next() {
        tokens.push(token);
    }
    tokens
}

fn ident(name: &str) -> Token {
    Token::Ident(name.to_string())
}

fn number(text: &str) -> Token {
    Token::Number(text.to_string())
}

#[test]
fn lex_error_new_has_index_zero() {
    let e = LexError::new("bad");
    assert_eq!(e.error, "bad");
    assert_eq!(e.index, 0);
}

#[test]
fn lex_error_with_index_keeps_index() {
    let e = LexError::with_index("bad", 7);
    assert_eq!(e.error, "bad");
    assert_eq!(e.index, 7);
}

#[test]
fn empty_input_is_eof() {
    let mut lexer = Lexer::new("");
    assert!(matches!(lexer.lex(), Ok(Token::EOF)));
    assert!(matches!(lexer.lex(), Ok(Token::EOF)));
    assert_eq!(tokens_of(""), vec![]);
}

#[test]
fn blank_input_is_eof() {
    let mut lexer = Lexer::new("  \t\n  ");
    assert!(matches!(lexer.lex(), Ok(Token::EOF)));
    assert_eq!(tokens_of(" \u{a0}\u{3000} "), vec![]);
}

#[test]
fn punctuation_tokens() {
    assert_eq!(tokens_of("(),"), vec![Token::LParen, Token::RParen, Token::Comma]);
}

#[test]
fn every_keyword_is_recognised() {
    assert_eq!(
        tokens_of("def extern if then else for in unary binary var"),
        vec![
            Token::Def,
            Token::Extern,
            Token::If,
            Token::Then,
            Token::Else,
            Token::For,
            Token::In,
            Token::Unary,
            Token::Binary,
            Token::Var,
        ]
    );
}

#[test]
fn words_near_keywords_are_identifiers() {
    assert_eq!(
        tokens_of("define _if If in2 x_1 Var"),
        vec![ident("define"), ident("_if"), ident("If"), ident("in2"), ident("x_1"), ident("Var")]
    );
}

#[test]
fn identifier_takes_unicode_letters_after_its_start() {
    assert_eq!(tokens_of("a\u{e9}b"), vec![ident("a\u{e9}b")]);
    assert_eq!(tokens_of("\u{e9}a"), vec![Token::Op('\u{e9}'), ident("a")]);
}

#[test]
fn token_at_end_of_input_is_kept() {
    assert_eq!(tokens_of("foo"), vec![ident("foo")]);
    assert_eq!(tokens_of("42"), vec![number("42")]);
    assert_eq!(tokens_of("a b"), vec![ident("a"), ident("b")]);
}

#[test]
fn number_literals_keep_their_text() {
    assert_eq!(
        tokens_of("1 2.5 .5 4. 1e3 007"),
        vec![number("1"), number("2.5"), number(".5"), number("4."), number("1e3"), number("007")]
    );
}

#[test]
fn number_scan_takes_hex_digits_and_dots() {
    let mut lexer = Lexer::new("1.2.3");
    assert!(!lexer.can_lex());
    assert_eq!(lexer.next(), None);
    assert!(!lexer.can_lex());
    let mut lexer = Lexer::new("12ab x");
    assert!(!lexer.can_lex());
    let mut lexer = Lexer::new("12g");
    assert!(lexer.can_lex());
    assert_eq!(lexer.next(), Some(number("12")));
    assert_eq!(lexer.next(), Some(ident("g")));
    assert_eq!(lexer.next(), None);
}

#[test]
fn malformed_number_stops_the_stream() {
    assert_eq!(tokens_of("a + 1.2.3 b"), vec![ident("a"), Token::Op('+')]);
    assert!(!is_lexable("a + 1.2.3 b"));
    assert!(!is_lexable("."));
    assert!(!is_lexable("1e"));
    assert!(!is_lexable("x 1a"));
    assert!(is_lexable("a + 1.25 b"));
    assert!(is_lexable(""));
    assert!(is_lexable("1e5 .5 5. 0.5E10"));
}

#[test]
fn operators_are_single_characters() {
    assert_eq!(
        tokens_of("a<=b"),
        vec![ident("a"), Token::Op('<'), Token::Op('='), ident("b")]
    );
    assert_eq!(
        tokens_of("!|&^:"),
        vec![Token::Op('!'), Token::Op('|'), Token::Op('&'), Token::Op('^'), Token::Op(':')]
    );
}

#[test]
fn comment_runs_through_the_line_feed() {
    assert_eq!(
        tokens_of("a # rest of line\nb"),
        vec![ident("a"), Token::Comment, ident("b")]
    );
}

#[test]
fn comment_at_end_of_input_ends() {
    assert_eq!(tokens_of("a # no line feed"), vec![ident("a"), Token::Comment]);
    assert_eq!(tokens_of("#"), vec![Token::Comment]);
}

#[test]
fn lex_returns_tokens_then_eof() {
    let mut lexer = Lexer::new("def f(x) x+1");
    let mut seen = Vec::new();
    loop {
        assert!(lexer.can_lex());
        match lexer.lex() {
            Ok(Token::EOF) => break,
            Ok(token) => seen.push(token),
            Err(_) => panic!("the lexer never fails"),
        }
    }
    assert_eq!(
        seen,
        vec![
            Token::Def,
            ident("f"),
            Token::LParen,
            ident("x"),
            Token::RParen,
            ident("x"),
            Token::Op('+'),
            number("1"),
        ]
    );
    assert!(matches!(lexer.lex(), Ok(Token::EOF)));
}

#[test]
fn token_texts_joined_by_blanks_lex_to_the_same_tokens() {
    let input = "def  foo ( a ,b )\n a*b+ 1.5 # tail\n";
    let joined = "def foo ( a , b ) a * b + 1.5";
    let mut expected = tokens_of(input);
    expected.retain(|t| *t != Token::Comment);
    assert_eq!(tokens_of(joined), expected);
}

#[test]
fn token_texts_joined_without_blanks_keep_boundaries_unless_words_meet() {
    assert_eq!(tokens_of("( a + 1 ) * b"), tokens_of("(a+1)*b"));
    assert_eq!(tokens_of("1 x"), tokens_of("1x"));
    assert_ne!(tokens_of("a b"), tokens_of("ab"));
    assert_ne!(tokens_of("1 2"), tokens_of("12"));
}

#[test]
fn ascii_blanks_separate_tokens() {
    for blank in [' ', '\t', '\n', '\u{b}', '\u{c}', '\r'] {
        let input = format!("a{}b", blank);
        assert_eq!(tokens_of(&input), vec![ident("a"), ident("b")]);
    }
    for other in ['\u{0}', '\u{8}', '\u{e}', '\u{1f}', '\u{7f}', '!', '~'] {
        let input = format!("a{}b", other);
        assert_eq!(tokens_of(&input), vec![ident("a"), Token::Op(other), ident("b")]);
    }
}

#[test]
fn ascii_letters_and_digits_continue_a_word() {
    assert_eq!(tokens_of("aZ09_"), vec![ident("aZ09_")]);
    for other in ['@', '[', '`', '{', '/', ':'] {
        let input = format!("a{}", other);
        assert_eq!(tokens_of(&input), vec![ident("a"), Token::Op(other)]);
    }
}

#[test]
fn tokens_joined_by_single_spaces_lex_to_the_same_tokens() {
    let inputs = [
        "a b",
        "1 2",
        "def f(a,b) a+b*1.5",
        "x#c\ny",
        "if a then(b)else c",
        "a\u{e9} \u{e9}a",
    ];
    for input in inputs {
        let mut expected = tokens_of(input);
        expected.retain(|t| *t != Token::Comment);
        let mut spans: Vec<String> = Vec::new();
        for token in &expected {
            spans.push(match token {
                Token::Ident(name) => name.clone(),
                Token::Number(text) => text.clone(),
                Token::Op(c) => c.to_string(),
                Token::LParen => "(".to_string(),
                Token::RParen => ")".to_string(),
                Token::Comma => ",".to_string(),
                Token::Def => "def".to_string(),
                Token::If => "if".to_string(),
                Token::Then => "then".to_string(),
                Token::Else => "else".to_string(),
                other => panic!("no span for {:?}", other),
            });
        }
        assert_eq!(tokens_of(&spans.join(" ")), expected, "{}", input);
    }
}
