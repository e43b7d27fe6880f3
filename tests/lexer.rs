use compiler::lexer::{LexErrorKind, Lexer};
use compiler::token::{Position, Token, TokenKind};

fn lex(src: &str) -> Vec<Token> {
    Lexer::new(src.to_string()).tokenize().expect("source should tokenize")
}

fn kinds(tokens: &[Token]) -> Vec<TokenKind> {
    tokens.iter().map(|t| t.kind).collect()
}

fn texts(tokens: &[Token]) -> Vec<String> {
    tokens.iter().map(|t| t.text.clone()).collect()
}

fn lex_error(src: &str) -> (LexErrorKind, usize, usize) {
    let e = Lexer::new(src.to_string()).tokenize().expect_err("source should not tokenize");
    (e.kind, e.position.row, e.position.col)
}

#[test]
fn empty_source_gives_only_end_of_input() {
    let tokens = lex("");
    assert_eq!(tokens.len(), 1);
    assert_eq!(tokens[0].kind, TokenKind::EndOfInput);
    assert_eq!(tokens[0].text, "");
    assert_eq!(tokens[0].length, 0);
    assert_eq!(tokens[0].position, Position { row: 0, col: 0 });
}

#[test]
fn let_statement_tokens() {
    let tokens = lex("let x = 1 + 2;");
    assert_eq!(
        kinds(&tokens),
        vec![
            TokenKind::Keyword,
            TokenKind::Symbol,
            TokenKind::Operator,
            TokenKind::Number,
            TokenKind::Operator,
            TokenKind::Number,
            TokenKind::LineBreak,
            TokenKind::EndOfInput
        ]
    );
    assert_eq!(texts(&tokens), vec!["let", "x", "=", "1", "+", "2", ";", ""]);
    let cols: Vec<usize> = tokens.iter().map(|t| t.position.col).collect();
    assert_eq!(cols, vec![0, 4, 6, 8, 10, 12, 13, 14]);
    assert!(tokens.iter().all(|t| t.position.row == 0));
}

#[test]
fn last_token_is_end_of_input() {
    for src in ["", "x", "a b c", "let y = (1 + 2) * 3;\n# done\n", "\n\n\n", "  \t  ", "{...}", "@@"] {
        let tokens = lex(src);
        assert_eq!(tokens.last().unwrap().kind, TokenKind::EndOfInput, "{src:?}");
        assert_eq!(tokens.iter().filter(|t| t.kind == TokenKind::EndOfInput).count(), 1);
    }
}

#[test]
fn rows_grow_and_columns_restart_after_newline() {
    let tokens = lex("a b\n  c\nd");
    assert_eq!(texts(&tokens), vec!["a", "b", "\n", "c", "\n", "d", ""]);
    let positions: Vec<(usize, usize)> = tokens.iter().map(|t| (t.position.row, t.position.col)).collect();
    assert_eq!(positions, vec![(0, 0), (0, 2), (0, 3), (1, 2), (1, 3), (2, 0), (2, 1)]);
    for pair in tokens.windows(2) {
        assert!(pair[0].position.row <= pair[1].position.row);
    }
}

#[test]
fn token_texts_put_back_the_source() {
    let src = "x=1;\n#note\ny*(2-z)";
    let tokens = lex(src);
    let rebuilt: String = tokens.iter().map(|t| t.text.as_str()).collect();
    assert_eq!(rebuilt, src);
    let again = lex(&rebuilt);
    assert_eq!(again, tokens);
}

#[test]
fn keywords_word_operators_and_symbols() {
    for w in ["let", "if", "else", "while", "define"] {
        let tokens = lex(w);
        assert_eq!(tokens.len(), 2);
        assert_eq!(tokens[0].kind, TokenKind::Keyword, "{w}");
        assert_eq!(tokens[0].text, w);
    }
    for w in ["or", "and"] {
        assert_eq!(lex(w)[0].kind, TokenKind::Operator, "{w}");
    }
    for w in ["lets", "If", "x", "_tmp1", "whilex", "defined", "el"] {
        let tokens = lex(w);
        assert_eq!(tokens.len(), 2);
        assert_eq!(tokens[0].kind, TokenKind::Symbol, "{w}");
        assert_eq!(tokens[0].text, w);
    }
}

#[test]
fn compound_operators() {
    let tokens = lex("a += 1 ++ -- == <= >= < > = / -= *= /= - *");
    let ops: Vec<String> = tokens.iter().filter(|t| t.kind == TokenKind::Operator).map(|t| t.text.clone()).collect();
    assert_eq!(ops, vec!["+=", "++", "--", "==", "<=", ">=", "<", ">", "=", "/", "-=", "*=", "/=", "-", "*"]);
    let plus = lex("+")[0].clone();
    assert_eq!((plus.text.as_str(), plus.length), ("+", 1));
    assert_eq!(texts(&lex("**")), vec!["*", "*", ""]);
}

#[test]
fn punctuation_kinds() {
    let tokens = lex("(){};:,");
    assert_eq!(
        kinds(&tokens),
        vec![
            TokenKind::OpenParen,
            TokenKind::CloseParen,
            TokenKind::OpenBrace,
            TokenKind::CloseBrace,
            TokenKind::LineBreak,
            TokenKind::Colon,
            TokenKind::Comma,
            TokenKind::EndOfInput
        ]
    );
    assert!(tokens[..7].iter().all(|t| t.length == 1));
}

#[test]
fn numbers_with_point_and_exponent() {
    let tokens = lex("3.14 1e5 1.2E3 42");
    assert_eq!(texts(&tokens), vec!["3.14", "1e5", "1.2E3", "42", ""]);
    assert!(tokens[..4].iter().all(|t| t.kind == TokenKind::Number));
    assert_eq!(tokens[2].length, 5);
}

#[test]
fn number_with_two_points_is_rejected() {
    assert_eq!(lex_error("x = 1.2.3"), (LexErrorKind::MultipleDecimalPoints, 0, 7));
}

#[test]
fn number_with_two_exponents_is_rejected() {
    assert_eq!(lex_error("\n1e2e3"), (LexErrorKind::MultipleExponents, 1, 3));
}

#[test]
fn string_literal_unescapes() {
    let tokens = lex("s = \"a\\\"b\\\\c\";");
    assert_eq!(tokens[2].kind, TokenKind::StringLiteral);
    assert_eq!(tokens[2].text, "a\"b\\c");
    assert_eq!(tokens[2].length, 9);
    assert_eq!(tokens[2].position, Position { row: 0, col: 4 });
    assert_eq!(tokens[3].kind, TokenKind::LineBreak);
    assert_eq!(tokens[3].position.col, 13);
}

#[test]
fn unterminated_string_is_rejected() {
    assert_eq!(lex_error("x \"abc"), (LexErrorKind::UnterminatedString, 0, 2));
    assert_eq!(lex_error("\"ab\\"), (LexErrorKind::UnterminatedString, 0, 0));
}

#[test]
fn invalid_escape_is_rejected() {
    assert_eq!(lex_error("\"a\\nb\""), (LexErrorKind::InvalidEscape, 0, 3));
}

#[test]
fn comment_runs_to_end_of_line() {
    let tokens = lex("# hi there\nx # tail");
    assert_eq!(kinds(&tokens), vec![TokenKind::Comment, TokenKind::NewLine, TokenKind::Symbol, TokenKind::Comment, TokenKind::EndOfInput]);
    assert_eq!(tokens[0].text, "# hi there");
    assert_eq!(tokens[3].text, "# tail");
    assert_eq!(tokens[3].position, Position { row: 1, col: 2 });
}

#[test]
fn ellipsis_after_open_brace() {
    let tokens = lex("{...}");
    assert_eq!(kinds(&tokens), vec![TokenKind::OpenBrace, TokenKind::Ellipsis, TokenKind::CloseBrace, TokenKind::EndOfInput]);
    assert_eq!(tokens[1].text, "...");
    assert_eq!(tokens[1].length, 3);
}

#[test]
fn misplaced_dots_are_rejected() {
    assert_eq!(lex_error("a ...").0, LexErrorKind::MisplacedDot);
    assert_eq!(lex_error(".5"), (LexErrorKind::MisplacedDot, 0, 0));
    assert_eq!(lex_error("{..}"), (LexErrorKind::IncompleteEllipsis, 0, 1));
}

#[test]
fn unknown_character_is_invalid_token() {
    let tokens = lex("a @ b");
    assert_eq!(tokens[1].kind, TokenKind::Invalid);
    assert_eq!(tokens[1].text, "@");
    assert_eq!(tokens[1].length, 1);
}

#[test]
fn non_ascii_letter_starts_a_symbol() {
    let tokens = lex("é1 x");
    assert_eq!(texts(&tokens), vec!["é1", "x", ""]);
    assert_eq!(tokens[0].kind, TokenKind::Symbol);
    assert_eq!(tokens[1].position.col, 3);
}

#[test]
fn unicode_whitespace_is_skipped() {
    let tokens = lex("a\u{A0}\u{2003}b\tc\r\n");
    assert_eq!(texts(&tokens), vec!["a", "b", "c", "\n", ""]);
    assert_eq!(tokens[1].position.col, 3);
}

#[test]
fn next_keeps_returning_end_of_input() {
    let mut lexer = Lexer::new("x".to_string());
    assert_eq!(lexer.next().unwrap().kind, TokenKind::Symbol);
    assert_eq!(lexer.next().unwrap().kind, TokenKind::EndOfInput);
    let again = lexer.next().unwrap();
    assert_eq!(again.kind, TokenKind::EndOfInput);
    assert_eq!(again.position, Position { row: 0, col: 1 });
}

#[test]
fn create_token_takes_the_source_span() {
    let lexer = Lexer::new("abcd".to_string());
    let t = lexer.create_token(TokenKind::Symbol, 1, 2);
    assert_eq!(t.text, "bc");
    assert_eq!(t.length, 2);
    assert_eq!(t.position, Position { row: 0, col: 1 });
}

#[test]
fn symbol_start_characters() {
    let lexer = Lexer::new(String::new());
    assert!(lexer.is_symbol_start('a'));
    assert!(lexer.is_symbol_start('Z'));
    assert!(lexer.is_symbol_start('_'));
    assert!(lexer.is_symbol_start('ß'));
    assert!(!lexer.is_symbol_start('1'));
    assert!(!lexer.is_symbol_start(' '));
    assert!(!lexer.is_symbol_start('+'));
}
