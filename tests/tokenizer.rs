use my_lang::tokenizer::{LexError, Position, Token, TokenType, TokenizeState, Tokenizer};

fn scan(src: &str) -> Result<Vec<Token>, LexError> {
    Tokenizer::new(src.chars().collect()).tokenize()
}

fn kinds_and_lexemes(tokens: &[Token]) -> Vec<(TokenType, String)> {
    tokens.iter().map(|t| (t.get_t_type(), t.get_inner())).collect()
}

#[test]
fn tokenizes_expression_with_semicolon() {
    let tokens = scan("12+3*4;").unwrap();
    assert_eq!(
        kinds_and_lexemes(&tokens),
        vec![
            (TokenType::Number, "12".to_string()),
            (TokenType::Plus, "+".to_string()),
            (TokenType::Number, "3".to_string()),
            (TokenType::Asterisk, "*".to_string()),
            (TokenType::Number, "4".to_string()),
            (TokenType::Semicolon, ";".to_string()),
            (TokenType::EOF, "".to_string()),
        ]
    );
}

#[test]
fn tokens_carry_line_and_column() {
    let tokens = scan("12+3*4;").unwrap();
    let columns: Vec<u32> = tokens.iter().map(|t| t.get_x()).collect();
    assert_eq!(columns, vec![1, 3, 4, 5, 6, 7, 8]);
    assert!(tokens.iter().all(|t| t.get_line() == 1));
}

#[test]
fn positions_follow_newlines() {
    let tokens = scan("1;\n  23;").unwrap();
    assert_eq!(tokens[2].get_t_type(), TokenType::NewLine);
    assert_eq!((tokens[2].get_line(), tokens[2].get_x()), (1, 3));
    assert_eq!(tokens[3].get_inner(), "23");
    assert_eq!((tokens[3].get_line(), tokens[3].get_x()), (2, 3));
    let eof = tokens.last().unwrap();
    assert_eq!(eof.get_t_type(), TokenType::EOF);
    assert_eq!((eof.get_line(), eof.get_x()), (2, 6));
}

#[test]
fn empty_input_is_only_eof() {
    let tokens = scan("").unwrap();
    assert_eq!(kinds_and_lexemes(&tokens), vec![(TokenType::EOF, "".to_string())]);
    assert_eq!((tokens[0].get_line(), tokens[0].get_x()), (1, 1));
}

#[test]
fn long_number_keeps_all_digits() {
    let tokens = scan("9876543210;").unwrap();
    assert_eq!(tokens[0].get_inner(), "9876543210");
    assert_eq!(tokens.len(), 3);
}

#[test]
fn other_characters_are_skipped() {
    let tokens = scan(" 1 \t+ x2 ;").unwrap();
    assert_eq!(
        kinds_and_lexemes(&tokens),
        vec![
            (TokenType::Number, "1".to_string()),
            (TokenType::Plus, "+".to_string()),
            (TokenType::Number, "2".to_string()),
            (TokenType::Semicolon, ";".to_string()),
            (TokenType::EOF, "".to_string()),
        ]
    );
}

#[test]
fn all_operators_and_parentheses() {
    let tokens = scan("(1-2)/3;").unwrap();
    let kinds: Vec<TokenType> = tokens.iter().map(|t| t.get_t_type()).collect();
    assert_eq!(
        kinds,
        vec![
            TokenType::LeftParenthesis,
            TokenType::Number,
            TokenType::Minus,
            TokenType::Number,
            TokenType::RightParenthesis,
            TokenType::Slash,
            TokenType::Number,
            TokenType::Semicolon,
            TokenType::EOF,
        ]
    );
}

#[test]
fn line_comment_is_dropped() {
    let tokens = scan("1; // note\n2;").unwrap();
    assert_eq!(
        kinds_and_lexemes(&tokens),
        vec![
            (TokenType::Number, "1".to_string()),
            (TokenType::Semicolon, ";".to_string()),
            (TokenType::NewLine, "\n".to_string()),
            (TokenType::Number, "2".to_string()),
            (TokenType::Semicolon, ";".to_string()),
            (TokenType::EOF, "".to_string()),
        ]
    );
    assert_eq!((tokens[3].get_line(), tokens[3].get_x()), (2, 1));
}

#[test]
fn operator_open_at_end_is_error() {
    let err = scan("1+").unwrap_err();
    assert_eq!(err, LexError { state: TokenizeState::Plus, pos: Position::new(1, 2) });
}

#[test]
fn parenthesis_open_at_end_is_error() {
    let err = scan("(1)").unwrap_err();
    assert_eq!(err.state, TokenizeState::RightParenthesis);
    assert_eq!(err.pos, Position::new(1, 3));
}

#[test]
fn slash_open_at_end_is_error() {
    let err = scan("4/").unwrap_err();
    assert_eq!(err.state, TokenizeState::Slash);
    assert_eq!(err.pos, Position::new(1, 2));
}

#[test]
fn comment_open_at_end_is_error() {
    let err = scan("1;\n// no newline").unwrap_err();
    assert_eq!(err, LexError { state: TokenizeState::Slash, pos: Position::new(2, 1) });
}

#[test]
fn trailing_newline_closes_input() {
    let tokens = scan("1+2\n").unwrap();
    assert_eq!(tokens[3].get_t_type(), TokenType::NewLine);
    assert_eq!(tokens[4].get_t_type(), TokenType::EOF);
    assert_eq!((tokens[4].get_line(), tokens[4].get_x()), (2, 1));
}

#[test]
fn token_new_and_getters() {
    let t = Token::new(TokenType::Minus, Position::new(3, 7), "-".to_string());
    assert_eq!(t.get_t_type(), TokenType::Minus);
    assert_eq!(t.get_line(), 3);
    assert_eq!(t.get_x(), 7);
    assert_eq!(t.get_inner(), "-");
}
