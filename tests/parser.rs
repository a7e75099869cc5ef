use my_lang::ast::{Arithmetic, Node, Number, Operator, Program, Statement};
use my_lang::parser::{ParseError, ParseErrorKind, Parser};
use my_lang::tokenizer::{Position, Token, TokenType, Tokenizer};

fn tokens_of(src: &str) -> Vec<Token> {
    Tokenizer::new(src.chars().collect()).tokenize().unwrap()
}

fn parse_src(src: &str) -> Result<Program, Vec<ParseError>> {
    Parser::new(tokens_of(src)).parse()
}

fn num(digits: &str) -> Node {
    Node::Number(Number::new(digits.to_string()))
}

fn sub(a: Arithmetic) -> Node {
    Node::Arithmetic(Box::new(a))
}

fn bin(l: Node, op: Operator, r: Node) -> Arithmetic {
    Arithmetic::MultiTerm(l, op, r)
}

fn assert_single_tree(src: &str, expected: Arithmetic) {
    let program = parse_src(src).unwrap();
    assert_eq!(program.statements(), &vec![Statement::Arithmetic(expected)]);
}

#[test]
fn multiplication_binds_tighter_on_the_right() {
    assert_single_tree(
        "2+3*4;",
        bin(num("2"), Operator::Plus, sub(bin(num("3"), Operator::Mul, num("4")))),
    );
}

#[test]
fn multiplication_binds_tighter_on_the_left() {
    assert_single_tree(
        "2*3+4;",
        bin(sub(bin(num("2"), Operator::Mul, num("3"))), Operator::Plus, num("4")),
    );
}

#[test]
fn parenthesis_becomes_one_operand() {
    assert_single_tree(
        "(1+2)*3;",
        bin(sub(bin(num("1"), Operator::Plus, num("2"))), Operator::Mul, num("3")),
    );
}

#[test]
fn subtraction_is_left_associative() {
    assert_single_tree(
        "8-3-2;",
        bin(sub(bin(num("8"), Operator::Minus, num("3"))), Operator::Minus, num("2")),
    );
}

#[test]
fn division_is_left_associative() {
    assert_single_tree(
        "8/4/2;",
        bin(sub(bin(num("8"), Operator::Div, num("4"))), Operator::Div, num("2")),
    );
}

#[test]
fn products_under_a_sum_stay_left_associative() {
    assert_single_tree(
        "1+2*3/4;",
        bin(
            num("1"),
            Operator::Plus,
            sub(bin(sub(bin(num("2"), Operator::Mul, num("3"))), Operator::Div, num("4"))),
        ),
    );
}

#[test]
fn single_number_is_a_term() {
    assert_single_tree("42;", Arithmetic::Term(num("42")));
}

#[test]
fn nested_parentheses() {
    assert_single_tree("((5));", Arithmetic::Term(sub(Arithmetic::Term(sub(Arithmetic::Term(num("5")))))));
}

#[test]
fn newlines_are_layout() {
    assert_single_tree("1 +\n 2;\n", bin(num("1"), Operator::Plus, num("2")));
}

#[test]
fn several_statements_in_order() {
    let program = parse_src("1;2+3;").unwrap();
    assert_eq!(
        program.statements(),
        &vec![
            Statement::Arithmetic(Arithmetic::Term(num("1"))),
            Statement::Arithmetic(bin(num("2"), Operator::Plus, num("3"))),
        ]
    );
}

#[test]
fn empty_input_is_empty_program() {
    let program = parse_src("").unwrap();
    assert!(program.statements().is_empty());
}

#[test]
fn missing_close_paren_is_one_error_at_terminator() {
    let errors = parse_src("(1+2;").unwrap_err();
    assert_eq!(errors.len(), 1);
    assert_eq!(errors[0].kind, ParseErrorKind::UnmatchedOpenParen);
    assert_eq!(errors[0].token_type, TokenType::Semicolon);
    assert_eq!(errors[0].lexeme, ";");
    assert_eq!(errors[0].pos, Position::new(1, 5));
}

#[test]
fn malformed_statement_is_skipped() {
    let (program, errors) = Parser::new(tokens_of("1+;2+3;")).parse_all();
    assert_eq!(errors.len(), 1);
    assert_eq!(errors[0].kind, ParseErrorKind::MissingOperand);
    assert_eq!(errors[0].pos, Position::new(1, 3));
    assert_eq!(
        program.statements(),
        &vec![Statement::Arithmetic(bin(num("2"), Operator::Plus, num("3")))]
    );
    assert!(parse_src("1+;2+3;").is_err());
}

#[test]
fn every_bad_statement_is_reported() {
    let errors = parse_src("1 2;3;)4;*5;-6;7").unwrap_err();
    let kinds: Vec<ParseErrorKind> = errors.iter().map(|e| e.kind).collect();
    assert_eq!(
        kinds,
        vec![
            ParseErrorKind::MissingTerminator,
            ParseErrorKind::MissingOperand,
            ParseErrorKind::UnexpectedToken,
            ParseErrorKind::UnexpectedToken,
            ParseErrorKind::MissingTerminator,
        ]
    );
    assert_eq!(errors[0].lexeme, "2");
    assert_eq!(errors[4].token_type, TokenType::EOF);
}

#[test]
fn unmatched_close_paren() {
    let (program, errors) = Parser::new(tokens_of("1);2;")).parse_all();
    assert_eq!(errors.len(), 1);
    assert_eq!(errors[0].kind, ParseErrorKind::UnmatchedCloseParen);
    assert_eq!(errors[0].pos, Position::new(1, 2));
    assert_eq!(program.statements(), &vec![Statement::Arithmetic(Arithmetic::Term(num("2")))]);
}

#[test]
fn empty_statement_misses_operand() {
    let errors = parse_src(";").unwrap_err();
    assert_eq!(errors.len(), 1);
    assert_eq!(errors[0].kind, ParseErrorKind::MissingOperand);
}

#[test]
fn empty_parentheses_miss_operand() {
    let errors = parse_src("();").unwrap_err();
    assert_eq!(errors.len(), 1);
    assert_eq!(errors[0].kind, ParseErrorKind::MissingOperand);
    assert_eq!(errors[0].token_type, TokenType::RightParenthesis);
}

#[test]
fn insert_top_makes_new_root() {
    let tree = bin(num("1"), Operator::Mul, num("2"));
    let r = tree.insert_top(Operator::Minus, num("3"));
    assert_eq!(r, bin(sub(bin(num("1"), Operator::Mul, num("2"))), Operator::Minus, num("3")));
    let t = Arithmetic::Term(num("7")).insert_top(Operator::Plus, num("1"));
    assert_eq!(t, bin(num("7"), Operator::Plus, num("1")));
}

#[test]
fn insert_right_regrafts_right_operand() {
    let tree = bin(num("1"), Operator::Plus, num("2"));
    let r = tree.insert_right(Operator::Mul, num("3"));
    assert_eq!(r, bin(num("1"), Operator::Plus, sub(bin(num("2"), Operator::Mul, num("3")))));
    let t = Arithmetic::Term(num("7")).insert_right(Operator::Div, num("1"));
    assert_eq!(t, bin(num("7"), Operator::Div, num("1")));
    let m = bin(num("2"), Operator::Mul, num("3")).insert_right(Operator::Div, num("4"));
    assert_eq!(m, bin(sub(bin(num("2"), Operator::Mul, num("3"))), Operator::Div, num("4")));
}

#[test]
fn op_type_of_tree() {
    assert_eq!(Arithmetic::Term(num("1")).get_op_type(), None);
    assert_eq!(bin(num("1"), Operator::Div, num("2")).get_op_type(), Some(Operator::Div));
}

#[test]
fn program_collects_statements() {
    let mut program = Program::new();
    assert!(program.statements().is_empty());
    program.push(Statement::Arithmetic(Arithmetic::Term(num("1"))));
    program.push(Statement::Arithmetic(Arithmetic::Term(num("2"))));
    assert_eq!(program.statements().len(), 2);
    assert_eq!(program.statements()[1], Statement::Arithmetic(Arithmetic::Term(num("2"))));
}

#[test]
fn parser_accepts_hand_built_tokens() {
    let tokens = vec![
        Token::new(TokenType::Number, Position::new(1, 1), "6".to_string()),
        Token::new(TokenType::Slash, Position::new(1, 2), "/".to_string()),
        Token::new(TokenType::Number, Position::new(1, 3), "3".to_string()),
        Token::new(TokenType::Semicolon, Position::new(1, 4), ";".to_string()),
        Token::new(TokenType::EOF, Position::new(1, 5), String::new()),
    ];
    let program = Parser::new(tokens).parse().unwrap();
    assert_eq!(program.statements(), &vec![Statement::Arithmetic(bin(num("6"), Operator::Div, num("3")))]);
}

#[test]
fn diagnostics_have_messages() {
    assert_eq!(ParseErrorKind::UnmatchedOpenParen.message(), "a parenthesis is not closed");
    assert_eq!(ParseErrorKind::MissingTerminator.message(), "the statement does not end with `;`");
    let errors = parse_src("4 5;").unwrap_err();
    assert_eq!(errors[0].kind.message(), "the statement does not end with `;`");
}
