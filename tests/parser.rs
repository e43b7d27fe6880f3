use compiler::ast::{
    precedence, BinaryExpression, Identifier, InitExpression, Literal, Node, Operator, Precedence,
    VariableDeclaration,
};
use compiler::lexer::Lexer;
use compiler::parser::{Parser, SyntaxError, SyntaxErrorKind};
use compiler::token::{Token, TokenKind};

fn tokens_of(src: &str) -> Vec<Token> {
    Lexer::new(src.to_string()).tokenize().expect("source should tokenize")
}

fn parse(src: &str) -> Result<Vec<Node>, SyntaxError> {
    let mut parser = Parser::new(tokens_of(src), src.to_string());
    parser.parse().map(|p| p.program)
}

fn parse_err(src: &str) -> SyntaxError {
    parse(src).expect_err("source should not parse")
}

fn lit(raw: &str) -> Node {
    Node::Literal(Literal { raw: raw.to_string() })
}

fn ident(name: &str) -> Node {
    Node::Identifier(Identifier { name: name.to_string() })
}

fn bin(op: Operator, left: Node, right: Node) -> BinaryExpression {
    BinaryExpression { left: Box::new(left), right: Box::new(right), operator: op }
}

fn node(op: Operator, left: Node, right: Node) -> Node {
    Node::BinaryExpression(bin(op, left, right))
}

#[test]
fn multiplication_binds_tighter() {
    let expected = node(Operator::Add, lit("1"), node(Operator::Multiply, lit("2"), lit("3")));
    assert_eq!(parse("1 + 2 * 3").unwrap(), vec![expected]);
}

#[test]
fn parentheses_override_precedence() {
    let expected = node(Operator::Multiply, node(Operator::Add, lit("1"), lit("2")), lit("3"));
    assert_eq!(parse("(1 + 2) * 3").unwrap(), vec![expected]);
}

#[test]
fn let_declaration() {
    let expected = Node::VariableDeclaration(VariableDeclaration {
        id: Identifier { name: "x".to_string() },
        init: InitExpression::BinaryExpression(bin(Operator::Add, lit("1"), lit("2"))),
    });
    assert_eq!(parse("let x = 1 + 2;").unwrap(), vec![expected]);
}

#[test]
fn dangling_operator_reported_at_semicolon() {
    let e = parse_err("1 + ;");
    assert_eq!(e.kind, SyntaxErrorKind::UnexpectedEnd);
    assert_eq!(e.token.kind, TokenKind::LineBreak);
    assert_eq!((e.token.position.row, e.token.position.col), (0, 4));
    assert_eq!(e.line, "1 + ;");
    assert_eq!(e.underline, "    ^");
}

#[test]
fn unclosed_parenthesis() {
    let e = parse_err("(1 + 2");
    assert_eq!(e.kind, SyntaxErrorKind::UnclosedParen);
    assert_eq!(e.token.kind, TokenKind::EndOfInput);
    assert_eq!(e.token.position.col, 6);
}

#[test]
fn two_operands_without_operator() {
    let e = parse_err("1 2");
    assert_eq!(e.kind, SyntaxErrorKind::ExpectedOperator);
    assert_eq!(e.token.text, "2");
    assert_eq!((e.token.position.row, e.token.position.col), (0, 2));
    assert_eq!(e.underline, "  ^");
}

#[test]
fn subtraction_is_left_associative() {
    let expected = node(Operator::Subtract, node(Operator::Subtract, lit("1"), lit("2")), lit("3"));
    assert_eq!(parse("1 - 2 - 3;").unwrap(), vec![expected]);
    let expected = node(Operator::Divide, node(Operator::Multiply, lit("8"), lit("4")), lit("2"));
    assert_eq!(parse("8 * 4 / 2").unwrap(), vec![expected]);
}

#[test]
fn identifiers_and_nested_parentheses() {
    let expected = node(
        Operator::Multiply,
        ident("a"),
        node(Operator::Subtract, ident("b"), node(Operator::Add, lit("1"), ident("c"))),
    );
    assert_eq!(parse("a * (b - (1 + c));").unwrap(), vec![expected]);
}

#[test]
fn let_with_plain_values() {
    let expected = vec![
        Node::VariableDeclaration(VariableDeclaration {
            id: Identifier { name: "y".to_string() },
            init: InitExpression::Identifier(Identifier { name: "x".to_string() }),
        }),
        Node::VariableDeclaration(VariableDeclaration {
            id: Identifier { name: "z".to_string() },
            init: InitExpression::Literal(Literal { raw: "4.5".to_string() }),
        }),
    ];
    assert_eq!(parse("let y = x;\nlet z = 4.5;\n").unwrap(), expected);
}

#[test]
fn several_statements_in_order() {
    let nodes = parse("# setup\nlet a = 1;\n\na * 2;\n;; b").unwrap();
    assert_eq!(nodes.len(), 3);
    assert_eq!(nodes[1], node(Operator::Multiply, ident("a"), lit("2")));
    assert_eq!(nodes[2], ident("b"));
}

#[test]
fn empty_program() {
    assert_eq!(parse("").unwrap(), vec![]);
    assert_eq!(parse("\n;\n").unwrap(), vec![]);
}

#[test]
fn let_without_name() {
    let e = parse_err("let = 1;");
    assert_eq!(e.kind, SyntaxErrorKind::ExpectedIdentifier);
    assert_eq!(e.token.text, "=");
    assert_eq!(e.underline, "    ^   ");
}

#[test]
fn let_without_assignment() {
    let e = parse_err("let x 1;");
    assert_eq!(e.kind, SyntaxErrorKind::ExpectedAssignment);
    assert_eq!(e.token.text, "1");
    let e = parse_err("let x == 1;");
    assert_eq!(e.kind, SyntaxErrorKind::ExpectedAssignment);
    assert_eq!(e.underline, "      ^^   ");
}

#[test]
fn let_with_empty_initialiser() {
    let e = parse_err("let x =;");
    assert_eq!(e.kind, SyntaxErrorKind::UnexpectedEnd);
    assert_eq!(e.token.position.col, 7);
}

#[test]
fn reserved_statements_are_not_parsed() {
    for src in ["if x;", "while y;", "define f;", "else;"] {
        let e = parse_err(src);
        assert_eq!(e.kind, SyntaxErrorKind::UnsupportedStatement, "{src}");
        assert_eq!(e.token.kind, TokenKind::Keyword);
    }
}

#[test]
fn comparison_is_not_an_expression_operator() {
    let e = parse_err("1 == 2;");
    assert_eq!(e.kind, SyntaxErrorKind::InvalidOperator);
    assert_eq!(e.token.text, "==");
}

#[test]
fn operator_without_left_operand() {
    let e = parse_err("+ 1;");
    assert_eq!(e.kind, SyntaxErrorKind::ExpectedOperand);
    assert_eq!(e.token.position.col, 0);
}

#[test]
fn parenthesis_errors() {
    assert_eq!(parse_err("1 + 2);").kind, SyntaxErrorKind::UnmatchedCloseParen);
    assert_eq!(parse_err(")").kind, SyntaxErrorKind::UnmatchedCloseParen);
    let e = parse_err("1 (2);");
    assert_eq!(e.kind, SyntaxErrorKind::UnexpectedOpenParen);
    assert_eq!(e.token.position.col, 2);
    assert_eq!(parse_err("();").kind, SyntaxErrorKind::MissingOperand);
}

#[test]
fn foreign_token_in_expression() {
    let e = parse_err("1 , 2;");
    assert_eq!(e.kind, SyntaxErrorKind::InvalidToken);
    assert_eq!(e.token.kind, TokenKind::Comma);
    let e = parse_err("1 +\n2;");
    assert_eq!(e.kind, SyntaxErrorKind::InvalidToken);
    assert_eq!(e.token.kind, TokenKind::NewLine);
}

#[test]
fn error_quotes_its_own_line() {
    let e = parse_err("let a = 1;\nlet b = a +;\n");
    assert_eq!(e.kind, SyntaxErrorKind::UnexpectedEnd);
    assert_eq!((e.token.position.row, e.token.position.col), (1, 11));
    assert_eq!(e.line, "let b = a +;");
    assert_eq!(e.underline, "           ^");
}

#[test]
fn expression_over_a_token_span() {
    let tokens = tokens_of("2 * x + 1");
    let parser = Parser::new(tokens.clone(), "2 * x + 1".to_string());
    let n = tokens.len();
    let expected = node(Operator::Add, node(Operator::Multiply, lit("2"), ident("x")), lit("1"));
    assert_eq!(parser.handle_equation(&tokens[..n - 1], &tokens[n - 1]).unwrap(), expected);
    let e = parser.handle_equation(&tokens[..2], &tokens[2]).unwrap_err();
    assert_eq!(e.kind, SyntaxErrorKind::UnexpectedEnd);
    assert_eq!(e.token.text, "x");
}

#[test]
fn operator_precedences() {
    assert_eq!(precedence(&Operator::Add), Precedence::Low);
    assert_eq!(precedence(&Operator::Subtract), Precedence::Low);
    assert_eq!(precedence(&Operator::Multiply), Precedence::Medium);
    assert_eq!(precedence(&Operator::Divide), Precedence::Medium);
    assert_eq!(precedence(&Operator::Exp), Precedence::High);
}

#[test]
fn binary_expression_written_out() {
    let e = bin(Operator::Add, lit("1"), node(Operator::Multiply, ident("x"), lit("3")));
    assert_eq!(e.to_string(), "(1 + (x * 3))");
    assert_eq!(Operator::SmallerEquals.symbol(), "<=");
    assert_eq!(Operator::Exp.symbol(), "^");
}

#[test]
fn error_kinds_have_messages() {
    assert_eq!(SyntaxErrorKind::UnexpectedEnd.message(), "unexpected end of expression");
    assert_eq!(compiler::lexer::LexErrorKind::InvalidEscape.message(), "invalid escape sequence in string literal");
}

fn collect_leaves(n: &Node, out: &mut Vec<String>) {
    match n {
        Node::BinaryExpression(b) => {
            assert_ne!(b.operator, Operator::OpenParen);
            collect_leaves(&b.left, out);
            collect_leaves(&b.right, out);
        }
        Node::Literal(l) => out.push(l.raw.clone()),
        Node::Identifier(i) => out.push(i.name.clone()),
        other => panic!("unexpected node {other:?}"),
    }
}

#[test]
fn parsed_tree_keeps_operands_in_order() {
    let src = "a - (b * (c + 2)) / d * 3 - 7";
    let nodes = parse(src).unwrap();
    assert_eq!(nodes.len(), 1);
    let mut leaves = Vec::new();
    collect_leaves(&nodes[0], &mut leaves);
    assert_eq!(leaves, vec!["a", "b", "c", "2", "d", "3", "7"]);
    match &nodes[0] {
        Node::BinaryExpression(b) => assert_eq!(b.to_string(), "((a - (((b * (c + 2)) / d) * 3)) - 7)"),
        other => panic!("unexpected node {other:?}"),
    }
}
