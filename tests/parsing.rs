use lox::astprinter::AstPrinter;
use lox::expr::Expr;
use lox::parser::{ParseError, Parser};
use lox::scanner::Scanner;
use lox::token::{Literal, Token, TokenType};

fn parse(source: &str) -> Result<Box<Expr>, ParseError> {
    let tokens = Scanner::new(String::from(source)).scan_tokens().unwrap();
    Parser::new(tokens).parse()
}

fn render(source: &str) -> String {
    AstPrinter::new().print(*parse(source).unwrap())
}

#[test]
fn multiplication_binds_tighter() {
    assert_eq!(render("1 + 2 * 3"), "(+ 1 (* 2 3))");
}

#[test]
fn subtraction_is_left_associative() {
    assert_eq!(render("1 - 2 - 3"), "(- (- 1 2) 3)");
}

#[test]
fn missing_close_paren_is_unbalanced() {
    match parse("(1 + 2") {
        Err(ParseError::UnbalancedParens(token, message)) => {
            assert_eq!(token.token_type(), TokenType::Eof);
            assert_eq!(message, "Expect ')' after expression.");
        }
        other => panic!("unexpected {:?}", other),
    }
}

#[test]
fn wrong_token_instead_of_close_paren() {
    match parse("(1 2)") {
        Err(ParseError::UnbalancedParens(token, _)) => {
            assert_eq!(token.token_type(), TokenType::Number);
            assert_eq!(token.lexeme(), "2");
        }
        other => panic!("unexpected {:?}", other),
    }
}

#[test]
fn lone_star_is_unknown_primary() {
    match parse("*") {
        Err(ParseError::UnknownPrimary(token, message)) => {
            assert_eq!(token.token_type(), TokenType::Star);
            assert_eq!(token.lexeme(), "*");
            assert_eq!(message, "Expected expression");
        }
        other => panic!("unexpected {:?}", other),
    }
}

#[test]
fn empty_input_is_unknown_primary_at_end() {
    match parse("") {
        Err(ParseError::UnknownPrimary(token, _)) => {
            assert_eq!(token.token_type(), TokenType::Eof);
        }
        other => panic!("unexpected {:?}", other),
    }
}

#[test]
fn grouping_and_unary_render() {
    assert_eq!(render("!(-1 == 2)"), "(! (group (== (- 1) 2)))");
}

#[test]
fn stacked_prefixes() {
    assert_eq!(render("--1"), "(- (- 1))");
    assert_eq!(render("!!true"), "(! (! true))");
}

#[test]
fn precedence_ladder() {
    assert_eq!(render("1 == 2 < 3 + 4 / 5"), "(== 1 (< 2 (+ 3 (/ 4 5))))");
    assert_eq!(render("1 >= 2 != 3 <= 4"), "(!= (>= 1 2) (<= 3 4))");
    assert_eq!(render("(1 + 2) * 3"), "(* (group (+ 1 2)) 3)");
}

#[test]
fn literals_render_canonically() {
    assert_eq!(render("nil"), "nil");
    assert_eq!(render("true"), "true");
    assert_eq!(render("false"), "false");
    assert_eq!(render("\"a b\""), "a b");
    assert_eq!(render("2.50"), "2.5");
    assert_eq!(render("10"), "10");
}

#[test]
fn parsing_stops_before_trailing_tokens() {
    assert_eq!(render("1 2"), "1");
    assert_eq!(render("1 + 2; 3"), "(+ 1 2)");
}

#[test]
fn error_inside_operand_propagates() {
    match parse("1 + ") {
        Err(ParseError::UnknownPrimary(token, _)) => {
            assert_eq!(token.token_type(), TokenType::Eof);
        }
        other => panic!("unexpected {:?}", other),
    }
}

#[test]
fn printer_renders_built_trees() {
    let minus = Token::new(TokenType::Minus, String::from("-"), None, 1);
    let star = Token::new(TokenType::Star, String::from("*"), None, 1);
    let tree = Expr::Binary(
        Box::new(Expr::Unary(
            minus,
            Box::new(Expr::Literal(Literal::Number(String::from("123")))),
        )),
        star,
        Box::new(Expr::Grouping(Box::new(Expr::Literal(Literal::Number(String::from(
            "45.67",
        )))))),
    );
    assert_eq!(AstPrinter::new().print(tree), "(* (- 123) (group 45.67))");
}

#[test]
fn synchronize_skips_past_semicolon() {
    let tokens = Scanner::new(String::from("1 2 ; 3 + 4")).scan_tokens().unwrap();
    let mut parser = Parser::new(tokens);
    let first = parser.parse().unwrap();
    assert_eq!(AstPrinter::new().print(*first), "1");
    parser.synchronize();
    let second = parser.parse().unwrap();
    assert_eq!(AstPrinter::new().print(*second), "(+ 3 4)");
}

#[test]
fn synchronize_stops_at_statement_keyword() {
    let tokens = Scanner::new(String::from("* 2 var x")).scan_tokens().unwrap();
    let mut parser = Parser::new(tokens);
    assert!(matches!(parser.parse(), Err(ParseError::UnknownPrimary(_, _))));
    parser.synchronize();
    match parser.parse() {
        Err(ParseError::UnknownPrimary(token, _)) => assert_eq!(token.token_type(), TokenType::Var),
        other => panic!("unexpected {:?}", other),
    }
    parser.synchronize();
    parser.synchronize();
    match parser.parse() {
        Err(ParseError::UnknownPrimary(token, _)) => assert_eq!(token.token_type(), TokenType::Eof),
        other => panic!("unexpected {:?}", other),
    }
}

#[test]
fn different_shapes_render_differently() {
    let renders = [
        render("(1 + 2) * 3"),
        render("1 + 2 * 3"),
        render("1 + (2 * 3)"),
        render("-(1)"),
        render("(-1)"),
        render("1 - 2 - 3"),
        render("1 - (2 - 3)"),
    ];
    for i in 0..renders.len() {
        for j in 0..renders.len() {
            if i != j {
                assert_ne!(renders[i], renders[j]);
            }
        }
    }
    assert_eq!(render("(1 + 2) * 3"), render("( 1+2 )*3"));
}
