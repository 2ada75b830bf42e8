use arith_eval::lexer::{Lexer, Number, Token};
use arith_eval::parser::{Node, Parser, ParsingError};

fn number_value(n: &Number) -> f64 {
    let mut value = 0.0_f64;
    for d in &n.whole {
        value = value * 10.0 + *d as f64;
    }
    let mut fraction = 0.0_f64;
    let mut power = -1.0_f64;
    for d in &n.fraction {
        fraction += *d as f64 * 10.0_f64.powf(power);
        power -= 1.0;
    }
    value += fraction;
    if n.negative {
        -value
    } else {
        value
    }
}

fn tree_value(node: &Node) -> f64 {
    match node {
        Node::Value(n) => number_value(n),
        Node::Add(l, r) => tree_value(l) + tree_value(r),
        Node::Subtract(l, r) => tree_value(l) - tree_value(r),
        Node::Multiply(l, r) => tree_value(l) * tree_value(r),
        Node::Divide(l, r) => tree_value(l) / tree_value(r),
    }
}

fn parse_text(text: &str) -> Result<Box<Node>, ParsingError> {
    Parser::new(Lexer::new(text).scan().unwrap()).parse()
}

fn evaluate_text(text: &str) -> f64 {
    tree_value(&parse_text(text).unwrap())
}

fn is_literal(node: &Node, negative: bool, whole: &[u8]) -> bool {
    match node {
        Node::Value(n) => n.negative == negative && n.whole == whole && n.fraction.is_empty(),
        _ => false,
    }
}

#[test]
fn multiplication_binds_tighter_than_addition() {
    let tree = parse_text("2 + 2 * 2").unwrap();
    match &*tree {
        Node::Add(l, r) => {
            assert!(is_literal(l, false, &[2]));
            match &**r {
                Node::Multiply(a, b) => {
                    assert!(is_literal(a, false, &[2]));
                    assert!(is_literal(b, false, &[2]));
                }
                other => panic!("unexpected right operand {:?}", other),
            }
        }
        other => panic!("unexpected tree {:?}", other),
    }
    assert_eq!(evaluate_text("2 + 2 * 2"), 6.0);
}

#[test]
fn subtraction_is_left_associative() {
    let tree = parse_text("8 - 3 - 2").unwrap();
    match &*tree {
        Node::Subtract(l, r) => {
            assert!(matches!(&**l, Node::Subtract(_, _)));
            assert!(is_literal(r, false, &[2]));
        }
        other => panic!("unexpected tree {:?}", other),
    }
    assert_eq!(evaluate_text("8 - 3 - 2"), 3.0);
}

#[test]
fn division_is_left_associative() {
    assert_eq!(evaluate_text("8 / 4 / 2"), 1.0);
}

#[test]
fn parentheses_override_precedence() {
    let tree = parse_text("(2 + 2) * 2").unwrap();
    assert!(matches!(&*tree, Node::Multiply(l, _) if matches!(&**l, Node::Add(_, _))));
    assert_eq!(evaluate_text("(2 + 2) * 2"), 8.0);
}

#[test]
fn unary_minus_negates_literal() {
    let tree = parse_text("3 * -5").unwrap();
    match &*tree {
        Node::Multiply(l, r) => {
            assert!(is_literal(l, false, &[3]));
            assert!(is_literal(r, true, &[5]));
        }
        other => panic!("unexpected tree {:?}", other),
    }
    assert_eq!(evaluate_text("3 * -5"), -15.0);
}

#[test]
fn decimals_are_added() {
    assert_eq!(evaluate_text("1.5 + 1.25"), 2.75);
}

#[test]
fn division_by_zero_is_infinite() {
    let tree = parse_text("1 / 0").unwrap();
    assert!(matches!(&*tree, Node::Divide(_, _)));
    let value = evaluate_text("1 / 0");
    assert!(value.is_infinite() && value > 0.0);
}

#[test]
fn unclosed_parenthesis_is_mismatched() {
    assert!(matches!(parse_text("(2 + 2"), Err(ParsingError::MismatchedParentheses)));
}

#[test]
fn parenthesis_closed_by_other_token_is_mismatched() {
    assert!(matches!(parse_text("(2 + 2 +"), Err(ParsingError::ExpectedAPrefix)));
    assert!(matches!(parse_text("(2"), Err(ParsingError::MismatchedParentheses)));
}

#[test]
fn whitespace_does_not_matter() {
    let a = evaluate_text("2+2");
    let b = evaluate_text("2 + 2");
    let c = evaluate_text("  2  +  2  ");
    assert_eq!(a, 4.0);
    assert_eq!(a, b);
    assert_eq!(b, c);
}

#[test]
fn nested_expression_evaluates() {
    assert_eq!(evaluate_text("2 + (3 * -5) / (9 + -5)"), 2.0 + (3.0 * -5.0) / (9.0 + -5.0));
}

#[test]
fn no_tokens_expects_a_number() {
    assert!(matches!(Parser::new(Vec::new()).parse(), Err(ParsingError::ExpectedANumber)));
}

#[test]
fn minus_before_non_number_is_mismatched() {
    assert!(matches!(parse_text("-(2)"), Err(ParsingError::MismatchedMinusSign)));
    assert!(matches!(parse_text("2 * --2"), Err(ParsingError::MismatchedMinusSign)));
    assert!(matches!(parse_text("-"), Err(ParsingError::MismatchedMinusSign)));
}

#[test]
fn operator_in_prefix_position_is_rejected() {
    assert!(matches!(parse_text("* 2"), Err(ParsingError::ExpectedAPrefix)));
    assert!(matches!(parse_text("2 +"), Err(ParsingError::ExpectedAPrefix)));
    assert!(matches!(parse_text(""), Err(ParsingError::ExpectedAPrefix)));
}

#[test]
fn trailing_tokens_are_rejected() {
    assert!(matches!(parse_text("2 + 2 3"), Err(ParsingError::ExpectedAnOperator)));
    assert!(matches!(parse_text("2)"), Err(ParsingError::ExpectedAnOperator)));
}

#[test]
fn tokens_without_eof_are_rejected() {
    let tokens = vec![Token::Value(Number { negative: false, whole: vec![2], fraction: Vec::new() })];
    assert!(matches!(Parser::new(tokens).parse(), Err(ParsingError::ExpectedAnOperator)));
}

#[test]
fn parsing_error_messages() {
    assert_eq!(ParsingError::ExpectedANumber.message(), "Expected a number");
    assert_eq!(ParsingError::MismatchedParentheses.message(), "Missing ')' parenthesis");
    assert_eq!(ParsingError::MismatchedMinusSign.message(), "Mismatched '-' sign");
    assert_eq!(ParsingError::ExpectedAPrefix.message(), "Expected a prefix");
    assert_eq!(ParsingError::ExpectedAnOperator.message(), "Expected an operator");
}

#[test]
fn same_level_operators_apply_left_to_right() {
    let tree = parse_text("8 / 2 * 2").unwrap();
    assert!(matches!(&*tree, Node::Multiply(l, _) if matches!(&**l, Node::Divide(_, _))));
    assert_eq!(evaluate_text("8 / 2 * 2"), 8.0);
}

#[test]
fn tighter_operator_first_applies_first() {
    let tree = parse_text("2 * 3 + 4").unwrap();
    assert!(matches!(&*tree, Node::Add(l, _) if matches!(&**l, Node::Multiply(_, _))));
    assert_eq!(evaluate_text("2 * 3 + 4"), 10.0);
}
