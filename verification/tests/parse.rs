use deduction::ast::{Node, Proposition};
use deduction::parse::{make_binary, parse, BinaryOperator};

fn make_prop(proposition: char) -> Node {
    Proposition(proposition).into()
}

#[test]
fn proposition() {
    assert_eq!(parse("a").unwrap(), Node::from(Proposition('a')));
}

#[test]
fn binary_operators() {
    assert_eq!(
        parse("a & b").unwrap(),
        make_binary(make_prop('a'), BinaryOperator::And, make_prop('b')),
    );
    assert_eq!(
        parse("a | b").unwrap(),
        make_binary(make_prop('a'), BinaryOperator::Or, make_prop('b')),
    );
    assert_eq!(
        parse("a → b").unwrap(),
        make_binary(make_prop('a'), BinaryOperator::Imply, make_prop('b')),
    );
}

#[test]
fn unary_operators() {
    assert_eq!(parse("!a").unwrap(), make_prop('a').negate());
}

#[test]
fn mixed() {
    assert_eq!(
        parse("(a & (!b | c)) -> !d").unwrap(),
        make_binary(
            make_binary(
                make_prop('a'),
                BinaryOperator::And,
                make_binary(make_prop('b').negate(), BinaryOperator::Or, make_prop('c')),
            ),
            BinaryOperator::Imply,
            make_prop('d').negate(),
        ),
    );
}

#[test]
fn malformed_inputs_rejected() {
    assert!(parse("a &").is_err());
    assert!(parse("(a").is_err());
    assert!(parse("").is_err());
    assert!(parse("a b").is_err());
    assert!(parse("& a").is_err());
    assert!(parse("a & b & c").is_err());
    assert!(parse("a # b").is_err());
    assert!(parse("a -").is_err());
}

#[test]
fn symbol_and_ascii_forms_agree() {
    assert_eq!(parse("a ∧ b").unwrap(), parse("a & b").unwrap());
    assert_eq!(parse("a ∨ b").unwrap(), parse("a | b").unwrap());
    assert_eq!(parse("a → b").unwrap(), parse("a -> b").unwrap());
    assert_eq!(parse("¬a").unwrap(), parse("!a").unwrap());
}

#[test]
fn double_negation_is_a_flag_flip() {
    assert_eq!(parse("!!a").unwrap(), make_prop('a'));
    assert_eq!(parse("!!!a").unwrap(), make_prop('a').negate());
}

#[test]
fn render_round_trip() {
    let formulas = ["a", "!a", "a & b", "a | b", "a -> b", "!(a & b)", "(a & (!b | c)) -> !d"];
    for formula in formulas {
        let tree = parse(formula).unwrap();
        let display: String = tree.render_chars().into_iter().collect();
        let reparsed = parse(&display).unwrap();
        assert_eq!(reparsed, tree);
    }
}

#[test]
fn render_exact_display_form() {
    let tree = parse("a & b").unwrap();
    let display: String = tree.render_chars().into_iter().collect();
    assert_eq!(display, "(a & b)");
    let tree = parse("a -> b").unwrap();
    let display: String = tree.render_chars().into_iter().collect();
    assert_eq!(display, "!(a & !b)");
}
