use deduction::ast::{Node, Proposition};
use deduction::parse::parse;
use deduction::solve::{solve, Unsolvable};

fn do_test(premises: &[&str], deduction: char, expected_value: Result<bool, Unsolvable>) {
    let premises: Vec<Node> = premises
        .iter()
        .map(|premise| parse(premise).unwrap())
        .collect();
    let deduction = Proposition(deduction);
    assert_eq!(solve(premises, deduction), expected_value);
}

#[test]
fn trivial() {
    do_test(&["a"], 'a', Ok(true));
}

#[test]
fn trivial_negative() {
    do_test(&["!a"], 'a', Ok(false));
}

#[test]
fn unrelated() {
    do_test(&["a"], 'b', Err(Unsolvable));
}

#[test]
fn imply() {
    do_test(&["a", "a -> b"], 'b', Ok(true));
}

#[test]
fn imply_negative() {
    do_test(&["a", "a -> !b"], 'b', Ok(false));
}

#[test]
fn imply_negative_2() {
    do_test(&["!a -> b", "!a"], 'b', Ok(true));
}

#[test]
fn given_test_case() {
    do_test(
        &["(m ∧ ¬b) → j", "(f ∨ s) → m", "b → t", "f → ¬t", "f"],
        'j',
        Ok(true),
    );
}

#[test]
fn single_letter_premises_force_their_own_variable() {
    for letter in 'a'..='z' {
        let positive = letter.to_string();
        do_test(&[&positive], letter, Ok(true));
        let negative = format!("!{}", letter);
        do_test(&[&negative], letter, Ok(false));
    }
}

#[test]
fn disjunction_with_refuted_side() {
    do_test(&["a | b", "!a"], 'b', Ok(true));
}

#[test]
fn conjunction_premise_is_never_trivial() {
    // The solver only extracts premises reduced to a single proposition;
    // a bare conjunction is left standing, so its parts stay unknown.
    do_test(&["a & b"], 'a', Err(Unsolvable));
}

#[test]
fn premise_collapsed_to_a_constant_is_inert() {
    // Once `b` is known, `a | b` collapses to the constant true; it is
    // never selected as trivial, so `a` stays undetermined.
    do_test(&["b", "a | b"], 'a', Err(Unsolvable));
}

#[test]
fn solver_is_idempotent() {
    let premises = ["a", "a -> b"];
    let first = {
        let parsed: Vec<Node> = premises.iter().map(|p| parse(p).unwrap()).collect();
        solve(parsed, Proposition('b'))
    };
    let second = {
        let parsed: Vec<Node> = premises.iter().map(|p| parse(p).unwrap()).collect();
        solve(parsed, Proposition('b'))
    };
    assert_eq!(first, second);
    assert_eq!(first, Ok(true));
}

#[test]
fn contradictory_premises_follow_scan_order() {
    // Contradiction detection is not part of the design: the first
    // premise already reduced to the target decides the verdict.
    do_test(&["a", "!a"], 'a', Ok(true));
    do_test(&["!a", "a"], 'a', Ok(false));
}

#[test]
fn no_premises_is_indeterminate() {
    do_test(&[], 'a', Err(Unsolvable));
}
