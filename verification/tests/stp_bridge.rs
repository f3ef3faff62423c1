use evolver::dsl::schema::{LogicType, ProofAction};
use evolver::dsl::stp_bridge::{STPContext, str_contains, str_equals};

fn define(symbol: &str, t: LogicType) -> ProofAction {
    ProofAction::Define { symbol: symbol.to_string(), value_type: t }
}

fn assert_that(condition: &str) -> ProofAction {
    ProofAction::Assert { condition: condition.to_string() }
}

#[test]
fn empty_path_has_high_energy() {
    let mut ctx = STPContext::new();
    assert_eq!(ctx.calculate_energy(&[]), 1000);
}

#[test]
fn odd_plus_odd_is_even() {
    let mut ctx = STPContext::new();
    let path = vec![
        define("n", LogicType::Odd),
        define("m", LogicType::Odd),
        assert_that("n + m is Even"),
    ];
    assert_eq!(ctx.calculate_energy(&path), 0);
}

#[test]
fn odd_plus_odd_claimed_odd_is_a_contradiction() {
    let mut ctx = STPContext::new();
    let path = vec![
        define("n", LogicType::Odd),
        define("m", LogicType::Odd),
        assert_that("n + m is Odd"),
    ];
    assert_eq!(ctx.calculate_energy(&path), 1);
}

#[test]
fn odd_plus_even_sum_is_odd() {
    let mut ctx = STPContext::new();
    let path = vec![
        define("n", LogicType::Odd),
        define("m", LogicType::Even),
        assert_that("the sum is Odd"),
        assert_that("the sum is Even"),
    ];
    assert_eq!(ctx.calculate_energy(&path), 1);
}

#[test]
fn unknown_claim_is_one_violation() {
    let mut ctx = STPContext::new();
    let path = vec![
        define("n", LogicType::Even),
        define("m", LogicType::Even),
        assert_that("n + m is prime"),
    ];
    assert_eq!(ctx.calculate_energy(&path), 1);
}

#[test]
fn transform_of_undefined_symbol_is_one_violation() {
    let mut ctx = STPContext::new();
    let path = vec![
        ProofAction::Transform { target: "x".to_string(), rule: "simplify".to_string() },
        define("x", LogicType::Integer),
        ProofAction::Transform { target: "x".to_string(), rule: "simplify".to_string() },
        ProofAction::NoOp,
    ];
    assert_eq!(ctx.calculate_energy(&path), 1);
}

#[test]
fn assertion_on_undefined_or_scalar_symbols_costs_nothing() {
    let mut ctx = STPContext::new();
    let path = vec![define("n", LogicType::Integer), assert_that("n + m is Odd")];
    assert_eq!(ctx.calculate_energy(&path), 0);
}

#[test]
fn later_definition_hides_earlier_one() {
    let mut ctx = STPContext::new();
    let path = vec![
        define("n", LogicType::Even),
        define("m", LogicType::Odd),
        define("n", LogicType::Odd),
        assert_that("n + m is Odd"),
    ];
    assert_eq!(ctx.calculate_energy(&path), 1);
}

#[test]
fn each_run_starts_from_a_fresh_table() {
    let mut ctx = STPContext::new();
    ctx.calculate_energy(&[define("x", LogicType::Odd)]);
    let path = vec![ProofAction::Transform { target: "x".to_string(), rule: "r".to_string() }];
    assert_eq!(ctx.calculate_energy(&path), 1);
}

#[test]
fn string_helpers() {
    assert!(str_contains("n + m is Odd", "n + m"));
    assert!(str_contains("abc", ""));
    assert!(!str_contains("ab", "abc"));
    assert!(!str_contains("Even", "Odd"));
    assert!(str_equals("fast", "fast"));
    assert!(!str_equals("fast", "fas"));
}

#[test]
fn energy_counts_violating_actions() {
    let mut ctx = STPContext::new();
    let path = vec![
        ProofAction::Transform { target: "y".to_string(), rule: "r".to_string() },
        define("n", LogicType::Odd),
        define("m", LogicType::Odd),
        assert_that("n + m is Odd"),
        assert_that("n + m is Even"),
        assert_that("the sum is prime"),
        ProofAction::Transform { target: "z".to_string(), rule: "r".to_string() },
    ];
    assert_eq!(ctx.calculate_energy(&path), 4);
}
