use parse_lambda::parser::{
    parse_lambda_term_abstraction, parse_lambda_term_application, parse_lambda_term_variable,
    parse_variable,
};
use parse_lambda::term::{LambdaTerm, Var};
use parse_lambda::token::{parse_literal, parse_variable_name};

#[test]
fn a_name_is_the_longest_run_of_name_characters() {
    assert_eq!(parse_variable_name("xy"), Some(("xy", "")));
    assert_eq!(parse_variable_name("xy.z"), Some(("xy", ".z")));
    assert_eq!(parse_variable_name("x$y"), Some(("x", "$y")));
    assert_eq!(parse_variable_name("foo_bar9)rest"), Some(("foo_bar9", ")rest")));
    assert_eq!(parse_variable_name("a b"), Some(("a", " b")));
    assert_eq!(parse_variable_name("_"), Some(("_", "")));
    assert_eq!(parse_variable_name("__x__("), Some(("__x__", "(")));
}

#[test]
fn a_name_does_not_hand_its_input_back() {
    let (name, rest) = parse_variable_name("abc.def").unwrap();
    assert_ne!(name, "abc.def");
    assert_ne!(rest, "abc.def");
    assert_eq!(name, "abc");
    assert_eq!(rest, ".def");
}

#[test]
fn a_name_is_not_empty() {
    assert_eq!(parse_variable_name(""), None);
    assert_eq!(parse_variable_name(".x"), None);
    assert_eq!(parse_variable_name("(x)"), None);
    assert_eq!(parse_variable_name("$"), None);
    assert_eq!(parse_variable_name(" x"), None);
    assert_eq!(parse_variable_name("\\x"), None);
}

#[test]
fn a_name_does_not_begin_with_a_digit() {
    assert_eq!(parse_variable_name("1"), None);
    assert_eq!(parse_variable_name("1abc"), None);
    assert_eq!(parse_variable_name("٣x"), None);
    assert_eq!(parse_variable_name("x1"), Some(("x1", "")));
    assert_eq!(parse_variable_name("_1"), Some(("_1", "")));
}

#[test]
fn a_name_may_hold_letters_beyond_ascii() {
    assert_eq!(parse_variable_name("λx.λ"), Some(("λx", ".λ")));
    assert_eq!(parse_variable_name("über$"), Some(("über", "$")));
    assert_eq!(parse_variable_name("x\u{a0}y"), Some(("x", "\u{a0}y")));
    assert_eq!(parse_variable_name("💝"), None);
}

#[test]
fn a_literal_is_consumed_exactly() {
    assert_eq!(parse_literal("(x)", "("), Some("x)"));
    assert_eq!(parse_literal(")", ")"), Some(""));
    assert_eq!(parse_literal("\\x.x", "\\"), Some("x.x"));
    assert_eq!(parse_literal(".x", "."), Some("x"));
    assert_eq!(parse_literal("$y)", "$"), Some("y)"));
    assert_eq!(parse_literal("((", "("), Some("("));
    assert_eq!(parse_literal("(\\x", "(\\"), Some("x"));
    assert_eq!(parse_literal("abc", ""), Some("abc"));
}

#[test]
fn a_literal_does_not_hand_its_input_back() {
    let rest = parse_literal("(x)", "(").unwrap();
    assert_ne!(rest, "(x)");
    assert_eq!(rest, "x)");
}

#[test]
fn a_literal_fails_on_other_text() {
    assert_eq!(parse_literal("", "("), None);
    assert_eq!(parse_literal("x(", "("), None);
    assert_eq!(parse_literal(")", "("), None);
    assert_eq!(parse_literal(" (", "("), None);
    assert_eq!(parse_literal("(", "(\\"), None);
    assert_eq!(parse_literal("é", "e"), None);
}

#[test]
fn a_variable_name_becomes_a_var() {
    assert_eq!(parse_variable("abc)"), Some((Var::new("abc".to_string()), ")")));
    assert_eq!(parse_variable(")"), None);
    assert_eq!(parse_variable("9"), None);
}

#[test]
fn the_variable_branch_takes_names_only() {
    let x = LambdaTerm::Variable { var: Var::new("x".to_string()) };
    assert_eq!(parse_lambda_term_variable("x)"), Some((x, ")")));
    assert_eq!(parse_lambda_term_variable("(\\x.x)"), None);
    assert_eq!(parse_lambda_term_variable("(f$x)"), None);
    assert_eq!(parse_lambda_term_variable(""), None);
}

#[test]
fn the_abstraction_branch_takes_abstractions_only() {
    let id = LambdaTerm::Abstraction {
        var: Var::new("x".to_string()),
        body: Box::new(LambdaTerm::Variable { var: Var::new("x".to_string()) }),
    };
    assert_eq!(parse_lambda_term_abstraction("(\\x.x)$y"), Some((id, "$y")));
    assert_eq!(parse_lambda_term_abstraction("x"), None);
    assert_eq!(parse_lambda_term_abstraction("(f$x)"), None);
    assert_eq!(parse_lambda_term_abstraction("(\\x.x"), None);
    assert_eq!(parse_lambda_term_abstraction("(\\x x)"), None);
    assert_eq!(parse_lambda_term_abstraction("(\\.x)"), None);
    assert_eq!(parse_lambda_term_abstraction("(\\x.)"), None);
    assert_eq!(parse_lambda_term_abstraction("\\x.x"), None);
}

#[test]
fn the_application_branch_takes_applications_only() {
    let fx = LambdaTerm::Application {
        func: Box::new(LambdaTerm::Variable { var: Var::new("f".to_string()) }),
        arg: Box::new(LambdaTerm::Variable { var: Var::new("x".to_string()) }),
    };
    assert_eq!(parse_lambda_term_application("(f$x).y"), Some((fx, ".y")));
    assert_eq!(parse_lambda_term_application("x"), None);
    assert_eq!(parse_lambda_term_application("(\\x.x)"), None);
    assert_eq!(parse_lambda_term_application("(f$x"), None);
    assert_eq!(parse_lambda_term_application("(f x)"), None);
    assert_eq!(parse_lambda_term_application("($x)"), None);
    assert_eq!(parse_lambda_term_application("(f$)"), None);
    assert_eq!(parse_lambda_term_application("f$x"), None);
}
