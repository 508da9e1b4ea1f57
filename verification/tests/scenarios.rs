use parse_lambda::parser::{parse, try_parse, ParseError};
use parse_lambda::term::{LambdaTerm, Var};

fn var(name: &str) -> LambdaTerm {
    LambdaTerm::Variable { var: Var::new(name.to_string()) }
}

fn abs(param: &str, body: LambdaTerm) -> LambdaTerm {
    LambdaTerm::Abstraction { var: Var::new(param.to_string()), body: Box::new(body) }
}

fn app(func: LambdaTerm, arg: LambdaTerm) -> LambdaTerm {
    LambdaTerm::Application { func: Box::new(func), arg: Box::new(arg) }
}

#[test]
fn parses_a_variable() {
    assert_eq!(parse("x"), Some(var("x")));
}

#[test]
fn parses_the_identity_function() {
    assert_eq!(parse("(\\x.x)"), Some(abs("x", var("x"))));
}

#[test]
fn parses_a_nested_abstraction() {
    let parsed = parse("(\\x.(\\y.x))");
    assert_eq!(parsed, Some(abs("x", abs("y", var("x")))));
    match parsed {
        Some(LambdaTerm::Abstraction { body, .. }) => match *body {
            LambdaTerm::Abstraction { body: inner, .. } => assert_eq!(*inner, var("x")),
            _ => panic!("the body is not an abstraction"),
        },
        _ => panic!("the term is not an abstraction"),
    }
}

#[test]
fn parses_an_application() {
    assert_eq!(parse("((\\x.x)$y)"), Some(app(abs("x", var("x")), var("y"))));
}

#[test]
fn rejects_an_application_without_parentheses() {
    assert_eq!(parse("x$y"), None);
    assert_eq!(try_parse("x$y"), Err(ParseError::IncompleteParse));
}

#[test]
fn rejects_empty_parentheses() {
    assert_eq!(parse("()"), None);
    assert_eq!(try_parse("()"), Err(ParseError::NoMatch));
}

#[test]
fn parses_an_application_of_applications() {
    assert_eq!(
        parse("((f$x)$(g$y))"),
        Some(app(app(var("f"), var("x")), app(var("g"), var("y"))))
    );
}

#[test]
fn parses_an_abstraction_over_an_application() {
    assert_eq!(
        parse("(\\f.(\\x.(f$(f$x))))"),
        Some(abs("f", abs("x", app(var("f"), app(var("f"), var("x"))))))
    );
}

#[test]
fn reads_a_name_by_maximal_munch() {
    assert_eq!(parse("xy"), Some(var("xy")));
    assert_eq!(parse("(\\xy.xy)"), Some(abs("xy", var("xy"))));
}

#[test]
fn allows_digits_after_the_first_character() {
    assert_eq!(parse("x1"), Some(var("x1")));
    assert_eq!(parse("_0"), Some(var("_0")));
    assert_eq!(parse("a_b_2"), Some(var("a_b_2")));
    assert_eq!(parse("(\\x1.x1)"), Some(abs("x1", var("x1"))));
}

#[test]
fn rejects_a_name_that_begins_with_a_digit() {
    assert_eq!(parse("1x"), None);
    assert_eq!(parse("7"), None);
    assert_eq!(parse("(\\1.x)"), None);
    assert_eq!(parse("(x$2y)"), None);
    assert_eq!(try_parse("1x"), Err(ParseError::NoMatch));
}

#[test]
fn allows_letters_beyond_ascii() {
    assert_eq!(parse("λ"), Some(var("λ")));
    assert_eq!(parse("(\\é.é)"), Some(abs("é", var("é"))));
    assert_eq!(parse("京都"), Some(var("京都")));
    assert_eq!(parse("x٣"), Some(var("x٣")));
}

#[test]
fn rejects_the_empty_text() {
    assert_eq!(parse(""), None);
    assert_eq!(parse("   \n\t"), None);
    assert_eq!(try_parse(""), Err(ParseError::NoMatch));
}

#[test]
fn rejects_an_unparenthesised_abstraction() {
    assert_eq!(parse("\\x.x"), None);
    assert_eq!(try_parse("\\x.x"), Err(ParseError::NoMatch));
}
