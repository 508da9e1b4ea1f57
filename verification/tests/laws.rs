use parse_lambda::parser::{parse, parse_lambda_term, try_parse, ParseError};
use parse_lambda::term::{LambdaTerm, Var};

fn v(name: &str) -> LambdaTerm {
    LambdaTerm::Variable { var: Var::new(name.to_string()) }
}

fn lam(param: &str, body: LambdaTerm) -> LambdaTerm {
    LambdaTerm::Abstraction { var: Var::new(param.to_string()), body: Box::new(body) }
}

fn ap(func: LambdaTerm, arg: LambdaTerm) -> LambdaTerm {
    LambdaTerm::Application { func: Box::new(func), arg: Box::new(arg) }
}

fn samples() -> Vec<LambdaTerm> {
    vec![
        v("x"),
        v("_"),
        v("long_name_42"),
        v("λx"),
        lam("x", v("x")),
        lam("x", lam("y", v("x"))),
        ap(v("f"), v("x")),
        ap(lam("x", v("x")), v("y")),
        ap(lam("x", ap(v("x"), v("x"))), lam("x", ap(v("x"), v("x")))),
        lam("f", lam("x", ap(v("f"), ap(v("f"), ap(v("f"), v("x")))))),
        ap(ap(ap(v("a"), v("b")), v("c")), lam("d", v("e1"))),
    ]
}

fn right_nested(depth: usize) -> LambdaTerm {
    let mut t = v("z");
    for _ in 0..depth {
        t = ap(v("f"), t);
    }
    t
}

fn left_nested(depth: usize) -> LambdaTerm {
    let mut t = v("z");
    for _ in 0..depth {
        t = lam("x", ap(t, v("y")));
    }
    t
}

#[test]
fn round_trip_of_sample_terms() {
    for t in samples() {
        assert!(t.is_well_formed());
        assert_eq!(parse(&t.render()), Some(t));
    }
}

#[test]
fn round_trip_of_parsed_texts() {
    for text in ["x", "(\\x.x)", "(\\x.(\\y.x))", "((\\x.x)$y)", "((a$b)$(c$d))"] {
        let t = parse(text).unwrap();
        assert_eq!(t.render(), text);
    }
}

#[test]
fn round_trip_of_deep_terms() {
    for depth in [1usize, 2, 10, 100] {
        let t = right_nested(depth);
        assert_eq!(parse(&t.render()), Some(t));
        let u = left_nested(depth);
        assert_eq!(parse(&u.render()), Some(u));
    }
}

#[test]
fn parsing_twice_gives_the_same_result() {
    for text in ["x", "(\\x.x)", "((\\x.x)$y)", "x$y", "()", "", "( f $ x )", "(\\x.x"] {
        assert_eq!(parse(text), parse(text));
        assert_eq!(try_parse(text), try_parse(text));
    }
}

#[test]
fn every_rendered_term_parses() {
    for t in samples() {
        let text = t.render();
        assert!(parse(&text).is_some());
        assert_eq!(try_parse(&text), Ok(t));
    }
}

#[test]
fn rejects_unbalanced_parentheses() {
    for text in ["(\\x.x", "\\x.x)", "((f$x)", "(f$x))", "(", ")", "((\\x.x)$y", "(\\x.(\\y.x)"] {
        assert_eq!(parse(text), None);
    }
}

#[test]
fn rejects_a_missing_separator() {
    for text in ["(f x)", "(fx)", "(\\x x)", "(\\xx)", "((\\x.x)y)", "(f$x$y)", "(\\x.y.z)"] {
        assert_eq!(parse(text), None);
    }
}

#[test]
fn rejects_an_empty_identifier() {
    for text in ["(\\.x)", "(\\x.)", "($y)", "(x$)", "()", "($)", "(\\.)", "(\\(x).x)"] {
        assert_eq!(parse(text), None);
    }
}

#[test]
fn rejects_trailing_text() {
    for text in ["x$y", "x)", "(\\x.x)y", "(f$x)(g$y)", "x.y", "(f$x)$", "x\\"] {
        assert_eq!(parse(text), None);
        assert_eq!(try_parse(text), Err(ParseError::IncompleteParse));
    }
}

#[test]
fn whitespace_between_tokens_changes_nothing() {
    let plain = parse("((\\x.x)$y)");
    assert!(plain.is_some());
    for text in [
        " ((\\x.x)$y)",
        "((\\x.x)$y) ",
        "( ( \\ x . x ) $ y )",
        "(\n\t(\\x.x)\r\n$\ty\n)\n",
        "((\\x\u{a0}.x)\u{3000}$\u{2003}y)",
        "(  (\\x.x)   $   y  )",
    ] {
        assert_eq!(parse(text), plain);
    }
}

#[test]
fn whitespace_anywhere_changes_nothing() {
    let text = "(\\abc.(abc$de))";
    let plain = parse(text);
    assert!(plain.is_some());
    let chars: Vec<char> = text.chars().collect();
    for i in 0..=chars.len() {
        for blanks in [" ", "\n", "\t \r\n", "\u{2028}"] {
            let mut spaced = String::new();
            for c in &chars[..i] {
                spaced.push(*c);
            }
            spaced.push_str(blanks);
            for c in &chars[i..] {
                spaced.push(*c);
            }
            assert_eq!(parse(&spaced), plain);
        }
    }
}

#[test]
fn whitespace_inside_a_name_joins_it() {
    assert_eq!(parse("a b"), Some(v("ab")));
    assert_eq!(parse("(\\x y.x y)"), Some(lam("xy", v("xy"))));
}

#[test]
fn deep_right_nesting_parses() {
    let depth = 400;
    let t = right_nested(depth);
    let text = t.render();
    assert_eq!(text.len(), 1 + 4 * depth);
    let parsed = parse(&text).unwrap();
    let mut seen = 0;
    let mut at = &parsed;
    while let LambdaTerm::Application { func, arg } = at {
        assert_eq!(**func, v("f"));
        at = &**arg;
        seen += 1;
    }
    assert_eq!(seen, depth);
    assert_eq!(*at, v("z"));
}

#[test]
fn deep_nesting_without_its_closing_parentheses_is_rejected() {
    let mut text = String::new();
    for _ in 0..300 {
        text.push_str("(f$");
    }
    text.push('z');
    assert_eq!(parse(&text), None);
    assert_eq!(try_parse(&text), Err(ParseError::NoMatch));
}

#[test]
fn a_term_at_the_front_is_found_with_what_follows() {
    assert_eq!(parse_lambda_term("x$y"), Some((v("x"), "$y")));
    assert_eq!(parse_lambda_term("(\\x.x)(\\y.y)"), Some((lam("x", v("x")), "(\\y.y)")));
    assert_eq!(parse_lambda_term("(f$x)"), Some((ap(v("f"), v("x")), "")));
    assert_eq!(parse_lambda_term("(f$x"), None);
    assert_eq!(parse_lambda_term(" x"), None);
}
