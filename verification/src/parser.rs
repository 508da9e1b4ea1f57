//! The recursive-descent recogniser of the term syntax, and the entry points
//! that run it on a whole text.
//!
//! Each recogniser takes the text that lies ahead and either fails, consuming
//! nothing, or returns a term and the text that follows it. A composite term
//! consumes its opening parenthesis before it descends, so every descent is
//! into a shorter text. The three kinds of term begin differently, so at most
//! one branch of the choice succeeds, whatever the order of trial.

use vstd::prelude::*;
use vstd::string::StringExecFns;
use crate::charset::blank;
use crate::grammar::{
    abstraction_front, application_front, is_significant, lemma_abstraction_front,
    lemma_application_front, lemma_parse_text, lemma_parse_unique, lemma_reads_as,
    lemma_variable_front, parse_text, parses_as, reads_as, significant,
};
use crate::term::{LambdaTerm, Term, Var};
use crate::token::{
    lemma_literal_token_sound, lemma_name_token_sound, name_token, parse_literal,
    parse_variable_name,
};

verus! {

/// Why a text does not stand for a term.
#[derive(Debug, Clone, Copy, PartialEq, Eq, Structural)]
pub enum ParseError {
    /// No term stands at the front of the text.
    NoMatch,
    /// A term stands at the front of the text, and characters follow it.
    IncompleteParse,
}

/// `String::push` appends the character to the string.
pub assume_specification[ String::push ](s: &mut String, c: char)
    ensures
        final(s)@ == old(s)@.push(c),
;

/// Recognises a name and makes a [`Var`] of it.
pub fn parse_variable<'a>(input: &'a str) -> (r: Option<(Var, &'a str)>)
    ensures
        match r {
            Some((var, rest)) => name_token(input@) == Some((var@, rest@)),
            None => name_token(input@) is None,
        },
{
    match parse_variable_name(input) {
        Some((name, rest)) => Some((Var::new(String::from_str(name)), rest)),
        None => None,
    }
}

/// Recognises a variable: a name.
pub fn parse_lambda_term_variable<'a>(input: &'a str) -> (r: Option<(LambdaTerm, &'a str)>)
    ensures
        match r {
            Some((t, rest)) => t@ is Variable && parses_as(input@, t@, rest@),
            None => forall|t: Term, rest: Seq<char>|
                t is Variable ==> !#[trigger] parses_as(input@, t, rest),
        },
{
    match parse_variable(input) {
        Some((var, rest)) => {
            proof {
                lemma_name_token_sound(input@, var@, rest@);
            }
            Some((LambdaTerm::Variable { var }, rest))
        },
        None => {
            assert forall|t: Term, rest: Seq<char>| t is Variable implies !#[trigger] parses_as(
                input@,
                t,
                rest,
            ) by {
                if parses_as(input@, t, rest) {
                    lemma_variable_front(input@, t, rest);
                }
            }
            None
        },
    }
}

/// Recognises an abstraction: `(`, `\`, the parameter's name, `.`, the body
/// and `)`.
pub fn parse_lambda_term_abstraction<'a>(input: &'a str) -> (r: Option<(LambdaTerm, &'a str)>)
    ensures
        match r {
            Some((t, rest)) => t@ is Abstraction && parses_as(input@, t@, rest@),
            None => forall|t: Term, rest: Seq<char>|
                t is Abstraction ==> !#[trigger] parses_as(input@, t, rest),
        },
    decreases input@.len(), 0nat,
{
    proof {
        reveal_strlit("(");
        reveal_strlit("\\");
        reveal_strlit(".");
        reveal_strlit(")");
        assert("("@ =~= seq!['(']);
        assert("\\"@ =~= seq!['\\']);
        assert("."@ =~= seq!['.']);
        assert(")"@ =~= seq![')']);
        assert forall|t: Term, rest: Seq<char>|
            t is Abstraction && #[trigger] parses_as(input@, t, rest) implies abstraction_front(
            input@,
            t,
            rest,
        ) by {
            lemma_abstraction_front(input@, t, rest);
        }
    }
    let Some(after_open) = parse_literal(input, "(") else {
        return None;
    };
    let Some(after_lambda) = parse_literal(after_open, "\\") else {
        return None;
    };
    let Some((var, after_name)) = parse_variable(after_lambda) else {
        return None;
    };
    let Some(after_dot) = parse_literal(after_name, ".") else {
        return None;
    };
    proof {
        lemma_name_token_sound(after_lambda@, var@, after_name@);
    }
    let Some((body, after_body)) = parse_lambda_term(after_dot) else {
        return None;
    };
    let Some(rest) = parse_literal(after_body, ")") else {
        proof {
            assert forall|t: Term, rest: Seq<char>| t is Abstraction implies !#[trigger] parses_as(
                input@,
                t,
                rest,
            ) by {
                if parses_as(input@, t, rest) {
                    lemma_parse_unique(after_dot@, body@, after_body@, *t->body, seq![')'] + rest);
                    assert(seq![')'].is_prefix_of(seq![')'] + rest));
                }
            }
        }
        return None;
    };
    let t = LambdaTerm::Abstraction { var, body: Box::new(body) };
    proof {
        lemma_literal_token_sound(input@, seq!['('], after_open@);
        lemma_literal_token_sound(after_open@, seq!['\\'], after_lambda@);
        lemma_literal_token_sound(after_name@, seq!['.'], after_dot@);
        lemma_literal_token_sound(after_body@, seq![')'], rest@);
        assert(input@ =~= t@.render() + rest@);
    }
    Some((t, rest))
}

/// Recognises an application: `(`, the function, `$`, the argument and `)`.
pub fn parse_lambda_term_application<'a>(input: &'a str) -> (r: Option<(LambdaTerm, &'a str)>)
    ensures
        match r {
            Some((t, rest)) => t@ is Application && parses_as(input@, t@, rest@),
            None => forall|t: Term, rest: Seq<char>|
                t is Application ==> !#[trigger] parses_as(input@, t, rest),
        },
    decreases input@.len(), 0nat,
{
    proof {
        reveal_strlit("(");
        reveal_strlit("$");
        reveal_strlit(")");
        assert("("@ =~= seq!['(']);
        assert("$"@ =~= seq!['$']);
        assert(")"@ =~= seq![')']);
        assert forall|t: Term, rest: Seq<char>|
            t is Application && #[trigger] parses_as(input@, t, rest) implies application_front(
            input@,
            t,
            rest,
        ) by {
            lemma_application_front(input@, t, rest);
        }
    }
    let Some(after_open) = parse_literal(input, "(") else {
        return None;
    };
    let Some((func, after_func)) = parse_lambda_term(after_open) else {
        return None;
    };
    proof {
        lemma_literal_token_sound(input@, seq!['('], after_open@);
    }
    let Some(after_dollar) = parse_literal(after_func, "$") else {
        proof {
            assert forall|t: Term, rest: Seq<char>| t is Application implies !#[trigger] parses_as(
                input@,
                t,
                rest,
            ) by {
                if parses_as(input@, t, rest) {
                    let x = seq!['$'] + (t->argument.render() + (seq![')'] + rest));
                    lemma_parse_unique(after_open@, func@, after_func@, *t->function, x);
                    assert(seq!['$'].is_prefix_of(x));
                }
            }
        }
        return None;
    };
    proof {
        lemma_literal_token_sound(after_func@, seq!['$'], after_dollar@);
    }
    let Some((arg, after_arg)) = parse_lambda_term(after_dollar) else {
        proof {
            assert forall|t: Term, rest: Seq<char>| t is Application implies !#[trigger] parses_as(
                input@,
                t,
                rest,
            ) by {
                if parses_as(input@, t, rest) {
                    let y = t->argument.render() + (seq![')'] + rest);
                    lemma_parse_unique(after_open@, func@, after_func@, *t->function, seq!['$'] + y);
                    assert((seq!['$'] + y).skip(1) =~= y);
                }
            }
        }
        return None;
    };
    let Some(rest) = parse_literal(after_arg, ")") else {
        proof {
            assert forall|t: Term, rest: Seq<char>| t is Application implies !#[trigger] parses_as(
                input@,
                t,
                rest,
            ) by {
                if parses_as(input@, t, rest) {
                    let z = seq![')'] + rest;
                    let y = t->argument.render() + z;
                    lemma_parse_unique(after_open@, func@, after_func@, *t->function, seq!['$'] + y);
                    assert((seq!['$'] + y).skip(1) =~= y);
                    lemma_parse_unique(after_dollar@, arg@, after_arg@, *t->argument, z);
                    assert(seq![')'].is_prefix_of(z));
                }
            }
        }
        return None;
    };
    let t = LambdaTerm::Application { func: Box::new(func), arg: Box::new(arg) };
    proof {
        lemma_literal_token_sound(after_arg@, seq![')'], rest@);
        assert(input@ =~= t@.render() + rest@);
    }
    Some((t, rest))
}

/// Recognises a term: a variable, an abstraction or an application, tried in
/// that order.
pub fn parse_lambda_term<'a>(input: &'a str) -> (r: Option<(LambdaTerm, &'a str)>)
    ensures
        match r {
            Some((t, rest)) => parses_as(input@, t@, rest@),
            None => forall|t: Term, rest: Seq<char>| !#[trigger] parses_as(input@, t, rest),
        },
    decreases input@.len(), 1nat,
{
    if let Some(found) = parse_lambda_term_variable(input) {
        return Some(found);
    }
    if let Some(found) = parse_lambda_term_abstraction(input) {
        return Some(found);
    }
    parse_lambda_term_application(input)
}

/// The text without its whitespace.
pub fn strip_whitespace(input: &str) -> (text: String)
    ensures
        text@ == significant(input@),
{
    let mut text = String::new();
    proof {
        assert(input@.take(0) =~= Seq::<char>::empty());
        Seq::<char>::empty().lemma_filter_len(is_significant());
    }
    for c in it: input.chars()
        invariant
            it.seq() == input@,
            text@ == significant(input@.take(it.index())),
    {
        proof {
            let seen = input@.take(it.index());
            assert(input@.take(it.index() + 1) =~= seen.push(c));
            seen.lemma_filter_push(c, is_significant());
        }
        if !blank(c) {
            text.push(c);
        }
    }
    proof {
        assert(input@.take(input@.len() as int) =~= input@);
    }
    text
}

/// The completion rule: a term counts only if it consumed the whole text.
pub fn complete(front: Option<(LambdaTerm, &str)>) -> (r: Result<LambdaTerm, ParseError>)
    ensures
        match front {
            Some((t, rest)) => if rest@.len() == 0 {
                r == Ok::<LambdaTerm, ParseError>(t)
            } else {
                r == Err::<LambdaTerm, ParseError>(ParseError::IncompleteParse)
            },
            None => r == Err::<LambdaTerm, ParseError>(ParseError::NoMatch),
        },
{
    match front {
        Some((t, rest)) => {
            if rest.is_empty() {
                Ok(t)
            } else {
                Err(ParseError::IncompleteParse)
            }
        },
        None => Err(ParseError::NoMatch),
    }
}

/// Parses a text as one term, and says why where it is none.
///
/// Whitespace is removed first, wherever it stands. The result is the term
/// whose canonical text is what is left. Where there is no such term, the
/// error tells a text with a term at its front and more after it from one
/// with no term at its front.
pub fn try_parse(input: &str) -> (r: Result<LambdaTerm, ParseError>)
    ensures
        match r {
            Ok(t) => parse_text(input@) == Some(t@) && reads_as(significant(input@), t@),
            Err(ParseError::IncompleteParse) => parse_text(input@) is None && exists|
                t: Term,
                rest: Seq<char>,
            | #[trigger] parses_as(significant(input@), t, rest) && rest.len() > 0,
            Err(ParseError::NoMatch) => parse_text(input@) is None && forall|
                t: Term,
                rest: Seq<char>,
            | !#[trigger] parses_as(significant(input@), t, rest),
        },
{
    let text = strip_whitespace(input);
    let front = parse_lambda_term(text.as_str());
    proof {
        match &front {
            Some((t, rest)) => {
                if rest@.len() == 0 {
                    assert(rest@ =~= Seq::<char>::empty());
                    lemma_reads_as(text@, t@);
                    lemma_parse_text(input@, t@);
                } else {
                    assert forall|u: Term| !reads_as(text@, u) by {
                        if reads_as(text@, u) {
                            lemma_reads_as(text@, u);
                            lemma_parse_unique(text@, t@, rest@, u, Seq::empty());
                        }
                    }
                }
            },
            None => {
                assert forall|u: Term| !reads_as(text@, u) by {
                    lemma_reads_as(text@, u);
                }
            },
        }
    }
    complete(front)
}

/// Parses a text as one term.
///
/// Whitespace is removed first, wherever it stands. The result is the term
/// whose canonical text is what is left, and `None` where there is no such
/// term.
pub fn parse(input: &str) -> (r: Option<LambdaTerm>)
    ensures
        match r {
            Some(t) => parse_text(input@) == Some(t@) && reads_as(significant(input@), t@),
            None => parse_text(input@) is None && forall|t: Term|
                !#[trigger] reads_as(significant(input@), t),
        },
{
    match try_parse(input) {
        Ok(t) => Some(t),
        Err(_) => None,
    }
}

} // verus!
