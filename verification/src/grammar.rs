//! What it means for a text to read as a term, and why it reads as at most
//! one.
//!
//! The syntax is
//!
//! ```text
//! term        = variable | abstraction | application
//! variable    = identifier
//! abstraction = "(" "\" identifier "." term ")"
//! application = "(" term "$" term ")"
//! ```
//!
//! which is the image of [`Term::render`] on well-formed terms. A name is
//! read by maximal munch, so a variable at the front of a text ends only
//! where the name characters end.

use vstd::prelude::*;
use crate::charset::{is_blank, is_name_start, lemma_classes_disjoint};
use crate::term::Term;
use crate::token::{ends_name, lemma_name_token_of, literal_token, name_token};

verus! {

/// The text `s` reads as the well-formed term `t` followed by `rest`: it is
/// the canonical text of `t` and then `rest`, and where `t` is a variable the
/// name does not go on into `rest`.
pub open spec fn parses_as(s: Seq<char>, t: Term, rest: Seq<char>) -> bool {
    &&& t.well_formed()
    &&& s == t.render() + rest
    &&& (t is Variable ==> ends_name(rest))
}

/// The text `s` is the canonical text of the well-formed term `t`.
pub open spec fn reads_as(s: Seq<char>, t: Term) -> bool {
    t.well_formed() && t.render() == s
}

/// The test for a character that is not whitespace.
pub open spec fn is_significant() -> spec_fn(char) -> bool {
    |c: char| !is_blank(c)
}

/// The text without its whitespace.
pub open spec fn significant(s: Seq<char>) -> Seq<char> {
    s.filter(is_significant())
}

/// The term that a text stands for: the well-formed term whose canonical
/// text is the given text without its whitespace, if there is one.
/// [`lemma_parse_text`] shows that there is at most one.
pub open spec fn parse_text(s: Seq<char>) -> Option<Term> {
    if exists|t: Term| reads_as(significant(s), t) {
        Some(choose|t: Term| reads_as(significant(s), t))
    } else {
        None
    }
}

/// The canonical text of a well-formed term is not empty. That of a variable
/// begins with a character that begins a name; that of an abstraction with
/// `(\`; that of an application with `(` and then not with `\`.
pub proof fn lemma_render_front(t: Term)
    requires
        t.well_formed(),
    ensures
        t.render().len() > 0,
        t is Variable ==> is_name_start(t.render()[0]),
        t is Abstraction ==> t.render().len() > 1 && t.render()[0] == '(' && t.render()[1]
            == '\\',
        t is Application ==> t.render().len() > 1 && t.render()[0] == '(' && t.render()[1]
            != '\\',
    decreases t,
{
    match t {
        Term::Variable { name } => {},
        Term::Abstraction { parameter, body } => {},
        Term::Application { function, argument } => {
            lemma_render_front(*function);
            let f = function.render();
            assert(t.render()[1] == f[0]);
            lemma_classes_disjoint(f[0]);
        },
    }
}

/// How a text that reads as a variable begins: with its name as a token.
pub proof fn lemma_variable_front(s: Seq<char>, t: Term, rest: Seq<char>)
    requires
        t is Variable,
        parses_as(s, t, rest),
    ensures
        name_token(s) == Some((t->name, rest)),
{
    lemma_name_token_of(t->name, rest);
}

/// What stands at the front of a text that reads as the abstraction `t`
/// followed by `rest`: `(`, `\`, the parameter as a name token and `.`; after
/// them the text reads as the body followed by `)` and `rest`.
pub open spec fn abstraction_front(s: Seq<char>, t: Term, rest: Seq<char>) -> bool {
    let n = t->parameter.len() as int;
    &&& literal_token(s, seq!['(']) == Some(s.skip(1))
    &&& literal_token(s.skip(1), seq!['\\']) == Some(s.skip(2))
    &&& name_token(s.skip(2)) == Some((t->parameter, s.skip(2 + n)))
    &&& literal_token(s.skip(2 + n), seq!['.']) == Some(s.skip(3 + n))
    &&& parses_as(s.skip(3 + n), *t->body, seq![')'] + rest)
}

/// What stands at the front of a text that reads as the application `t`
/// followed by `rest`: `(`; after it the text reads as the function followed
/// by `$`, the argument's text, `)` and `rest`; and after that `$` it reads as
/// the argument followed by `)` and `rest`.
pub open spec fn application_front(s: Seq<char>, t: Term, rest: Seq<char>) -> bool {
    let after_argument = seq![')'] + rest;
    let after_dollar = t->argument.render() + after_argument;
    &&& literal_token(s, seq!['(']) == Some(s.skip(1))
    &&& parses_as(s.skip(1), *t->function, seq!['$'] + after_dollar)
    &&& parses_as(after_dollar, *t->argument, after_argument)
}

/// A text that reads as an abstraction begins as [`abstraction_front`] says.
pub proof fn lemma_abstraction_front(s: Seq<char>, t: Term, rest: Seq<char>)
    requires
        t is Abstraction,
        parses_as(s, t, rest),
    ensures
        abstraction_front(s, t, rest),
{
    let p = t->parameter;
    let b = t->body.render();
    let n = p.len() as int;
    assert(s =~= seq!['(', '\\'] + p + seq!['.'] + b + seq![')'] + rest);
    assert(seq!['('] =~= s.subrange(0, 1));
    assert(seq!['\\'] =~= s.skip(1).subrange(0, 1));
    assert(s.skip(1).skip(1) =~= s.skip(2));
    let after_name = seq!['.'] + b + seq![')'] + rest;
    assert(s.skip(2) =~= p + after_name);
    lemma_classes_disjoint('.');
    assert(after_name[0] == '.');
    lemma_name_token_of(p, after_name);
    assert(after_name =~= s.skip(2 + n));
    assert(seq!['.'] =~= s.skip(2 + n).subrange(0, 1));
    assert(s.skip(2 + n).skip(1) =~= s.skip(3 + n));
    let after_body = seq![')'] + rest;
    assert(s.skip(3 + n) =~= b + after_body);
    lemma_classes_disjoint(')');
    assert(after_body[0] == ')');
}

/// A text that reads as an application begins as [`application_front`] says.
pub proof fn lemma_application_front(s: Seq<char>, t: Term, rest: Seq<char>)
    requires
        t is Application,
        parses_as(s, t, rest),
    ensures
        application_front(s, t, rest),
{
    let f = t->function.render();
    let a = t->argument.render();
    assert(s =~= seq!['('] + f + seq!['$'] + a + seq![')'] + rest);
    assert(seq!['('] =~= s.subrange(0, 1));
    let after_argument = seq![')'] + rest;
    let after_function = seq!['$'] + (a + after_argument);
    assert(s.skip(1) =~= f + after_function);
    lemma_classes_disjoint('$');
    assert(after_function[0] == '$');
    lemma_classes_disjoint(')');
    assert(after_argument[0] == ')');
}

/// A text reads as at most one term, with one remainder.
pub proof fn lemma_parse_unique(s: Seq<char>, t1: Term, r1: Seq<char>, t2: Term, r2: Seq<char>)
    requires
        parses_as(s, t1, r1),
        parses_as(s, t2, r2),
    ensures
        t1 == t2,
        r1 == r2,
    decreases t1,
{
    lemma_render_front(t1);
    lemma_render_front(t2);
    assert(s[0] == t1.render()[0] && s[0] == t2.render()[0]);
    lemma_classes_disjoint(s[0]);
    if t1.render().len() > 1 && t2.render().len() > 1 {
        assert(s[1] == t1.render()[1] && s[1] == t2.render()[1]);
    }
    match t1 {
        Term::Variable { name } => {
            lemma_variable_front(s, t1, r1);
            lemma_variable_front(s, t2, r2);
        },
        Term::Abstraction { parameter, body } => {
            lemma_abstraction_front(s, t1, r1);
            lemma_abstraction_front(s, t2, r2);
            let after = s.skip(3 + parameter.len() as int);
            lemma_parse_unique(after, *body, seq![')'] + r1, *t2->body, seq![')'] + r2);
            assert(r1 =~= (seq![')'] + r1).skip(1));
            assert(r2 =~= (seq![')'] + r2).skip(1));
        },
        Term::Application { function, argument } => {
            lemma_application_front(s, t1, r1);
            lemma_application_front(s, t2, r2);
            let y1 = argument.render() + (seq![')'] + r1);
            let y2 = t2->argument.render() + (seq![')'] + r2);
            let x1 = seq!['$'] + y1;
            let x2 = seq!['$'] + y2;
            lemma_parse_unique(s.skip(1), *function, x1, *t2->function, x2);
            assert(y1 =~= x1.skip(1));
            assert(y2 =~= x2.skip(1));
            lemma_parse_unique(y1, *argument, seq![')'] + r1, *t2->argument, seq![')'] + r2);
            assert(r1 =~= (seq![')'] + r1).skip(1));
            assert(r2 =~= (seq![')'] + r2).skip(1));
        },
    }
}

/// A text is the canonical text of a term exactly when it reads as that term
/// followed by nothing.
pub proof fn lemma_reads_as(s: Seq<char>, t: Term)
    ensures
        reads_as(s, t) <==> parses_as(s, t, Seq::empty()),
{
    assert(t.render() + Seq::<char>::empty() =~= t.render());
}

/// A text stands for the term whose canonical text it is, whitespace apart,
/// and for no other.
pub proof fn lemma_parse_text(s: Seq<char>, t: Term)
    requires
        reads_as(significant(s), t),
    ensures
        parse_text(s) == Some(t),
{
    let u = choose|u: Term| reads_as(significant(s), u);
    lemma_reads_as(significant(s), t);
    lemma_reads_as(significant(s), u);
    lemma_parse_unique(significant(s), t, Seq::empty(), u, Seq::empty());
}

} // verus!
