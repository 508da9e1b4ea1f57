//! Laws that relate rendering and parsing.
//!
//! They are stated of [`parse_text`], the function that the parser's contract
//! equates its result with, and of [`Term::render`], which the renderer's
//! contract does the same for.

use vstd::prelude::*;
use crate::charset::{is_blank, lemma_classes_disjoint};
use crate::grammar::{
    is_significant, lemma_parse_text, lemma_parse_unique, lemma_reads_as, parse_text, parses_as,
    reads_as, significant,
};
use crate::term::Term;
use crate::token::is_identifier;

verus! {

/// Removing whitespace from two texts in a row is removing it from each.
pub proof fn lemma_significant_concat(a: Seq<char>, b: Seq<char>)
    ensures
        significant(a + b) == significant(a) + significant(b),
{
    Seq::filter_distributes_over_add(a, b, is_significant());
}

/// A text without whitespace is left as it is.
pub proof fn lemma_significant_all(s: Seq<char>)
    requires
        forall|i: int| 0 <= i < s.len() ==> !is_blank(#[trigger] s[i]),
    ensures
        significant(s) == s,
    decreases s.len(),
{
    if s.len() == 0 {
        s.lemma_filter_len(is_significant());
        assert(significant(s) =~= s);
    } else {
        let front = s.drop_last();
        lemma_significant_all(front);
        front.lemma_filter_push(s.last(), is_significant());
        assert(front.push(s.last()) =~= s);
    }
}

/// Of a text that is all whitespace nothing is left.
pub proof fn lemma_significant_none(s: Seq<char>)
    requires
        forall|i: int| 0 <= i < s.len() ==> is_blank(#[trigger] s[i]),
    ensures
        significant(s) == Seq::<char>::empty(),
    decreases s.len(),
{
    if s.len() == 0 {
        s.lemma_filter_len(is_significant());
        assert(significant(s) =~= s);
    } else {
        let front = s.drop_last();
        lemma_significant_none(front);
        front.lemma_filter_push(s.last(), is_significant());
        assert(front.push(s.last()) =~= s);
    }
}

/// The canonical text of a well-formed term holds no whitespace.
pub proof fn lemma_render_significant(t: Term)
    requires
        t.well_formed(),
    ensures
        significant(t.render()) == t.render(),
    decreases t,
{
    lemma_classes_disjoint('(');
    lemma_classes_disjoint(')');
    lemma_classes_disjoint('\\');
    lemma_classes_disjoint('.');
    lemma_classes_disjoint('$');
    lemma_significant_all(seq![')']);
    match t {
        Term::Variable { name } => {
            lemma_identifier_significant(name);
        },
        Term::Abstraction { parameter, body } => {
            let open = seq!['(', '\\'];
            let dot = seq!['.'];
            let close = seq![')'];
            lemma_significant_all(open);
            lemma_significant_all(dot);
            lemma_identifier_significant(parameter);
            lemma_render_significant(*body);
            lemma_significant_concat(open, parameter);
            lemma_significant_concat(open + parameter, dot);
            lemma_significant_concat(open + parameter + dot, body.render());
            lemma_significant_concat(open + parameter + dot + body.render(), close);
        },
        Term::Application { function, argument } => {
            let open = seq!['('];
            let dollar = seq!['$'];
            let close = seq![')'];
            lemma_significant_all(open);
            lemma_significant_all(dollar);
            lemma_render_significant(*function);
            lemma_render_significant(*argument);
            lemma_significant_concat(open, function.render());
            lemma_significant_concat(open + function.render(), dollar);
            lemma_significant_concat(open + function.render() + dollar, argument.render());
            lemma_significant_concat(
                open + function.render() + dollar + argument.render(),
                close,
            );
        },
    }
}

/// An identifier holds no whitespace.
pub proof fn lemma_identifier_significant(name: Seq<char>)
    requires
        is_identifier(name),
    ensures
        significant(name) == name,
{
    assert forall|i: int| 0 <= i < name.len() implies !is_blank(#[trigger] name[i]) by {
        lemma_classes_disjoint(name[i]);
    }
    lemma_significant_all(name);
}

/// Round trip: the canonical text of a well-formed term parses as that term.
pub proof fn law_round_trip(t: Term)
    requires
        t.well_formed(),
    ensures
        parse_text(t.render()) == Some(t),
{
    lemma_render_significant(t);
    lemma_parse_text(t.render(), t);
}

/// A text stands for at most one term: two well-formed terms with the same
/// canonical text are the same term.
pub proof fn law_one_term_per_text(s: Seq<char>, t1: Term, t2: Term)
    requires
        reads_as(s, t1),
        reads_as(s, t2),
    ensures
        t1 == t2,
{
    lemma_reads_as(s, t1);
    lemma_reads_as(s, t2);
    lemma_parse_unique(s, t1, Seq::empty(), t2, Seq::empty());
}

/// Totality: a text that is, whitespace apart, the canonical text of a
/// well-formed term parses, and as that term.
pub proof fn law_totality(s: Seq<char>, t: Term)
    requires
        t.well_formed(),
        significant(s) == t.render(),
    ensures
        parse_text(s) == Some(t),
{
    lemma_parse_text(s, t);
}

/// A text that parses is, whitespace apart, the canonical text of the
/// well-formed term that it parses as.
pub proof fn law_parse_sound(s: Seq<char>)
    requires
        parse_text(s) is Some,
    ensures
        reads_as(significant(s), parse_text(s)->0),
{
}

/// Trailing text: where a term stands at the front of a text and characters
/// follow it, the text does not parse.
pub proof fn law_trailing_text_rejected(s: Seq<char>, t: Term, rest: Seq<char>)
    requires
        parses_as(significant(s), t, rest),
        rest.len() > 0,
    ensures
        parse_text(s) is None,
{
    if parse_text(s) is Some {
        let u = parse_text(s)->0;
        lemma_reads_as(significant(s), u);
        lemma_parse_unique(significant(s), t, rest, u, Seq::empty());
    }
}

/// Whitespace invariance: two texts that differ in whitespace only parse
/// alike.
pub proof fn law_whitespace_invariance(a: Seq<char>, b: Seq<char>)
    requires
        significant(a) == significant(b),
    ensures
        parse_text(a) == parse_text(b),
{
}

/// Whitespace invariance: whitespace put into a text, at any place, does not
/// change what it parses as.
pub proof fn law_whitespace_inserted(s: Seq<char>, i: int, blanks: Seq<char>)
    requires
        0 <= i <= s.len(),
        forall|k: int| 0 <= k < blanks.len() ==> is_blank(#[trigger] blanks[k]),
    ensures
        parse_text(s.take(i) + blanks + s.skip(i)) == parse_text(s),
{
    lemma_significant_none(blanks);
    lemma_significant_concat(s.take(i), blanks);
    lemma_significant_concat(s.take(i) + blanks, s.skip(i));
    lemma_significant_concat(s.take(i), s.skip(i));
    assert(s.take(i) + s.skip(i) =~= s);
    assert(significant(s.take(i)) + Seq::<char>::empty() =~= significant(s.take(i)));
}

} // verus!
