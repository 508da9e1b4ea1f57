//! What every text that parses looks like, and so which texts are rejected:
//! those with unbalanced parentheses, with a missing separator, with a name
//! or a term missing where one must stand.

use vstd::prelude::*;
use crate::charset::{is_blank, is_name_start, lemma_classes_disjoint};
use crate::grammar::{is_significant, lemma_render_front, parse_text, significant};
use crate::term::Term;
use crate::token::is_identifier;

verus! {

/// How often the character `c` occurs in `s`.
pub open spec fn count_of(s: Seq<char>, c: char) -> nat
    decreases s.len(),
{
    if s.len() == 0 {
        0
    } else {
        count_of(s.drop_last(), c) + if s.last() == c {
            1nat
        } else {
            0nat
        }
    }
}

/// A character after which the syntax asks for more: `(`, `\`, `.` or `$`.
pub open spec fn expects_more(c: char) -> bool {
    c == '(' || c == '\\' || c == '.' || c == '$'
}

/// Whether `next` may stand right after `prev`, where `prev` asks for more:
/// a name begins after `\`; a term begins after `.` and `$`, with a name or
/// with `(`; after `(` a term begins, or `\` stands.
pub open spec fn may_follow(prev: char, next: char) -> bool {
    if prev == '\\' {
        is_name_start(next)
    } else if prev == '(' {
        is_name_start(next) || next == '(' || next == '\\'
    } else {
        is_name_start(next) || next == '('
    }
}

/// Wherever a character of `s` asks for more and another character follows
/// it, that character may follow it.
pub open spec fn adjacent_ok(s: Seq<char>) -> bool {
    forall|i: int|
        0 <= i < s.len() - 1 && expects_more(#[trigger] s[i]) ==> may_follow(s[i], s[i + 1])
}

/// A one-character text holds that character once and no other.
pub proof fn lemma_count_one(x: char, c: char)
    ensures
        count_of(seq![x], c) == if x == c {
            1nat
        } else {
            0nat
        },
{
    assert(seq![x].drop_last() =~= Seq::<char>::empty());
    assert(count_of(Seq::<char>::empty(), c) == 0);
}

/// Occurrences add up over two texts in a row.
pub proof fn lemma_count_concat(a: Seq<char>, b: Seq<char>, c: char)
    ensures
        count_of(a + b, c) == count_of(a, c) + count_of(b, c),
    decreases b.len(),
{
    if b.len() == 0 {
        assert(a + b =~= a);
    } else {
        lemma_count_concat(a, b.drop_last(), c);
        assert((a + b).drop_last() =~= a + b.drop_last());
    }
}

/// A text that does not hold the character holds it no times.
pub proof fn lemma_count_absent(s: Seq<char>, c: char)
    requires
        forall|i: int| 0 <= i < s.len() ==> #[trigger] s[i] != c,
    ensures
        count_of(s, c) == 0,
    decreases s.len(),
{
    if s.len() > 0 {
        lemma_count_absent(s.drop_last(), c);
    }
}

/// Removing whitespace removes no character that is not whitespace.
pub proof fn lemma_count_significant(s: Seq<char>, c: char)
    requires
        !is_blank(c),
    ensures
        count_of(significant(s), c) == count_of(s, c),
    decreases s.len(),
{
    if s.len() == 0 {
        s.lemma_filter_len(is_significant());
        assert(significant(s) =~= s);
    } else {
        let front = s.drop_last();
        lemma_count_significant(front, c);
        front.lemma_filter_push(s.last(), is_significant());
        assert(front.push(s.last()) =~= s);
        if !is_blank(s.last()) {
            assert(significant(front).push(s.last()).drop_last() =~= significant(front));
        }
    }
}

/// Two texts in a row are well joined where each is and the seam is.
pub proof fn lemma_adjacent_concat(a: Seq<char>, b: Seq<char>)
    requires
        adjacent_ok(a),
        adjacent_ok(b),
        a.len() > 0 && b.len() > 0 && expects_more(a.last()) ==> may_follow(a.last(), b[0]),
    ensures
        adjacent_ok(a + b),
{
    let s = a + b;
    assert forall|i: int| 0 <= i < s.len() - 1 && expects_more(#[trigger] s[i]) implies may_follow(
        s[i],
        s[i + 1],
    ) by {
        if i + 1 < a.len() {
            assert(s[i] == a[i] && s[i + 1] == a[i + 1]);
        } else if i < a.len() {
            assert(s[i] == a.last() && s[i + 1] == b[0]);
        } else {
            assert(s[i] == b[i - a.len()] && s[i + 1] == b[i - a.len() + 1]);
        }
    }
}

/// An identifier holds no punctuation.
pub proof fn lemma_identifier_shape(name: Seq<char>)
    requires
        is_identifier(name),
    ensures
        count_of(name, '(') == 0,
        count_of(name, ')') == 0,
        count_of(name, '\\') == 0,
        count_of(name, '.') == 0,
        count_of(name, '$') == 0,
        adjacent_ok(name),
        !expects_more(name.last()),
{
    assert forall|i: int| 0 <= i < name.len() implies !expects_more(#[trigger] name[i])
        && name[i] != ')' by {
        lemma_classes_disjoint(name[i]);
    }
    lemma_count_absent(name, '(');
    lemma_count_absent(name, ')');
    lemma_count_absent(name, '\\');
    lemma_count_absent(name, '.');
    lemma_count_absent(name, '$');
}

/// The shape of a canonical text: its parentheses balance; each opening
/// parenthesis comes with one `\` or one `$`; each `\` comes with one `.`;
/// it begins as a term begins; and nothing is missing after a character
/// that asks for more.
pub proof fn lemma_render_shape(t: Term)
    requires
        t.well_formed(),
    ensures
        count_of(t.render(), '(') == count_of(t.render(), ')'),
        count_of(t.render(), '(') == count_of(t.render(), '\\') + count_of(t.render(), '$'),
        count_of(t.render(), '\\') == count_of(t.render(), '.'),
        t.render().len() > 0,
        is_name_start(t.render()[0]) || t.render()[0] == '(',
        adjacent_ok(t.render()),
        !expects_more(t.render().last()),
    decreases t,
{
    lemma_render_front(t);
    match t {
        Term::Variable { name } => {
            lemma_identifier_shape(name);
        },
        Term::Abstraction { parameter, body } => {
            let b = body.render();
            lemma_identifier_shape(parameter);
            lemma_render_shape(*body);
            let s1 = seq!['('] + seq!['\\'];
            let s2 = s1 + parameter;
            let s3 = s2 + seq!['.'];
            let s4 = s3 + b;
            let s5 = s4 + seq![')'];
            assert(t.render() =~= s5);
            lemma_counts_step(seq!['('], seq!['\\']);
            lemma_counts_step(s1, parameter);
            lemma_counts_step(s2, seq!['.']);
            lemma_counts_step(s3, b);
            lemma_counts_step(s4, seq![')']);
            lemma_counts_one('(');
            lemma_counts_one('\\');
            lemma_counts_one('.');
            lemma_counts_one(')');
            lemma_classes_disjoint(parameter[0]);
            lemma_adjacent_concat(seq!['('], seq!['\\']);
            lemma_adjacent_concat(s1, parameter);
            assert(s2.last() == parameter.last());
            lemma_adjacent_concat(s2, seq!['.']);
            lemma_adjacent_concat(s3, b);
            assert(s4.last() == b.last());
            lemma_adjacent_concat(s4, seq![')']);
        },
        Term::Application { function, argument } => {
            let f = function.render();
            let a = argument.render();
            lemma_render_shape(*function);
            lemma_render_shape(*argument);
            let s1 = seq!['('] + f;
            let s2 = s1 + seq!['$'];
            let s3 = s2 + a;
            let s4 = s3 + seq![')'];
            assert(t.render() =~= s4);
            lemma_counts_step(seq!['('], f);
            lemma_counts_step(s1, seq!['$']);
            lemma_counts_step(s2, a);
            lemma_counts_step(s3, seq![')']);
            lemma_counts_one('(');
            lemma_counts_one('$');
            lemma_counts_one(')');
            lemma_adjacent_concat(seq!['('], f);
            assert(s1.last() == f.last());
            lemma_adjacent_concat(s1, seq!['$']);
            lemma_adjacent_concat(s2, a);
            assert(s3.last() == a.last());
            lemma_adjacent_concat(s3, seq![')']);
        },
    }
}

/// Occurrences of each piece of punctuation add up over two texts in a row.
pub proof fn lemma_counts_step(a: Seq<char>, b: Seq<char>)
    ensures
        count_of(a + b, '(') == count_of(a, '(') + count_of(b, '('),
        count_of(a + b, ')') == count_of(a, ')') + count_of(b, ')'),
        count_of(a + b, '\\') == count_of(a, '\\') + count_of(b, '\\'),
        count_of(a + b, '.') == count_of(a, '.') + count_of(b, '.'),
        count_of(a + b, '$') == count_of(a, '$') + count_of(b, '$'),
{
    lemma_count_concat(a, b, '(');
    lemma_count_concat(a, b, ')');
    lemma_count_concat(a, b, '\\');
    lemma_count_concat(a, b, '.');
    lemma_count_concat(a, b, '$');
}

/// How often each piece of punctuation occurs in a one-character text.
pub proof fn lemma_counts_one(x: char)
    ensures
        count_of(seq![x], '(') == if x == '(' { 1nat } else { 0nat },
        count_of(seq![x], ')') == if x == ')' { 1nat } else { 0nat },
        count_of(seq![x], '\\') == if x == '\\' { 1nat } else { 0nat },
        count_of(seq![x], '.') == if x == '.' { 1nat } else { 0nat },
        count_of(seq![x], '$') == if x == '$' { 1nat } else { 0nat },
        adjacent_ok(seq![x]),
{
    lemma_count_one(x, '(');
    lemma_count_one(x, ')');
    lemma_count_one(x, '\\');
    lemma_count_one(x, '.');
    lemma_count_one(x, '$');
}

/// Unbalanced parentheses: a text with more of one parenthesis than of the
/// other does not parse.
pub proof fn law_unbalanced_parentheses_rejected(s: Seq<char>)
    requires
        count_of(s, '(') != count_of(s, ')'),
    ensures
        parse_text(s) is None,
{
    if parse_text(s) is Some {
        lemma_render_shape(parse_text(s)->0);
        lemma_classes_disjoint('(');
        lemma_classes_disjoint(')');
        lemma_count_significant(s, '(');
        lemma_count_significant(s, ')');
    }
}

/// Missing separator: a text parses only if each of its opening parentheses
/// comes with one `\` or one `$`, and each `\` with one `.`.
pub proof fn law_missing_separator_rejected(s: Seq<char>)
    requires
        count_of(s, '(') != count_of(s, '\\') + count_of(s, '$') || count_of(s, '\\')
            != count_of(s, '.'),
    ensures
        parse_text(s) is None,
{
    if parse_text(s) is Some {
        lemma_render_shape(parse_text(s)->0);
        lemma_classes_disjoint('(');
        lemma_classes_disjoint('\\');
        lemma_classes_disjoint('$');
        lemma_classes_disjoint('.');
        lemma_count_significant(s, '(');
        lemma_count_significant(s, '\\');
        lemma_count_significant(s, '$');
        lemma_count_significant(s, '.');
    }
}

/// Empty identifier, empty term: a text does not parse if, whitespace apart,
/// it is empty or begins with a character that begins no term.
pub proof fn law_missing_term_rejected(s: Seq<char>)
    requires
        significant(s).len() == 0 || !(is_name_start(significant(s)[0]) || significant(s)[0]
            == '('),
    ensures
        parse_text(s) is None,
{
    if parse_text(s) is Some {
        lemma_render_shape(parse_text(s)->0);
    }
}

/// Empty identifier, empty term: a text does not parse if, whitespace apart,
/// one of its characters asks for more and the text ends there or goes on
/// with a character that may not follow: a `\` without a name after it, or a
/// `(`, `.` or `$` without a term after it.
pub proof fn law_missing_name_rejected(s: Seq<char>, i: int)
    requires
        0 <= i < significant(s).len(),
        expects_more(significant(s)[i]),
        i + 1 == significant(s).len() || !may_follow(significant(s)[i], significant(s)[i + 1]),
    ensures
        parse_text(s) is None,
{
    if parse_text(s) is Some {
        lemma_render_shape(parse_text(s)->0);
    }
}

} // verus!
