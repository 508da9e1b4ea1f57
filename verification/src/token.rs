//! The tokens of the term syntax: names and fixed punctuation.
//!
//! A token recogniser takes the text that lies ahead and either fails,
//! consuming nothing, or returns what it matched and the text that follows.

use vstd::prelude::*;
use vstd::string::StrSliceExecFns;
use crate::charset::{is_name_char, is_name_start, name_char, name_start};

verus! {

/// A name of the term syntax: not empty, begun by a letter or an underscore,
/// and continued by letters, digits and underscores.
pub open spec fn is_identifier(s: Seq<char>) -> bool {
    &&& s.len() > 0
    &&& is_name_start(s[0])
    &&& forall|i: int| 0 <= i < s.len() ==> is_name_char(#[trigger] s[i])
}

/// No name could go on into `rest`: it is empty or begins with a character
/// that no name holds.
pub open spec fn ends_name(rest: Seq<char>) -> bool {
    rest.len() == 0 || !is_name_char(rest[0])
}

/// The length of the longest prefix of `s` made of name characters.
pub open spec fn name_run(s: Seq<char>) -> nat
    decreases s.len(),
{
    if s.len() > 0 && is_name_char(s[0]) {
        1 + name_run(s.drop_first())
    } else {
        0
    }
}

/// The name token at the front of `s` and the text after it: the longest
/// prefix of name characters, if it is not empty and does not begin with a
/// digit.
pub open spec fn name_token(s: Seq<char>) -> Option<(Seq<char>, Seq<char>)> {
    let n = name_run(s) as int;
    if n > 0 && is_name_start(s[0]) {
        Some((s.take(n), s.skip(n)))
    } else {
        None
    }
}

/// The text after the literal `lit` at the front of `s`.
pub open spec fn literal_token(s: Seq<char>, lit: Seq<char>) -> Option<Seq<char>> {
    if lit.is_prefix_of(s) {
        Some(s.skip(lit.len() as int))
    } else {
        None
    }
}

/// The run of name characters is within the text, it holds name characters
/// only, and the text goes on, if it does, with another character.
pub proof fn lemma_name_run(s: Seq<char>)
    ensures
        name_run(s) <= s.len(),
        forall|i: int| 0 <= i < name_run(s) ==> is_name_char(#[trigger] s[i]),
        name_run(s) < s.len() ==> !is_name_char(s[name_run(s) as int]),
    decreases s.len(),
{
    if s.len() > 0 && is_name_char(s[0]) {
        let t = s.drop_first();
        lemma_name_run(t);
        assert forall|i: int| 0 <= i < name_run(s) implies is_name_char(#[trigger] s[i]) by {
            if i > 0 {
                assert(s[i] == t[i - 1]);
            }
        }
        if name_run(s) < s.len() {
            assert(s[name_run(s) as int] == t[name_run(t) as int]);
        }
    }
}

/// A prefix of name characters that ends where the text ends, or before a
/// character of another kind, is the whole run.
pub proof fn lemma_name_run_is(s: Seq<char>, n: int)
    requires
        0 <= n <= s.len(),
        forall|i: int| 0 <= i < n ==> is_name_char(#[trigger] s[i]),
        n < s.len() ==> !is_name_char(s[n]),
    ensures
        name_run(s) == n,
    decreases n,
{
    if n > 0 {
        let t = s.drop_first();
        assert(is_name_char(s[0]));
        assert forall|i: int| 0 <= i < n - 1 implies is_name_char(#[trigger] t[i]) by {
            assert(t[i] == s[i + 1]);
        }
        if n - 1 < t.len() {
            assert(t[n - 1] == s[n]);
        }
        lemma_name_run_is(t, n - 1);
    }
}

/// A literal token is the literal and then the text that follows it.
pub proof fn lemma_literal_token_sound(s: Seq<char>, lit: Seq<char>, rest: Seq<char>)
    requires
        literal_token(s, lit) == Some(rest),
    ensures
        s == lit + rest,
{
    assert(s =~= lit + rest);
}

/// A name followed by text that cannot continue it is the name token of the
/// whole.
pub proof fn lemma_name_token_of(name: Seq<char>, rest: Seq<char>)
    requires
        is_identifier(name),
        ends_name(rest),
    ensures
        name_token(name + rest) == Some((name, rest)),
{
    let s = name + rest;
    let n = name.len() as int;
    assert forall|i: int| 0 <= i < n implies is_name_char(#[trigger] s[i]) by {
        assert(s[i] == name[i]);
    }
    if n < s.len() {
        assert(s[n] == rest[0]);
    }
    lemma_name_run_is(s, n);
    assert(s[0] == name[0]);
    assert(s.take(n) =~= name);
    assert(s.skip(n) =~= rest);
}

/// A name token is an identifier, it stands at the front of the text, and
/// what follows cannot continue it.
pub proof fn lemma_name_token_sound(s: Seq<char>, name: Seq<char>, rest: Seq<char>)
    requires
        name_token(s) == Some((name, rest)),
    ensures
        is_identifier(name),
        s == name + rest,
        ends_name(rest),
{
    lemma_name_run(s);
    let n = name_run(s) as int;
    assert(s =~= name + rest);
    assert forall|i: int| 0 <= i < name.len() implies is_name_char(#[trigger] name[i]) by {
        assert(name[i] == s[i]);
    }
    assert(name[0] == s[0]);
    if rest.len() > 0 {
        assert(rest[0] == s[n]);
    }
}

/// Calls `nom::bytes::complete::tag` with `lit` on `input`. The call succeeds
/// exactly when the input begins with the literal, and then hands back the
/// input that follows it.
#[verifier::external_body]
fn tag<'a>(input: &'a str, lit: &str) -> (r: Option<&'a str>)
    ensures
        match r {
            Some(rest) => input@ == lit@ + rest@,
            None => !lit@.is_prefix_of(input@),
        },
{
    let r: nom::IResult<&str, &str> = nom::bytes::complete::tag(lit)(input);
    match r {
        Ok((rest, _)) => Some(rest),
        Err(_) => None,
    }
}

/// Calls `nom::bytes::complete::take_while1` with the test for a name
/// character on `input`. The call hands back the longest prefix whose
/// characters all pass the test, and the input that follows it; it fails
/// exactly when that prefix is empty.
#[verifier::external_body]
fn take_while1_name_char<'a>(input: &'a str) -> (r: Option<(&'a str, &'a str)>)
    ensures
        match r {
            Some((run, rest)) => {
                &&& input@ == run@ + rest@
                &&& run@.len() > 0
                &&& forall|i: int| 0 <= i < run@.len() ==> is_name_char(#[trigger] run@[i])
                &&& rest@.len() > 0 ==> !is_name_char(rest@[0])
            },
            None => input@.len() == 0 || !is_name_char(input@[0]),
        },
{
    let r: nom::IResult<&str, &str> = nom::bytes::complete::take_while1(name_char)(input);
    match r {
        Ok((rest, run)) => Some((run, rest)),
        Err(_) => None,
    }
}

/// Recognises a fixed piece of punctuation: succeeds and consumes exactly
/// `lit` if the input begins with it, and fails otherwise.
pub fn parse_literal<'a>(input: &'a str, lit: &str) -> (r: Option<&'a str>)
    ensures
        match r {
            Some(rest) => literal_token(input@, lit@) == Some(rest@),
            None => literal_token(input@, lit@) is None,
        },
{
    let r = tag(input, lit);
    proof {
        if let Some(rest) = r {
            assert(lit@.is_prefix_of(input@));
            assert(input@.skip(lit@.len() as int) =~= rest@);
        }
    }
    r
}

/// Recognises a name: consumes the longest prefix of name characters, and
/// fails, consuming nothing, if that prefix is empty or begins with a digit.
pub fn parse_variable_name<'a>(input: &'a str) -> (r: Option<(&'a str, &'a str)>)
    ensures
        match r {
            Some((name, rest)) => name_token(input@) == Some((name@, rest@)),
            None => name_token(input@) is None,
        },
{
    match take_while1_name_char(input) {
        Some((run, rest)) => {
            proof {
                let n = run@.len() as int;
                assert forall|i: int| 0 <= i < n implies is_name_char(#[trigger] input@[i]) by {
                    assert(input@[i] == run@[i]);
                }
                if n < input@.len() {
                    assert(input@[n] == rest@[0]);
                }
                lemma_name_run_is(input@, n);
                assert(input@.take(n) =~= run@);
                assert(input@.skip(n) =~= rest@);
                assert(input@[0] == run@[0]);
            }
            if name_start(run.get_char(0)) {
                Some((run, rest))
            } else {
                None
            }
        },
        None => None,
    }
}

} // verus!
