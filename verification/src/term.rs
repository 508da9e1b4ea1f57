//! Lambda terms, their mathematical model, and their canonical text.

use vstd::prelude::*;
use vstd::string::StringExecFns;
use crate::token::{is_identifier, lemma_name_token_of, lemma_name_token_sound, parse_variable_name};

verus! {

/// The mathematical model of a lambda term: names are character sequences.
pub enum Term {
    Variable { name: Seq<char> },
    Abstraction { parameter: Seq<char>, body: Box<Term> },
    Application { function: Box<Term>, argument: Box<Term> },
}

impl Term {
    /// Every name in the term is an identifier.
    pub open spec fn well_formed(self) -> bool
        decreases self,
    {
        match self {
            Term::Variable { name } => is_identifier(name),
            Term::Abstraction { parameter, body } => is_identifier(parameter) && body.well_formed(),
            Term::Application { function, argument } => function.well_formed()
                && argument.well_formed(),
        }
    }

    /// The canonical text of the term: a variable is its name, an abstraction
    /// is `(\parameter.body)`, an application is `(function$argument)`.
    pub open spec fn render(self) -> Seq<char>
        decreases self,
    {
        match self {
            Term::Variable { name } => name,
            Term::Abstraction { parameter, body } => seq!['(', '\\'] + parameter + seq!['.']
                + body.render() + seq![')'],
            Term::Application { function, argument } => seq!['('] + function.render() + seq!['$']
                + argument.render() + seq![')'],
        }
    }
}

/// The name of a variable or of an abstraction's parameter.
#[derive(Debug)]
pub struct Var {
    name: String,
}

impl View for Var {
    type V = Seq<char>;

    closed spec fn view(&self) -> Seq<char> {
        self.name@
    }
}

impl Var {
    /// Makes a name of any string. Whether it is an identifier is asked with
    /// [`Var::is_valid`].
    pub fn new(name: String) -> (v: Self)
        ensures
            v@ == name@,
    {
        Var { name }
    }

    /// The characters of the name.
    pub fn as_str(&self) -> (s: &str)
        ensures
            s@ == self@,
    {
        self.name.as_str()
    }

    /// The name as text.
    pub fn render(&self) -> (s: String)
        ensures
            s@ == self@,
    {
        self.name.clone()
    }

    /// Whether the name is an identifier: the whole of it is one name token.
    pub fn is_valid(&self) -> (r: bool)
        ensures
            r == is_identifier(self@),
    {
        let text = self.name.as_str();
        proof {
            if is_identifier(text@) {
                lemma_name_token_of(text@, Seq::empty());
                assert(text@ + Seq::<char>::empty() =~= text@);
            }
        }
        match parse_variable_name(text) {
            Some((name, rest)) => {
                proof {
                    lemma_name_token_sound(text@, name@, rest@);
                    if rest@.len() == 0 {
                        assert(name@ + rest@ =~= name@);
                    }
                }
                rest.is_empty()
            },
            None => false,
        }
    }
}

impl PartialEq for Var {
    fn eq(&self, other: &Self) -> (r: bool) {
        self.name == other.name
    }
}

impl vstd::std_specs::cmp::PartialEqSpecImpl for Var {
    open spec fn obeys_eq_spec() -> bool {
        true
    }

    open spec fn eq_spec(&self, other: &Self) -> bool {
        self@ == other@
    }
}

/// A lambda term. Each composite node owns its children.
#[derive(Debug)]
pub enum LambdaTerm {
    Variable { var: Var },
    Abstraction { var: Var, body: Box<LambdaTerm> },
    Application { func: Box<LambdaTerm>, arg: Box<LambdaTerm> },
}

impl View for LambdaTerm {
    type V = Term;

    open spec fn view(&self) -> Term {
        self.model()
    }
}

impl LambdaTerm {
    /// The term as a mathematical value; `self@` is another way to write it.
    pub open spec fn model(&self) -> Term
        decreases self,
    {
        match self {
            LambdaTerm::Variable { var } => Term::Variable { name: var@ },
            LambdaTerm::Abstraction { var, body } => Term::Abstraction {
                parameter: var@,
                body: Box::new(body.model()),
            },
            LambdaTerm::Application { func, arg } => Term::Application {
                function: Box::new(func.model()),
                argument: Box::new(arg.model()),
            },
        }
    }

    /// Whether every name in the term is an identifier.
    pub fn is_well_formed(&self) -> (r: bool)
        ensures
            r == self@.well_formed(),
        decreases self,
    {
        match self {
            LambdaTerm::Variable { var } => var.is_valid(),
            LambdaTerm::Abstraction { var, body } => var.is_valid() && body.is_well_formed(),
            LambdaTerm::Application { func, arg } => func.is_well_formed()
                && arg.is_well_formed(),
        }
    }

    /// The canonical text of the term.
    pub fn render(&self) -> (s: String)
        ensures
            s@ == self@.render(),
        decreases self,
    {
        match self {
            LambdaTerm::Variable { var } => var.render(),
            LambdaTerm::Abstraction { var, body } => {
                let mut s = String::from_str("(\\");
                proof {
                    reveal_strlit("(\\");
                    reveal_strlit(".");
                    reveal_strlit(")");
                }
                assert("(\\"@ =~= seq!['(', '\\']);
                assert("."@ =~= seq!['.']);
                assert(")"@ =~= seq![')']);
                s.append(var.as_str());
                s.append(".");
                let b = body.render();
                s.append(b.as_str());
                s.append(")");
                s
            },
            LambdaTerm::Application { func, arg } => {
                let mut s = String::from_str("(");
                proof {
                    reveal_strlit("(");
                    reveal_strlit("$");
                    reveal_strlit(")");
                }
                assert("("@ =~= seq!['(']);
                assert("$"@ =~= seq!['$']);
                assert(")"@ =~= seq![')']);
                let f = func.render();
                s.append(f.as_str());
                s.append("$");
                let a = arg.render();
                s.append(a.as_str());
                s.append(")");
                s
            },
        }
    }
}

impl PartialEq for LambdaTerm {
    fn eq(&self, other: &Self) -> (r: bool)
        decreases self,
    {
        match (self, other) {
            (LambdaTerm::Variable { var: a }, LambdaTerm::Variable { var: b }) => a == b,
            (
                LambdaTerm::Abstraction { var: a, body: m },
                LambdaTerm::Abstraction { var: b, body: n },
            ) => a == b && **m == **n,
            (
                LambdaTerm::Application { func: f, arg: a },
                LambdaTerm::Application { func: g, arg: b },
            ) => **f == **g && **a == **b,
            _ => false,
        }
    }
}

impl vstd::std_specs::cmp::PartialEqSpecImpl for LambdaTerm {
    open spec fn obeys_eq_spec() -> bool {
        true
    }

    open spec fn eq_spec(&self, other: &Self) -> bool {
        self@ == other@
    }
}

} // verus!
