//! Formulas: the data model, its structural queries and substitution.

pub mod canonical;
pub mod conditional;
pub mod conjunction;
pub mod connective;
pub mod create;
pub mod disjunction;
pub mod negation;
pub mod scan;

use crate::proposition::create::{
    outcome, parsed, proposition_from_string, PropositionCreationError,
};
use crate::proposition::scan::{
    get_names, get_variables, names_in, set_name, substituted, variables_in,
};
use crate::text::texts;
use vstd::prelude::*;
use vstd::std_specs::cmp::PartialEqSpecImpl;

verus! {

/// The mathematical model of a formula: a finite tree whose leaves carry the
/// text of an atom and whose inner nodes are connectives or quantifiers.
pub enum Formula {
    Atom(Seq<char>),
    Negation(Box<Formula>),
    Conditional(Box<Formula>, Box<Formula>),
    Conjunction(Box<Formula>, Box<Formula>),
    Disjunction(Box<Formula>, Box<Formula>),
    Existential(Seq<char>, Box<Formula>),
    Universal(Seq<char>, Box<Formula>),
}

impl Formula {
    /// The length of the longest path of connectives and quantifiers from
    /// the root down to an atom.
    pub open spec fn complexity(self) -> nat
        decreases self,
    {
        match self {
            Formula::Atom(_) => 0,
            Formula::Negation(negatum) => 1 + negatum.complexity(),
            Formula::Conditional(left, right) => 1 + vstd::math::max(
                left.complexity() as int,
                right.complexity() as int,
            ) as nat,
            Formula::Conjunction(left, right) => 1 + vstd::math::max(
                left.complexity() as int,
                right.complexity() as int,
            ) as nat,
            Formula::Disjunction(left, right) => 1 + vstd::math::max(
                left.complexity() as int,
                right.complexity() as int,
            ) as nat,
            Formula::Existential(_, predicate) => 1 + predicate.complexity(),
            Formula::Universal(_, predicate) => 1 + predicate.complexity(),
        }
    }

    /// A formula is atomic when it carries no connective and no quantifier.
    pub open spec fn is_atomic(self) -> bool {
        self is Atom
    }

    /// The constants mentioned in the atoms of the formula, left to right.
    pub open spec fn names(self) -> Seq<Seq<char>>
        decreases self,
    {
        match self {
            Formula::Atom(atom) => names_in(atom),
            Formula::Negation(negatum) => negatum.names(),
            Formula::Conditional(left, right) => left.names() + right.names(),
            Formula::Conjunction(left, right) => left.names() + right.names(),
            Formula::Disjunction(left, right) => left.names() + right.names(),
            Formula::Existential(_, predicate) => predicate.names(),
            Formula::Universal(_, predicate) => predicate.names(),
        }
    }

    /// The variables mentioned in the atoms of the formula, left to right.
    pub open spec fn variables(self) -> Seq<Seq<char>>
        decreases self,
    {
        match self {
            Formula::Atom(atom) => variables_in(atom),
            Formula::Negation(negatum) => negatum.variables(),
            Formula::Conditional(left, right) => left.variables() + right.variables(),
            Formula::Conjunction(left, right) => left.variables() + right.variables(),
            Formula::Disjunction(left, right) => left.variables() + right.variables(),
            Formula::Existential(_, predicate) => predicate.variables(),
            Formula::Universal(_, predicate) => predicate.variables(),
        }
    }

    /// The formula with `<variable>` replaced by `<name>` in the text of
    /// every atom. The shape of the tree and the variables that its
    /// quantifiers bind stay as they are; a quantifier inside the formula
    /// that binds `variable` again does not stop the replacement.
    pub open spec fn instantiate(self, variable: Seq<char>, name: Seq<char>) -> Formula
        decreases self,
    {
        match self {
            Formula::Atom(atom) => Formula::Atom(substituted(atom, variable, name)),
            Formula::Negation(negatum) => Formula::Negation(
                Box::new(negatum.instantiate(variable, name)),
            ),
            Formula::Conditional(left, right) => Formula::Conditional(
                Box::new(left.instantiate(variable, name)),
                Box::new(right.instantiate(variable, name)),
            ),
            Formula::Conjunction(left, right) => Formula::Conjunction(
                Box::new(left.instantiate(variable, name)),
                Box::new(right.instantiate(variable, name)),
            ),
            Formula::Disjunction(left, right) => Formula::Disjunction(
                Box::new(left.instantiate(variable, name)),
                Box::new(right.instantiate(variable, name)),
            ),
            Formula::Existential(bound, predicate) => Formula::Existential(
                bound,
                Box::new(predicate.instantiate(variable, name)),
            ),
            Formula::Universal(bound, predicate) => Formula::Universal(
                bound,
                Box::new(predicate.instantiate(variable, name)),
            ),
        }
    }

    /// The formulas directly below the root; an atom is its own content.
    pub open spec fn content(self) -> Seq<Formula> {
        match self {
            Formula::Atom(_) => seq![self],
            Formula::Negation(negatum) => seq![*negatum],
            Formula::Conditional(left, right) => seq![*left, *right],
            Formula::Conjunction(left, right) => seq![*left, *right],
            Formula::Disjunction(left, right) => seq![*left, *right],
            Formula::Existential(_, predicate) => seq![*predicate],
            Formula::Universal(_, predicate) => seq![*predicate],
        }
    }

    /// The symbol of the connective or quantifier at the root.
    pub open spec fn symbol(self) -> Option<char> {
        match self {
            Formula::Atom(_) => None,
            Formula::Negation(_) => Some('~'),
            Formula::Conditional(_, _) => Some('>'),
            Formula::Conjunction(_, _) => Some('&'),
            Formula::Disjunction(_, _) => Some('v'),
            Formula::Existential(_, _) => Some(EXISTS),
            Formula::Universal(_, _) => Some(FOR_ALL),
        }
    }

    /// The word for the connective or quantifier at the root.
    pub open spec fn word(self) -> Option<Seq<char>> {
        match self {
            Formula::Atom(_) => None,
            Formula::Negation(_) => Some("not"@),
            Formula::Conditional(_, _) => Some("implies"@),
            Formula::Conjunction(_, _) => Some("and"@),
            Formula::Disjunction(_, _) => Some("or"@),
            Formula::Existential(_, _) => Some("exists"@),
            Formula::Universal(_, _) => Some("forall"@),
        }
    }

    /// The canonical text of the formula: an atom as it is, a negation as
    /// `~(A)`, a binary connective as `(A & B)`, `(A v B)` or `(A > B)`,
    /// and a quantifier as its symbol, its variable and the predicate in
    /// parentheses.
    pub open spec fn render(self) -> Seq<char>
        decreases self,
    {
        match self {
            Formula::Atom(atom) => atom,
            Formula::Negation(negatum) => seq!['~', '('] + negatum.render() + seq![')'],
            Formula::Conditional(left, right) => infix(left.render(), '>', right.render()),
            Formula::Conjunction(left, right) => infix(left.render(), '&', right.render()),
            Formula::Disjunction(left, right) => infix(left.render(), 'v', right.render()),
            Formula::Existential(variable, predicate) => seq![EXISTS] + variable + seq!['(']
                + predicate.render() + seq![')'],
            Formula::Universal(variable, predicate) => seq![FOR_ALL] + variable + seq!['(']
                + predicate.render() + seq![')'],
        }
    }
}

/// An atom has complexity zero, a formula with one operand one more than
/// its operand, and a formula with two operands one more than the more
/// complex of the two.
pub proof fn lemma_complexity(formula: Formula)
    ensures
        formula.is_atomic() <==> formula.complexity() == 0,
        match formula {
            Formula::Atom(_) => formula.complexity() == 0,
            Formula::Negation(negatum) => formula.complexity() == 1 + negatum.complexity(),
            Formula::Existential(_, predicate) => formula.complexity() == 1
                + predicate.complexity(),
            Formula::Universal(_, predicate) => formula.complexity() == 1 + predicate.complexity(),
            Formula::Conditional(left, right) => {
                &&& formula.complexity() >= 1 + left.complexity()
                &&& formula.complexity() >= 1 + right.complexity()
                &&& formula.complexity() == 1 + left.complexity() || formula.complexity() == 1
                    + right.complexity()
            },
            Formula::Conjunction(left, right) => {
                &&& formula.complexity() >= 1 + left.complexity()
                &&& formula.complexity() >= 1 + right.complexity()
                &&& formula.complexity() == 1 + left.complexity() || formula.complexity() == 1
                    + right.complexity()
            },
            Formula::Disjunction(left, right) => {
                &&& formula.complexity() >= 1 + left.complexity()
                &&& formula.complexity() >= 1 + right.complexity()
                &&& formula.complexity() == 1 + left.complexity() || formula.complexity() == 1
                    + right.complexity()
            },
        },
{
}

/// Putting a name in place of a variable keeps the shape of a formula, and
/// with it the complexity.
pub proof fn lemma_instantiate_keeps_complexity(
    formula: Formula,
    variable: Seq<char>,
    name: Seq<char>,
)
    ensures
        formula.instantiate(variable, name).complexity() == formula.complexity(),
    decreases formula,
{
    match formula {
        Formula::Atom(_) => {},
        Formula::Negation(negatum) => {
            lemma_instantiate_keeps_complexity(*negatum, variable, name);
        },
        Formula::Conditional(left, right) => {
            lemma_instantiate_keeps_complexity(*left, variable, name);
            lemma_instantiate_keeps_complexity(*right, variable, name);
        },
        Formula::Conjunction(left, right) => {
            lemma_instantiate_keeps_complexity(*left, variable, name);
            lemma_instantiate_keeps_complexity(*right, variable, name);
        },
        Formula::Disjunction(left, right) => {
            lemma_instantiate_keeps_complexity(*left, variable, name);
            lemma_instantiate_keeps_complexity(*right, variable, name);
        },
        Formula::Existential(_, predicate) => {
            lemma_instantiate_keeps_complexity(*predicate, variable, name);
        },
        Formula::Universal(_, predicate) => {
            lemma_instantiate_keeps_complexity(*predicate, variable, name);
        },
    }
}

/// The existential quantifier's symbol, a reversed E.
pub const EXISTS: char = '\u{2203}';

/// The universal quantifier's symbol, an inverted A.
pub const FOR_ALL: char = '\u{2200}';

/// Two texts around a connective's symbol, in parentheses: `(left op right)`.
pub open spec fn infix(left: Seq<char>, symbol: char, right: Seq<char>) -> Seq<char> {
    seq!['('] + left + seq![' ', symbol, ' '] + right + seq![')']
}

/// A formula of first-order logic.
#[derive(Debug)]
pub enum Proposition {
    Atom(String),
    Negation(Box<Proposition>),
    Conditional(Box<Proposition>, Box<Proposition>),
    Conjunction(Box<Proposition>, Box<Proposition>),
    Disjunction(Box<Proposition>, Box<Proposition>),
    Existential(String, Box<Proposition>),
    Universal(String, Box<Proposition>),
}

impl View for Proposition {
    type V = Formula;

    open spec fn view(&self) -> Formula
        decreases self,
    {
        match self {
            Proposition::Atom(atom) => Formula::Atom(atom@),
            Proposition::Negation(negatum) => Formula::Negation(Box::new((**negatum).view())),
            Proposition::Conditional(left, right) => Formula::Conditional(
                Box::new((**left).view()),
                Box::new((**right).view()),
            ),
            Proposition::Conjunction(left, right) => Formula::Conjunction(
                Box::new((**left).view()),
                Box::new((**right).view()),
            ),
            Proposition::Disjunction(left, right) => Formula::Disjunction(
                Box::new((**left).view()),
                Box::new((**right).view()),
            ),
            Proposition::Existential(variable, predicate) => Formula::Existential(
                variable@,
                Box::new((**predicate).view()),
            ),
            Proposition::Universal(variable, predicate) => Formula::Universal(
                variable@,
                Box::new((**predicate).view()),
            ),
        }
    }
}

impl Proposition {
    /// The depth of the deepest connective or quantifier.
    pub fn complexity(&self) -> (depth: usize)
        requires
            self@.complexity() <= usize::MAX,
        ensures
            depth == self@.complexity(),
        decreases self,
    {
        match self {
            Proposition::Atom(_) => 0,
            Proposition::Negation(negatum) => 1 + negatum.complexity(),
            Proposition::Conditional(left, right) => 1 + larger(
                left.complexity(),
                right.complexity(),
            ),
            Proposition::Conjunction(left, right) => 1 + larger(
                left.complexity(),
                right.complexity(),
            ),
            Proposition::Disjunction(left, right) => 1 + larger(
                left.complexity(),
                right.complexity(),
            ),
            Proposition::Existential(_, predicate) => 1 + predicate.complexity(),
            Proposition::Universal(_, predicate) => 1 + predicate.complexity(),
        }
    }

    /// The constants mentioned anywhere in the formula: every `<name>` of
    /// two or more lowercase letters in the text of an atom, left to right.
    pub fn names(&self) -> (names: Vec<String>)
        ensures
            texts(names@) == self@.names(),
        decreases self,
    {
        match self {
            Proposition::Atom(atom) => get_names(atom),
            Proposition::Negation(negatum) => negatum.names(),
            Proposition::Conditional(left, right) => concat(left.names(), right.names()),
            Proposition::Conjunction(left, right) => concat(left.names(), right.names()),
            Proposition::Disjunction(left, right) => concat(left.names(), right.names()),
            Proposition::Existential(_, predicate) => predicate.names(),
            Proposition::Universal(_, predicate) => predicate.names(),
        }
    }

    /// The variables mentioned anywhere in the formula: every `<x>` of one
    /// lowercase letter in the text of an atom, left to right.
    pub fn variables(&self) -> (variables: Vec<String>)
        ensures
            texts(variables@) == self@.variables(),
        decreases self,
    {
        match self {
            Proposition::Atom(atom) => get_variables(atom),
            Proposition::Negation(negatum) => negatum.variables(),
            Proposition::Conditional(left, right) => concat(left.variables(), right.variables()),
            Proposition::Conjunction(left, right) => concat(left.variables(), right.variables()),
            Proposition::Disjunction(left, right) => concat(left.variables(), right.variables()),
            Proposition::Existential(_, predicate) => predicate.variables(),
            Proposition::Universal(_, predicate) => predicate.variables(),
        }
    }

    /// Replaces `<var>` by `<name>` in the text of every atom.
    pub fn instantiate(&mut self, var: &String, name: &String)
        ensures
            final(self)@ == old(self)@.instantiate(var@, name@),
        decreases *old(self),
    {
        match self {
            Proposition::Atom(atom) => set_name(atom, var, name),
            Proposition::Negation(negatum) => negatum.instantiate(var, name),
            Proposition::Conditional(left, right) => {
                left.instantiate(var, name);
                right.instantiate(var, name);
            },
            Proposition::Conjunction(left, right) => {
                left.instantiate(var, name);
                right.instantiate(var, name);
            },
            Proposition::Disjunction(left, right) => {
                left.instantiate(var, name);
                right.instantiate(var, name);
            },
            Proposition::Existential(_, predicate) => predicate.instantiate(var, name),
            Proposition::Universal(_, predicate) => predicate.instantiate(var, name),
        }
    }

    /// References to the formulas directly below the root. An atom has no
    /// formula below it and hands out itself.
    pub fn content(&self) -> (content: Vec<&Proposition>)
        ensures
            content@.len() == self@.content().len(),
            forall|i: int| 0 <= i < content@.len() ==> (#[trigger] content@[i])@ == self@.content()[i],
    {
        let mut content: Vec<&Proposition> = Vec::new();
        match self {
            Proposition::Atom(_) => {
                content.push(self);
            },
            Proposition::Negation(negatum) => {
                content.push(&**negatum);
            },
            Proposition::Conditional(left, right) => {
                content.push(&**left);
                content.push(&**right);
            },
            Proposition::Conjunction(left, right) => {
                content.push(&**left);
                content.push(&**right);
            },
            Proposition::Disjunction(left, right) => {
                content.push(&**left);
                content.push(&**right);
            },
            Proposition::Existential(_, predicate) => {
                content.push(&**predicate);
            },
            Proposition::Universal(_, predicate) => {
                content.push(&**predicate);
            },
        }
        content
    }

    /// The symbol of the connective or quantifier at the root; none for an
    /// atom.
    pub fn symbol(&self) -> (symbol: Option<char>)
        ensures
            symbol == self@.symbol(),
    {
        match self {
            Proposition::Atom(_) => None,
            Proposition::Negation(_) => Some('~'),
            Proposition::Conditional(_, _) => Some('>'),
            Proposition::Conjunction(_, _) => Some('&'),
            Proposition::Disjunction(_, _) => Some('v'),
            Proposition::Existential(_, _) => Some(EXISTS),
            Proposition::Universal(_, _) => Some(FOR_ALL),
        }
    }

    /// The word for the connective or quantifier at the root; none for an
    /// atom.
    pub fn word(&self) -> (word: Option<String>)
        ensures
            match word {
                Some(w) => self@.word() == Some(w@),
                None => self@.word() is None,
            },
    {
        match self {
            Proposition::Atom(_) => None,
            Proposition::Negation(_) => Some("not".to_owned()),
            Proposition::Conditional(_, _) => Some("implies".to_owned()),
            Proposition::Conjunction(_, _) => Some("and".to_owned()),
            Proposition::Disjunction(_, _) => Some("or".to_owned()),
            Proposition::Existential(_, _) => Some("exists".to_owned()),
            Proposition::Universal(_, _) => Some("forall".to_owned()),
        }
    }

    /// The canonical text of the formula.
    pub fn to_string(&self) -> (text: String)
        ensures
            text@ == self@.render(),
        decreases self,
    {
        match self {
            Proposition::Atom(atom) => atom.clone(),
            Proposition::Negation(negatum) => {
                let mut text = String::new();
                text.push('~');
                text.push('(');
                text.append(negatum.to_string().as_str());
                text.push(')');
                text
            },
            Proposition::Conditional(left, right) => write_infix(
                left.to_string(),
                '>',
                right.to_string(),
            ),
            Proposition::Conjunction(left, right) => write_infix(
                left.to_string(),
                '&',
                right.to_string(),
            ),
            Proposition::Disjunction(left, right) => write_infix(
                left.to_string(),
                'v',
                right.to_string(),
            ),
            Proposition::Existential(variable, predicate) => write_quantified(
                EXISTS,
                variable,
                predicate.to_string(),
            ),
            Proposition::Universal(variable, predicate) => write_quantified(
                FOR_ALL,
                variable,
                predicate.to_string(),
            ),
        }
    }

    /// Reads a text as a formula. Each sub-formula stands in parentheses,
    /// of which the outermost pair may be left out; the order of the
    /// operands is kept.
    pub fn from_string(string: String) -> (result: Result<Self, PropositionCreationError>)
        ensures
            outcome(result) == parsed(string@),
            result matches Ok(proposition) ==> proposition@.complexity() <= usize::MAX,
    {
        proposition_from_string(string)
    }

    /// Whether two formulas are the same tree with the same texts.
    pub fn same_as(&self, other: &Proposition) -> (same: bool)
        ensures
            same == (self@ == other@),
        decreases self,
    {
        match self {
            Proposition::Atom(a) => match other {
                Proposition::Atom(b) => *a == *b,
                _ => false,
            },
            Proposition::Negation(a) => match other {
                Proposition::Negation(b) => a.same_as(b),
                _ => false,
            },
            Proposition::Conditional(a, b) => match other {
                Proposition::Conditional(c, d) => a.same_as(c) && b.same_as(d),
                _ => false,
            },
            Proposition::Conjunction(a, b) => match other {
                Proposition::Conjunction(c, d) => a.same_as(c) && b.same_as(d),
                _ => false,
            },
            Proposition::Disjunction(a, b) => match other {
                Proposition::Disjunction(c, d) => a.same_as(c) && b.same_as(d),
                _ => false,
            },
            Proposition::Existential(v, a) => match other {
                Proposition::Existential(w, b) => *v == *w && a.same_as(b),
                _ => false,
            },
            Proposition::Universal(v, a) => match other {
                Proposition::Universal(w, b) => *v == *w && a.same_as(b),
                _ => false,
            },
        }
    }
}

/// Writes `(left symbol right)`.
fn write_infix(left: String, symbol: char, right: String) -> (text: String)
    ensures
        text@ == infix(left@, symbol, right@),
{
    let mut text = String::new();
    text.push('(');
    text.append(left.as_str());
    text.push(' ');
    text.push(symbol);
    text.push(' ');
    text.append(right.as_str());
    text.push(')');
    proof {
        assert(text@ == infix(left@, symbol, right@));
    }
    text
}

/// Writes a quantifier's symbol, its variable and the predicate in
/// parentheses.
fn write_quantified(symbol: char, variable: &String, predicate: String) -> (text: String)
    ensures
        text@ == seq![symbol] + variable@ + seq!['('] + predicate@ + seq![')'],
{
    let mut text = String::new();
    text.push(symbol);
    text.append(variable.as_str());
    text.push('(');
    text.append(predicate.as_str());
    text.push(')');
    proof {
        assert(text@ == seq![symbol] + variable@ + seq!['('] + predicate@ + seq![')']);
    }
    text
}

/// One list of texts followed by another.
fn concat(first: Vec<String>, second: Vec<String>) -> (both: Vec<String>)
    ensures
        texts(both@) == texts(first@) + texts(second@),
{
    let mut both = first;
    let mut rest = second;
    both.append(&mut rest);
    proof {
        assert(texts(both@) == texts(first@) + texts(second@));
    }
    both
}

/// The larger of two numbers.
pub(crate) fn larger(a: usize, b: usize) -> (m: usize)
    ensures
        m == vstd::math::max(a as int, b as int),
{
    if a >= b {
        a
    } else {
        b
    }
}

impl Clone for Proposition {
    /// A deep copy: a separate tree that denotes the same formula.
    fn clone(&self) -> (copy: Self)
        ensures
            copy@ == self@,
        decreases self,
    {
        match self {
            Proposition::Atom(atom) => Proposition::Atom(atom.clone()),
            Proposition::Negation(negatum) => Proposition::Negation(Box::new((**negatum).clone())),
            Proposition::Conditional(left, right) => Proposition::Conditional(
                Box::new((**left).clone()),
                Box::new((**right).clone()),
            ),
            Proposition::Conjunction(left, right) => Proposition::Conjunction(
                Box::new((**left).clone()),
                Box::new((**right).clone()),
            ),
            Proposition::Disjunction(left, right) => Proposition::Disjunction(
                Box::new((**left).clone()),
                Box::new((**right).clone()),
            ),
            Proposition::Existential(variable, predicate) => Proposition::Existential(
                variable.clone(),
                Box::new((**predicate).clone()),
            ),
            Proposition::Universal(variable, predicate) => Proposition::Universal(
                variable.clone(),
                Box::new((**predicate).clone()),
            ),
        }
    }
}

impl PartialEq for Proposition {
    fn eq(&self, other: &Proposition) -> (same: bool) {
        self.same_as(other)
    }
}

impl PartialEqSpecImpl for Proposition {
    open spec fn obeys_eq_spec() -> bool {
        true
    }

    open spec fn eq_spec(&self, other: &Proposition) -> bool {
        self@ == other@
    }
}

} // verus!
