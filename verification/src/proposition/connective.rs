//! Connectives as values of their own: each kind of connective is a type
//! that is built from its operands and turns into a formula.

use crate::proposition::{Formula, Proposition};
use vstd::prelude::*;

verus! {

/// Why a connective could not be built.
#[derive(Debug)]
pub enum PropositionError {
    /// The number of operands handed in is not the connective's arity.
    /// Carries a sentence that names the connective, its arity and the
    /// number given.
    IncorrectNumberOfArguments(String),
}

/// The formulas that a list of propositions stands for.
pub open spec fn formulas_of(propositions: Seq<Proposition>) -> Seq<Formula> {
    Seq::new(propositions.len(), |i: int| propositions[i]@)
}

/// The formulas that a list of operands stands for.
pub open spec fn formulas_of_operands<T: Operand>(operands: Seq<T>) -> Seq<Formula> {
    Seq::new(operands.len(), |i: int| operands[i].formula())
}

/// What a connective can be built over: a value that stands for a formula
/// and turns into it.
pub trait Operand: Sized {
    /// The formula that this value stands for.
    spec fn formula(&self) -> Formula;

    /// The value as a formula.
    fn to_proposition(self) -> (proposition: Proposition)
        ensures
            proposition@ == self.formula(),
    ;
}

/// A connective together with its operands.
pub trait Connective: Operand {
    /// The number of operands that this kind of connective takes.
    spec fn operands() -> nat;

    /// The formula that this kind of connective makes of its operands,
    /// given in order.
    spec fn assemble(operands: Seq<Formula>) -> Formula;

    /// The sentence that refuses a wrong number of operands.
    spec fn refusal(given: nat) -> Seq<char>;

    /// References to the operands, in order.
    fn content(&self) -> (content: Vec<&Proposition>)
        ensures
            content@.len() == self.formula().content().len(),
            forall|i: int|
                0 <= i < content@.len() ==> (#[trigger] content@[i])@ == self.formula().content()[i],
    ;

    /// The depth of the deepest connective or quantifier, this one counted.
    fn complexity(&self) -> (depth: usize)
        requires
            self.formula().complexity() <= usize::MAX,
        ensures
            depth == self.formula().complexity(),
    ;

    /// The connective's symbol.
    fn symbol(&self) -> (symbol: Option<char>)
        ensures
            symbol == self.formula().symbol(),
    ;

    /// The connective's word.
    fn word(&self) -> (word: Option<String>)
        ensures
            match word {
                Some(w) => self.formula().word() == Some(w@),
                None => self.formula().word() is None,
            },
    ;

    /// The number of operands.
    fn arity(&self) -> (arity: usize)
        ensures
            arity == Self::operands(),
    ;

    /// Builds the connective over the given propositions, which become its
    /// operands in the order given. Any other number of propositions than
    /// the connective's arity is refused.
    fn from_propositions(propositions: Vec<Proposition>) -> (result: Result<
        Box<Self>,
        PropositionError,
    >)
        ensures
            match result {
                Ok(connective) => {
                    &&& propositions.len() == Self::operands()
                    &&& connective.formula() == Self::assemble(formulas_of(propositions@))
                },
                Err(error) => {
                    &&& propositions.len() != Self::operands()
                    &&& error matches PropositionError::IncorrectNumberOfArguments(message)
                    &&& message@ == Self::refusal(propositions.len() as nat)
                },
            },
    ;

    /// Builds the connective over the formulas of the given connectives,
    /// in the order given.
    fn from_connectives<T: Operand>(connectives: Vec<T>) -> (result: Result<
        Box<Self>,
        PropositionError,
    >)
        ensures
            match result {
                Ok(connective) => {
                    &&& connectives.len() == Self::operands()
                    &&& connective.formula() == Self::assemble(
                        formulas_of_operands(connectives@),
                    )
                },
                Err(error) => {
                    &&& connectives.len() != Self::operands()
                    &&& error matches PropositionError::IncorrectNumberOfArguments(message)
                    &&& message@ == Self::refusal(connectives.len() as nat)
                },
            },
    ;
}

} // verus!
