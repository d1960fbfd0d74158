//! The negation as a value of its own.

use crate::proposition::connective::{Connective, Operand, PropositionError};
use crate::proposition::{Formula, Proposition};
use crate::text::{decimal, decimal_text};
use vstd::prelude::*;

verus! {

/// The negation of a formula.
#[derive(Debug)]
pub struct Negation {
    negatum: Box<Proposition>,
}

impl Negation {
    /// The formula that is negated.
    pub fn negatum(&self) -> (negatum: &Box<Proposition>)
        ensures
            self.formula() == Formula::Negation(Box::new(negatum@)),
    {
        &self.negatum
    }

    /// Refuses a wrong number of operands.
    fn refuse(given: usize) -> (error: PropositionError)
        ensures
            error matches PropositionError::IncorrectNumberOfArguments(message) && message@
                == Self::refusal(given as nat),
    {
        let mut message = "Negation requires 1 subproposition, not ".to_owned();
        message.append(decimal_text(given).as_str());
        PropositionError::IncorrectNumberOfArguments(message)
    }
}

impl Operand for Negation {
    closed spec fn formula(&self) -> Formula {
        Formula::Negation(Box::new(self.negatum@))
    }

    fn to_proposition(self) -> (proposition: Proposition) {
        Proposition::Negation(self.negatum)
    }
}

impl Connective for Negation {
    open spec fn operands() -> nat {
        1
    }

    open spec fn assemble(operands: Seq<Formula>) -> Formula {
        Formula::Negation(Box::new(operands[0]))
    }

    open spec fn refusal(given: nat) -> Seq<char> {
        "Negation requires 1 subproposition, not "@ + decimal(given)
    }

    fn content(&self) -> (content: Vec<&Proposition>) {
        let mut content: Vec<&Proposition> = Vec::new();
        content.push(&*self.negatum);
        content
    }

    fn complexity(&self) -> (depth: usize) {
        1 + self.negatum.complexity()
    }

    fn symbol(&self) -> (symbol: Option<char>) {
        Some('~')
    }

    fn word(&self) -> (word: Option<String>) {
        Some("not".to_owned())
    }

    fn arity(&self) -> (arity: usize) {
        1
    }

    fn from_propositions(propositions: Vec<Proposition>) -> (result: Result<
        Box<Self>,
        PropositionError,
    >) {
        let mut propositions = propositions;
        let given = propositions.len();
        if given != 1 {
            return Err(Self::refuse(given));
        }
        let negatum = Box::new(propositions.remove(0));
        Ok(Box::new(Negation { negatum }))
    }

    fn from_connectives<T: Operand>(connectives: Vec<T>) -> (result: Result<
        Box<Self>,
        PropositionError,
    >) {
        let mut connectives = connectives;
        let given = connectives.len();
        if given != 1 {
            return Err(Self::refuse(given));
        }
        let negatum = Box::new(connectives.remove(0).to_proposition());
        Ok(Box::new(Negation { negatum }))
    }
}

} // verus!
