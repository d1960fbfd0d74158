//! The conditional as a value of its own.

use crate::proposition::connective::{Connective, Operand, PropositionError};
use crate::proposition::{larger, Formula, Proposition};
use crate::text::{decimal, decimal_text};
use vstd::prelude::*;

verus! {

/// The conditional from one formula to another.
#[derive(Debug)]
pub struct Conditional {
    left: Box<Proposition>,
    right: Box<Proposition>,
}

impl Conditional {
    /// The antecedent of the conditional.
    pub fn left(&self) -> (left: &Box<Proposition>)
        ensures
            self.formula() matches Formula::Conditional(l, _) && *l == left@,
    {
        &self.left
    }

    /// The consequent of the conditional.
    pub fn right(&self) -> (right: &Box<Proposition>)
        ensures
            self.formula() matches Formula::Conditional(_, r) && *r == right@,
    {
        &self.right
    }

    /// Refuses a wrong number of operands.
    fn refuse(given: usize) -> (error: PropositionError)
        ensures
            error matches PropositionError::IncorrectNumberOfArguments(message) && message@
                == Self::refusal(given as nat),
    {
        let mut message = "Conditional requires 2 subpropositions, not ".to_owned();
        message.append(decimal_text(given).as_str());
        PropositionError::IncorrectNumberOfArguments(message)
    }
}

impl Operand for Conditional {
    closed spec fn formula(&self) -> Formula {
        Formula::Conditional(Box::new(self.left@), Box::new(self.right@))
    }

    fn to_proposition(self) -> (proposition: Proposition) {
        Proposition::Conditional(self.left, self.right)
    }
}

impl Connective for Conditional {
    open spec fn operands() -> nat {
        2
    }

    open spec fn assemble(operands: Seq<Formula>) -> Formula {
        Formula::Conditional(Box::new(operands[0]), Box::new(operands[1]))
    }

    open spec fn refusal(given: nat) -> Seq<char> {
        "Conditional requires 2 subpropositions, not "@ + decimal(given)
    }

    fn content(&self) -> (content: Vec<&Proposition>) {
        let mut content: Vec<&Proposition> = Vec::new();
        content.push(&*self.left);
        content.push(&*self.right);
        content
    }

    fn complexity(&self) -> (depth: usize) {
        1 + larger(self.left.complexity(), self.right.complexity())
    }

    fn symbol(&self) -> (symbol: Option<char>) {
        Some('>')
    }

    fn word(&self) -> (word: Option<String>) {
        Some("implies".to_owned())
    }

    fn arity(&self) -> (arity: usize) {
        2
    }

    fn from_propositions(propositions: Vec<Proposition>) -> (result: Result<
        Box<Self>,
        PropositionError,
    >) {
        let mut propositions = propositions;
        let given = propositions.len();
        if given != 2 {
            return Err(Self::refuse(given));
        }
        let left = Box::new(propositions.remove(0));
        let right = Box::new(propositions.remove(0));
        Ok(Box::new(Conditional { left, right }))
    }

    fn from_connectives<T: Operand>(connectives: Vec<T>) -> (result: Result<
        Box<Self>,
        PropositionError,
    >) {
        let mut connectives = connectives;
        let given = connectives.len();
        if given != 2 {
            return Err(Self::refuse(given));
        }
        let left = Box::new(connectives.remove(0).to_proposition());
        let right = Box::new(connectives.remove(0).to_proposition());
        Ok(Box::new(Conditional { left, right }))
    }
}

} // verus!
