//! Sequents from text.
//!
//! A sequent is written as two lists of formulas with a turnstile between
//! them, `A, B |~ C, D`: the antecedent to the left, the consequent to the
//! right. The formulas of a list are separated by commas; spaces around a
//! formula do not count. A side without any text is a side without formulas.

use crate::proposition::connective::formulas_of;
use crate::proposition::create::{
    lemma_parsed_complexity, outcome, parsed, proposition_from_string, CreationFault,
    PropositionCreationError,
};
use crate::proposition::{Formula, Proposition};
use crate::sequent::{total_complexity, Judgment, Sequent};
use crate::text::{
    chars_of, lemma_pieces_length, lemma_trimmed_length, pieces, split_at, string_of, texts,
    total_length, trim, trimmed,
};
use vstd::prelude::*;

verus! {

/// Why a text is not a sequent.
#[derive(Debug)]
pub enum SequentError {
    /// The text holds no turnstile.
    TooFewTurnstiles,
    /// The text holds more than one turnstile.
    TooManyTurnstiles,
    /// One of the formulas could not be read. Carries what the formula
    /// parser said of the first such formula.
    PropositionError(PropositionCreationError),
}

/// The model of a [`SequentError`].
pub enum SequentFault {
    TooFewTurnstiles,
    TooManyTurnstiles,
    PropositionError(CreationFault),
}

impl View for SequentError {
    type V = SequentFault;

    open spec fn view(&self) -> SequentFault {
        match self {
            SequentError::TooFewTurnstiles => SequentFault::TooFewTurnstiles,
            SequentError::TooManyTurnstiles => SequentFault::TooManyTurnstiles,
            SequentError::PropositionError(error) => SequentFault::PropositionError(error@),
        }
    }
}

/// Why a text is not a sequent, in short.
#[derive(Debug, Clone, Copy, PartialEq, Eq, Structural)]
pub enum SequentCreationError {
    /// The text does not hold exactly one turnstile.
    IncorrectNumberOfTurnstiles,
    /// One of the formulas could not be read.
    ErrorConvertingPropositions,
}

/// The short form of a fault.
pub open spec fn in_short(fault: SequentFault) -> SequentCreationError {
    match fault {
        SequentFault::PropositionError(_) => SequentCreationError::ErrorConvertingPropositions,
        _ => SequentCreationError::IncorrectNumberOfTurnstiles,
    }
}

/// Whether a turnstile, `|~`, starts at index `i`.
pub open spec fn turnstile_at(s: Seq<char>, i: int) -> bool {
    &&& 0 <= i
    &&& i + 1 < s.len()
    &&& s[i] == '|'
    &&& s[i + 1] == '~'
}

/// The number of turnstiles from index `from` on.
pub open spec fn turnstiles(s: Seq<char>, from: int) -> nat
    decreases s.len() - from,
{
    if from < 0 || from >= s.len() {
        0
    } else if turnstile_at(s, from) {
        1 + turnstiles(s, from + 2)
    } else {
        turnstiles(s, from + 1)
    }
}

/// The index of the first turnstile from index `from` on; the length of
/// the text if there is none.
pub open spec fn first_turnstile(s: Seq<char>, from: int) -> int
    decreases s.len() - from,
{
    if from < 0 || from >= s.len() {
        s.len() as int
    } else if turnstile_at(s, from) {
        from
    } else {
        first_turnstile(s, from + 1)
    }
}

/// The formulas that the given texts stand for, once the spaces at the
/// ends of each text are gone. The first text that is no formula fails
/// them all.
pub open spec fn each_parsed(texts: Seq<Seq<char>>) -> Result<Seq<Formula>, CreationFault>
    decreases texts.len(),
{
    if texts.len() == 0 {
        Ok(Seq::empty())
    } else {
        match each_parsed(texts.drop_last()) {
            Err(fault) => Err(fault),
            Ok(formulas) => match parsed(trimmed(texts.last())) {
                Err(fault) => Err(fault),
                Ok(formula) => Ok(formulas.push(formula)),
            },
        }
    }
}

/// The formulas that one side of a sequent stands for: none for a side
/// that is empty but for spaces, else the formulas between its commas.
pub open spec fn side_parsed(s: Seq<char>) -> Result<Seq<Formula>, CreationFault> {
    if trimmed(s).len() == 0 {
        Ok(Seq::empty())
    } else {
        each_parsed(pieces(s, ','))
    }
}

/// The sequent that a text stands for, or the reason why it stands for
/// none. A fault in the antecedent comes before one in the consequent.
pub open spec fn sequent_parsed(s: Seq<char>) -> Result<Judgment, SequentFault> {
    let at = first_turnstile(s, 0);
    if turnstiles(s, 0) < 1 {
        Err(SequentFault::TooFewTurnstiles)
    } else if turnstiles(s, 0) > 1 {
        Err(SequentFault::TooManyTurnstiles)
    } else {
        match side_parsed(s.subrange(0, at)) {
            Err(fault) => Err(SequentFault::PropositionError(fault)),
            Ok(antecedent) => match side_parsed(s.subrange(at + 2, s.len() as int)) {
                Err(fault) => Err(SequentFault::PropositionError(fault)),
                Ok(consequent) => Ok(Judgment { antecedent, consequent }),
            },
        }
    }
}

/// Formulas read from texts are together no more complex than the texts
/// are long.
pub proof fn lemma_each_parsed_complexity(texts: Seq<Seq<char>>)
    ensures
        each_parsed(texts) matches Ok(formulas) ==> total_complexity(formulas) <= total_length(
            texts,
        ),
    decreases texts.len(),
{
    if texts.len() > 0 {
        lemma_each_parsed_complexity(texts.drop_last());
        lemma_parsed_complexity(trimmed(texts.last()));
        lemma_trimmed_length(texts.last());
        match each_parsed(texts.drop_last()) {
            Ok(formulas) => match parsed(trimmed(texts.last())) {
                Ok(formula) => {
                    assert(formulas.push(formula).drop_last() == formulas);
                },
                Err(_) => {},
            },
            Err(_) => {},
        }
    }
}

/// The formulas of one side of a sequent are together no more complex
/// than the text of the side is long.
pub proof fn lemma_side_parsed_complexity(s: Seq<char>)
    ensures
        side_parsed(s) matches Ok(formulas) ==> total_complexity(formulas) <= s.len(),
{
    lemma_each_parsed_complexity(pieces(s, ','));
    lemma_pieces_length(s, ',');
}

/// A sequent is no more complex than the text that it was read from is
/// long.
pub proof fn lemma_sequent_parsed_complexity(s: Seq<char>)
    ensures
        sequent_parsed(s) matches Ok(sequent) ==> sequent.complexity() <= s.len(),
{
    lemma_first_turnstile(s, 0);
    let at = first_turnstile(s, 0);
    if turnstiles(s, 0) == 1 {
        lemma_side_parsed_complexity(s.subrange(0, at));
        lemma_side_parsed_complexity(s.subrange(at + 2, s.len() as int));
    }
}

/// The first turnstile lies inside the text wherever the text holds one.
pub proof fn lemma_first_turnstile(s: Seq<char>, from: int)
    requires
        0 <= from <= s.len(),
    ensures
        from <= first_turnstile(s, from) <= s.len(),
        turnstiles(s, from) > 0 <==> first_turnstile(s, from) < s.len(),
        first_turnstile(s, from) < s.len() ==> turnstile_at(s, first_turnstile(s, from)),
    decreases s.len() - from,
{
    if from < s.len() && !turnstile_at(s, from) {
        lemma_first_turnstile(s, from + 1);
    }
}

/// Reads one side of a sequent: a list of formulas separated by commas.
pub fn str_to_propositions(s: &str) -> (result: Result<
    Vec<Proposition>,
    PropositionCreationError,
>)
    ensures
        match result {
            Ok(propositions) => side_parsed(s@) == Ok::<Seq<Formula>, CreationFault>(
                formulas_of(propositions@),
            ),
            Err(error) => side_parsed(s@) == Err::<Seq<Formula>, CreationFault>(error@),
        },
{
    let mut propositions: Vec<Proposition> = Vec::new();
    if trim(s).as_str().is_empty() {
        proof {
            assert(formulas_of(propositions@) == Seq::<Formula>::empty());
        }
        return Ok(propositions);
    }
    let chars = chars_of(s);
    let parts = split_at(&chars, ',');
    let ghost all = texts(parts@);
    let mut i: usize = 0;
    proof {
        assert(formulas_of(propositions@) == Seq::<Formula>::empty());
        assert(all.take(0).len() == 0);
    }
    while i < parts.len()
        invariant
            i <= parts.len(),
            all == texts(parts@),
            all == pieces(s@, ','),
            trimmed(s@).len() != 0,
            each_parsed(all.take(i as int)) == Ok::<Seq<Formula>, CreationFault>(
                formulas_of(propositions@),
            ),
        decreases parts.len() - i,
    {
        proof {
            assert(all.take(i + 1).drop_last() == all.take(i as int));
            assert(all.take(i + 1).last() == parts@[i as int]@);
            lemma_each_parsed_fails(all, i + 1);
        }
        match proposition_from_string(trim(parts[i].as_str())) {
            Err(error) => {
                return Err(error);
            },
            Ok(proposition) => {
                let ghost before = propositions@;
                propositions.push(proposition);
                proof {
                    assert(formulas_of(propositions@) == formulas_of(before).push(proposition@));
                }
            },
        }
        i += 1;
    }
    proof {
        assert(all.take(i as int) == all);
    }
    Ok(propositions)
}

/// A fault among the first `k` texts is the fault of all the texts.
pub proof fn lemma_each_parsed_fails(texts: Seq<Seq<char>>, k: int)
    requires
        0 <= k <= texts.len(),
    ensures
        each_parsed(texts.take(k)) is Err ==> each_parsed(texts) == each_parsed(texts.take(k)),
    decreases texts.len() - k,
{
    if k < texts.len() {
        lemma_each_parsed_fails(texts, k + 1);
        assert(texts.take(k + 1).drop_last() == texts.take(k));
    } else {
        assert(texts.take(k) == texts);
    }
}

/// Counts the turnstiles of a text and finds the first.
fn find_turnstiles(chars: &Vec<char>) -> (found: (usize, usize))
    ensures
        found.0 == turnstiles(chars@, 0),
        found.1 == first_turnstile(chars@, 0),
{
    let mut count: usize = 0;
    let mut first: usize = chars.len();
    let mut i: usize = 0;
    while i < chars.len()
        invariant
            i <= chars.len(),
            count <= i,
            count + turnstiles(chars@, i as int) == turnstiles(chars@, 0),
            count == 0 ==> first == chars.len() && first_turnstile(chars@, i as int)
                == first_turnstile(chars@, 0),
            count > 0 ==> first == first_turnstile(chars@, 0),
        decreases chars.len() - i,
    {
        if chars[i] == '|' && i + 1 < chars.len() && chars[i + 1] == '~' {
            if count == 0 {
                first = i;
            }
            count += 1;
            i += 2;
        } else {
            i += 1;
        }
    }
    (count, first)
}

impl Sequent {
    /// Reads a text as a sequent.
    pub fn from_string(s: String) -> (result: Result<Self, SequentError>)
        ensures
            outcome(result) == sequent_parsed(s@),
            result matches Ok(sequent) ==> sequent@.complexity() <= usize::MAX,
    {
        proof {
            lemma_sequent_parsed_complexity(s@);
        }
        let chars = chars_of(s.as_str());
        let (count, at) = find_turnstiles(&chars);
        if count < 1 {
            return Err(SequentError::TooFewTurnstiles);
        }
        if count > 1 {
            return Err(SequentError::TooManyTurnstiles);
        }
        proof {
            lemma_first_turnstile(chars@, 0);
        }
        let left = string_of(&chars, 0, at);
        let right = string_of(&chars, at + 2, chars.len());
        let ant = match str_to_propositions(left.as_str()) {
            Ok(propositions) => propositions,
            Err(error) => {
                return Err(SequentError::PropositionError(error));
            },
        };
        let con = match str_to_propositions(right.as_str()) {
            Ok(propositions) => propositions,
            Err(error) => {
                return Err(SequentError::PropositionError(error));
            },
        };
        Ok(Sequent::new(ant, con))
    }
}

/// Reads a text as a sequent and says in short why it is none.
pub fn from_string(s: String) -> (result: Result<Sequent, SequentCreationError>)
    ensures
        match result {
            Ok(sequent) => sequent_parsed(s@) == Ok::<Judgment, SequentFault>(sequent@),
            Err(error) => sequent_parsed(s@) matches Err(fault) && error == in_short(fault),
        },
        result matches Ok(sequent) ==> sequent@.complexity() <= usize::MAX,
{
    match Sequent::from_string(s) {
        Ok(sequent) => Ok(sequent),
        Err(SequentError::PropositionError(_)) => Err(
            SequentCreationError::ErrorConvertingPropositions,
        ),
        Err(_) => Err(SequentCreationError::IncorrectNumberOfTurnstiles),
    }
}

} // verus!
