//! The formula parser: from text to a formula.
//!
//! Sub-formulas stand in parentheses; the outermost pair may be left out.
//! A text is split into words at its spaces. A leading negation or
//! quantifier word governs the rest of the text; otherwise the first binary
//! connective outside all parentheses splits the text in two; a text without
//! any of these is an atom. There is no precedence among the connectives.

use crate::proposition::scan::is_lowercase;
use crate::proposition::{Formula, Proposition};
use crate::text::{
    chars_of, join, joined, lemma_joined_lengths, lemma_joined_split, lemma_joined_words,
    lemma_words_shape, rejoined, space, split_words, string_of, texts, words,
};
use vstd::prelude::*;
use vstd::slice::slice_subrange;

verus! {

/// Why a text is not a formula.
#[derive(Debug)]
pub enum PropositionCreationError {
    /// A connective lacks an operand, or a quantifier its variable. Carries
    /// the text, without its outer parentheses, that could not be read.
    MalformedString(String),
    /// A word that is no connective was handed in as one. Carries the word.
    InvalidConnective(String),
    /// Nothing is left of the text once its outer parentheses are gone.
    EmptyString,
}

/// The model of a [`PropositionCreationError`].
pub enum CreationFault {
    MalformedString(Seq<char>),
    InvalidConnective(Seq<char>),
    EmptyString,
}

impl View for PropositionCreationError {
    type V = CreationFault;

    open spec fn view(&self) -> CreationFault {
        match self {
            PropositionCreationError::MalformedString(text) => CreationFault::MalformedString(
                text@,
            ),
            PropositionCreationError::InvalidConnective(word) => CreationFault::InvalidConnective(
                word@,
            ),
            PropositionCreationError::EmptyString => CreationFault::EmptyString,
        }
    }
}

/// The kinds of formula.
#[derive(Debug, Clone, Copy, PartialEq, Eq, Structural)]
pub enum PropositionType {
    Atom,
    Negation,
    Conditional,
    Conjunction,
    Disjunction,
    Existential,
    Universal,
}

/// The words that negate: `~` and `not`.
pub open spec fn is_negation_word(word: Seq<char>) -> bool {
    word == "~"@ || word == "not"@
}

/// The words for the conditional: `>` and `implies`.
pub open spec fn is_conditional_word(word: Seq<char>) -> bool {
    word == ">"@ || word == "implies"@
}

/// The words for the conjunction: `&` and `and`.
pub open spec fn is_conjunction_word(word: Seq<char>) -> bool {
    word == "&"@ || word == "and"@
}

/// The words for the disjunction: `v` and `or`.
pub open spec fn is_disjunction_word(word: Seq<char>) -> bool {
    word == "v"@ || word == "or"@
}

/// The words for the existential quantifier: its symbol and `exists`.
pub open spec fn is_existential_word(word: Seq<char>) -> bool {
    word == "\u{2203}"@ || word == "exists"@
}

/// The words for the universal quantifier: its symbol and `forall`.
pub open spec fn is_universal_word(word: Seq<char>) -> bool {
    word == "\u{2200}"@ || word == "forall"@
}

/// The words of the three binary connectives.
pub open spec fn is_binary_word(word: Seq<char>) -> bool {
    is_conditional_word(word) || is_conjunction_word(word) || is_disjunction_word(word)
}

/// The words of the two quantifiers.
pub open spec fn is_quantifier_word(word: Seq<char>) -> bool {
    is_existential_word(word) || is_universal_word(word)
}

/// What the words of the connectives and quantifiers are made of.
pub proof fn lemma_keywords()
    ensures
        "~"@ == seq!['~'],
        "not"@ == seq!['n', 'o', 't'],
        ">"@ == seq!['>'],
        "implies"@ == seq!['i', 'm', 'p', 'l', 'i', 'e', 's'],
        "&"@ == seq!['&'],
        "and"@ == seq!['a', 'n', 'd'],
        "v"@ == seq!['v'],
        "or"@ == seq!['o', 'r'],
        "\u{2203}"@ == seq!['\u{2203}'],
        "exists"@ == seq!['e', 'x', 'i', 's', 't', 's'],
        "\u{2200}"@ == seq!['\u{2200}'],
        "forall"@ == seq!['f', 'o', 'r', 'a', 'l', 'l'],
{
    reveal_strlit("~");
    reveal_strlit("not");
    reveal_strlit(">");
    reveal_strlit("implies");
    reveal_strlit("&");
    reveal_strlit("and");
    reveal_strlit("v");
    reveal_strlit("or");
    reveal_strlit("\u{2203}");
    reveal_strlit("exists");
    reveal_strlit("\u{2200}");
    reveal_strlit("forall");
    assert("~"@ =~= seq!['~']);
    assert("not"@ =~= seq!['n', 'o', 't']);
    assert(">"@ =~= seq!['>']);
    assert("implies"@ =~= seq!['i', 'm', 'p', 'l', 'i', 'e', 's']);
    assert("&"@ =~= seq!['&']);
    assert("and"@ =~= seq!['a', 'n', 'd']);
    assert("v"@ =~= seq!['v']);
    assert("or"@ =~= seq!['o', 'r']);
    assert("\u{2203}"@ =~= seq!['\u{2203}']);
    assert("exists"@ =~= seq!['e', 'x', 'i', 's', 't', 's']);
    assert("\u{2200}"@ =~= seq!['\u{2200}']);
    assert("forall"@ =~= seq!['f', 'o', 'r', 'a', 'l', 'l']);
}

/// The shape of a bound variable behind a quantifier: one lowercase letter
/// between angle brackets.
pub open spec fn is_variable_token(word: Seq<char>) -> bool {
    &&& word.len() == 3
    &&& word[0] == '<'
    &&& is_lowercase(word[1])
    &&& word[2] == '>'
}

/// What one character adds to the nesting depth.
pub open spec fn paren_value(c: char) -> int {
    if c == '(' {
        1
    } else if c == ')' {
        -1
    } else {
        0
    }
}

/// The opening parentheses of a text less its closing ones.
pub open spec fn nesting(s: Seq<char>) -> int
    decreases s.len(),
{
    if s.len() == 0 {
        0
    } else {
        nesting(s.drop_last()) + paren_value(s.last())
    }
}

/// Whether the first and the last character of a text are one pair of
/// parentheses: the text opens with `(`, ends with `)`, and the depth does
/// not come back to zero anywhere before the last character.
pub open spec fn connected_parens(s: Seq<char>) -> bool {
    &&& s.len() >= 2
    &&& s.first() == '('
    &&& s.last() == ')'
    &&& forall|k: int| 0 < k < s.len() ==> nesting(#[trigger] s.take(k)) > 0
}

/// A text without the pairs of parentheses that enclose all of it.
pub open spec fn deparenthesized(s: Seq<char>) -> Seq<char>
    decreases s.len(),
{
    if connected_parens(s) {
        deparenthesized(s.subrange(1, s.len() - 1))
    } else {
        s
    }
}

/// The nesting depth in front of word `i`.
pub open spec fn depth_before(words: Seq<Seq<char>>, i: int) -> int
    decreases i,
{
    if i <= 0 {
        0
    } else {
        depth_before(words, i - 1) + nesting(words[i - 1])
    }
}

/// Whether word `i` is a binary connective outside all parentheses.
pub open spec fn splits_at(words: Seq<Seq<char>>, i: int) -> bool {
    &&& 0 <= i < words.len()
    &&& depth_before(words, i) == 0
    &&& is_binary_word(words[i])
}

/// The index of the first binary connective outside all parentheses among
/// the words from `from` on; the number of words if there is none.
pub open spec fn first_binary(words: Seq<Seq<char>>, from: int) -> int
    decreases words.len() - from,
{
    if from >= words.len() {
        words.len() as int
    } else if splits_at(words, from) {
        from
    } else {
        first_binary(words, from + 1)
    }
}

/// What stands outermost in a text: an atom, a unary connective with its
/// operand, a binary connective between its operands, or a quantifier with
/// its variable and predicate. The parts are texts still to be read.
#[derive(Debug)]
pub enum Outline {
    Atom(String),
    Unary(String, String),
    Binary(String, String, String),
    Quantifier(String, String, String),
}

/// The model of an [`Outline`].
pub enum OutlineView {
    Atom(Seq<char>),
    Unary(Seq<char>, Seq<char>),
    Binary(Seq<char>, Seq<char>, Seq<char>),
    Quantifier(Seq<char>, Seq<char>, Seq<char>),
}

impl View for Outline {
    type V = OutlineView;

    open spec fn view(&self) -> OutlineView {
        match self {
            Outline::Atom(atom) => OutlineView::Atom(atom@),
            Outline::Unary(connective, content) => OutlineView::Unary(connective@, content@),
            Outline::Binary(left, connective, right) => OutlineView::Binary(
                left@,
                connective@,
                right@,
            ),
            Outline::Quantifier(quantifier, variable, predicate) => OutlineView::Quantifier(
                quantifier@,
                variable@,
                predicate@,
            ),
        }
    }
}

/// The model of a result: the view of what it holds.
pub open spec fn outcome<T: View, E: View>(result: Result<T, E>) -> Result<T::V, E::V> {
    match result {
        Ok(value) => Ok(value@),
        Err(error) => Err(error@),
    }
}

/// The outline of words that begin with a negation: the negation word, and
/// the remaining words joined and freed of their outer parentheses.
pub open spec fn negation_outline(words: Seq<Seq<char>>) -> OutlineView {
    OutlineView::Unary(words[0], deparenthesized(rejoined(words, 1)))
}

/// The outline of words that begin with a quantifier. The second word has
/// to be a variable in angle brackets, of which the letter is kept; the
/// words behind it, joined and freed of their outer parentheses, are the
/// predicate. Without such a second word the text is malformed.
pub open spec fn quantifier_outline(words: Seq<Seq<char>>) -> Result<OutlineView, CreationFault> {
    if words.len() >= 2 && is_variable_token(words[1]) {
        Ok(
            OutlineView::Quantifier(
                words[0],
                words[1].subrange(1, 2),
                deparenthesized(rejoined(words, 2)),
            ),
        )
    } else {
        Err(CreationFault::MalformedString(joined(words, space())))
    }
}

/// The outline of words split at the binary connective at index `at`: the
/// words before it joined, the connective, and the words behind it joined.
/// With nothing on one of the two sides the text is malformed.
pub open spec fn binary_outline(words: Seq<Seq<char>>, at: int) -> Result<
    OutlineView,
    CreationFault,
> {
    let left = joined(words.take(at), space());
    let right = rejoined(words, at + 1);
    if left.len() == 0 || right.len() == 0 {
        Err(CreationFault::MalformedString(joined(words, space())))
    } else {
        Ok(OutlineView::Binary(left, words[at], right))
    }
}

/// What stands outermost in a text, once its outer parentheses are gone.
pub open spec fn outline(s: Seq<char>) -> Result<OutlineView, CreationFault> {
    let text = deparenthesized(s);
    let tokens = words(text);
    if text.len() == 0 {
        Err(CreationFault::EmptyString)
    } else if is_negation_word(tokens[0]) {
        Ok(negation_outline(tokens))
    } else if is_quantifier_word(tokens[0]) {
        quantifier_outline(tokens)
    } else if first_binary(tokens, 0) < tokens.len() {
        binary_outline(tokens, first_binary(tokens, 0))
    } else {
        Ok(OutlineView::Atom(text))
    }
}

/// A negation of what its operand was read as.
pub open spec fn negated(content: Result<Formula, CreationFault>) -> Result<
    Formula,
    CreationFault,
> {
    match content {
        Ok(negatum) => Ok(Formula::Negation(Box::new(negatum))),
        Err(fault) => Err(fault),
    }
}

/// The binary formula that a connective word makes of what its two sides
/// were read as. A word that is no binary connective is refused before the
/// sides are looked at; a fault on the left comes before one on the right.
pub open spec fn combined(
    connective: Seq<char>,
    left: Result<Formula, CreationFault>,
    right: Result<Formula, CreationFault>,
) -> Result<Formula, CreationFault> {
    if !is_binary_word(connective) {
        Err(CreationFault::InvalidConnective(connective))
    } else {
        match (left, right) {
            (Err(fault), _) => Err(fault),
            (Ok(_), Err(fault)) => Err(fault),
            (Ok(l), Ok(r)) => Ok(
                if is_conditional_word(connective) {
                    Formula::Conditional(Box::new(l), Box::new(r))
                } else if is_conjunction_word(connective) {
                    Formula::Conjunction(Box::new(l), Box::new(r))
                } else {
                    Formula::Disjunction(Box::new(l), Box::new(r))
                },
            ),
        }
    }
}

/// The quantified formula that a quantifier word makes of a variable and
/// of what the predicate was read as. A word that is no quantifier is
/// refused before the predicate is looked at.
pub open spec fn quantified(
    quantifier: Seq<char>,
    variable: Seq<char>,
    predicate: Result<Formula, CreationFault>,
) -> Result<Formula, CreationFault> {
    if !is_quantifier_word(quantifier) {
        Err(CreationFault::InvalidConnective(quantifier))
    } else {
        match predicate {
            Err(fault) => Err(fault),
            Ok(p) => Ok(
                if is_existential_word(quantifier) {
                    Formula::Existential(variable, Box::new(p))
                } else {
                    Formula::Universal(variable, Box::new(p))
                },
            ),
        }
    }
}

/// The formula that a text stands for, or the reason why it stands for
/// none. One part that cannot be read fails the whole text.
pub open spec fn parsed(s: Seq<char>) -> Result<Formula, CreationFault>
    decreases s.len(),
{
    match outline(s) {
        Err(fault) => Err(fault),
        Ok(OutlineView::Atom(atom)) => Ok(Formula::Atom(atom)),
        Ok(OutlineView::Unary(_, content)) => {
            proof {
                lemma_outline_shrinks(s);
            }
            negated(parsed(content))
        },
        Ok(OutlineView::Binary(left, connective, right)) => {
            proof {
                lemma_outline_shrinks(s);
            }
            combined(connective, parsed(left), parsed(right))
        },
        Ok(OutlineView::Quantifier(quantifier, variable, predicate)) => {
            proof {
                lemma_outline_shrinks(s);
            }
            quantified(quantifier, variable, parsed(predicate))
        },
    }
}

/// Stripping outer parentheses never lengthens a text.
pub proof fn lemma_deparenthesized_length(s: Seq<char>)
    ensures
        deparenthesized(s).len() <= s.len(),
    decreases s.len(),
{
    if connected_parens(s) {
        lemma_deparenthesized_length(s.subrange(1, s.len() - 1));
    }
}

/// Stripping outer parentheses a second time changes nothing.
pub proof fn lemma_deparenthesized_twice(s: Seq<char>)
    ensures
        deparenthesized(deparenthesized(s)) == deparenthesized(s),
        !connected_parens(deparenthesized(s)),
    decreases s.len(),
{
    if connected_parens(s) {
        lemma_deparenthesized_twice(s.subrange(1, s.len() - 1));
    }
}

/// Reading depends on nothing but the text: any two results that the
/// parser may give for the same text hold the same formula, or the same
/// fault.
pub proof fn lemma_parsing_is_deterministic(
    text: String,
    again: String,
    first: Result<Proposition, PropositionCreationError>,
    second: Result<Proposition, PropositionCreationError>,
)
    requires
        text@ == again@,
        outcome(first) == parsed(text@),
        outcome(second) == parsed(again@),
    ensures
        outcome(first) == outcome(second),
        first is Ok <==> second is Ok,
        first matches Ok(p) ==> second matches Ok(q) && p@ == q@,
{
}

/// A formula is no more complex than the text that it was read from is
/// long.
pub proof fn lemma_parsed_complexity(s: Seq<char>)
    ensures
        parsed(s) matches Ok(formula) ==> formula.complexity() <= s.len(),
    decreases s.len(),
{
    lemma_outline_shrinks(s);
    match outline(s) {
        Ok(OutlineView::Unary(_, content)) => {
            lemma_parsed_complexity(content);
        },
        Ok(OutlineView::Binary(left, _, right)) => {
            lemma_parsed_complexity(left);
            lemma_parsed_complexity(right);
        },
        Ok(OutlineView::Quantifier(_, _, predicate)) => {
            lemma_parsed_complexity(predicate);
        },
        _ => {},
    }
}

/// The parts of an outline are shorter than the text they were found in.
pub proof fn lemma_outline_shrinks(s: Seq<char>)
    ensures
        match outline(s) {
            Ok(OutlineView::Unary(_, content)) => content.len() < s.len(),
            Ok(OutlineView::Binary(left, _, right)) => left.len() + right.len() < s.len(),
            Ok(OutlineView::Quantifier(_, _, predicate)) => predicate.len() < s.len(),
            _ => true,
        },
{
    let text = deparenthesized(s);
    let tokens = words(text);
    lemma_deparenthesized_length(s);
    lemma_words_shape(text);
    lemma_joined_words(text);
    if text.len() == 0 {
    } else if is_negation_word(tokens[0]) {
        lemma_deparenthesized_length(rejoined(tokens, 1));
        if tokens.len() > 1 {
            lemma_joined_split(tokens, 1, space());
        }
    } else if is_quantifier_word(tokens[0]) {
        if tokens.len() >= 2 {
            lemma_deparenthesized_length(rejoined(tokens, 2));
            if tokens.len() > 2 {
                lemma_joined_split(tokens, 2, space());
            }
        }
    } else if first_binary(tokens, 0) < tokens.len() {
        let at = first_binary(tokens, 0);
        lemma_first_binary(tokens, 0);
        if 0 < at {
            lemma_joined_split(tokens, at, space());
            if at + 1 < tokens.len() {
                lemma_joined_split(tokens.skip(at), 1, space());
                assert(tokens.skip(at).skip(1) == tokens.skip(at + 1));
            }
        }
    }
}

/// Where the search for a binary connective ends: at a word that splits,
/// with no word that splits before it, or behind the last word.
pub proof fn lemma_first_binary(words: Seq<Seq<char>>, from: int)
    requires
        0 <= from,
    ensures
        from <= first_binary(words, from) || first_binary(words, from) == words.len(),
        first_binary(words, from) <= words.len() || first_binary(words, from) == from,
        first_binary(words, from) < words.len() ==> splits_at(words, first_binary(words, from)),
        forall|i: int| from <= i < first_binary(words, from) ==> !splits_at(words, i),
    decreases words.len() - from,
{
    if from < words.len() && !splits_at(words, from) {
        lemma_first_binary(words, from + 1);
    }
}

/// Whether two texts are the same.
fn same_text(a: &str, b: &str) -> (same: bool)
    ensures
        same == (a@ == b@),
{
    let x = chars_of(a);
    let y = chars_of(b);
    if x.len() != y.len() {
        return false;
    }
    let mut i: usize = 0;
    while i < x.len()
        invariant
            i <= x.len(),
            x.len() == y.len(),
            x@ == a@,
            y@ == b@,
            x@.take(i as int) == y@.take(i as int),
        decreases x.len() - i,
    {
        if x[i] != y[i] {
            return false;
        }
        proof {
            assert(x@.take(i + 1) == x@.take(i as int).push(x@[i as int]));
            assert(y@.take(i + 1) == y@.take(i as int).push(y@[i as int]));
        }
        i += 1;
    }
    proof {
        assert(x@.take(i as int) == x@);
        assert(y@.take(i as int) == y@);
    }
    true
}

/// Whether a word negates.
pub fn is_negation_str(string: &str) -> (yes: bool)
    ensures
        yes == is_negation_word(string@),
{
    same_text(string, "~") || same_text(string, "not")
}

/// Whether a word stands for the conjunction.
pub fn is_conjunction_str(string: &str) -> (yes: bool)
    ensures
        yes == is_conjunction_word(string@),
{
    same_text(string, "&") || same_text(string, "and")
}

/// Whether a word stands for the conditional.
pub fn is_conditional_str(string: &str) -> (yes: bool)
    ensures
        yes == is_conditional_word(string@),
{
    same_text(string, ">") || same_text(string, "implies")
}

/// Whether a word stands for the disjunction.
pub fn is_disjunction_str(string: &str) -> (yes: bool)
    ensures
        yes == is_disjunction_word(string@),
{
    same_text(string, "v") || same_text(string, "or")
}

/// Whether a word stands for the existential quantifier.
pub fn is_existential_str(string: &str) -> (yes: bool)
    ensures
        yes == is_existential_word(string@),
{
    same_text(string, "\u{2203}") || same_text(string, "exists")
}

/// Whether a word stands for the universal quantifier.
pub fn is_universal_str(string: &str) -> (yes: bool)
    ensures
        yes == is_universal_word(string@),
{
    same_text(string, "\u{2200}") || same_text(string, "forall")
}

/// Whether the first and the last character of `chars[from..to]` are one
/// pair of parentheses.
fn encloses(chars: &Vec<char>, from: usize, to: usize) -> (yes: bool)
    requires
        from <= to <= chars.len(),
    ensures
        yes == connected_parens(chars@.subrange(from as int, to as int)),
{
    let ghost s = chars@.subrange(from as int, to as int);
    if to - from < 2 || chars[from] != '(' || chars[to - 1] != ')' {
        return false;
    }
    let mut depth: usize = 1;
    let mut i: usize = from + 1;
    proof {
        assert(s.take(1).drop_last().len() == 0);
        assert(nesting(s.take(1).drop_last()) == 0);
        assert(s.take(1).last() == '(');
        assert(nesting(s.take(1)) == 1);
    }
    while i < to - 1
        invariant
            from < i <= to - 1,
            to <= chars.len(),
            s == chars@.subrange(from as int, to as int),
            depth == nesting(s.take(i - from)),
            0 < depth <= i - from,
            forall|k: int| 0 < k <= i - from ==> nesting(#[trigger] s.take(k)) > 0,
        decreases to - i,
    {
        proof {
            assert(s.take(i - from + 1).drop_last() == s.take(i - from));
            assert(s.take(i - from + 1).last() == chars@[i as int]);
        }
        if chars[i] == '(' {
            depth += 1;
        } else if chars[i] == ')' {
            if depth == 1 {
                return false;
            }
            depth -= 1;
        }
        i += 1;
    }
    true
}

/// Whether a text opens and ends with one pair of parentheses that runs
/// around all of it, as `(A & B)` does and `(A) & (B)` does not.
pub fn string_first_and_last_chars_are_connected_parens(string: &String) -> (yes: bool)
    ensures
        yes == connected_parens(string@),
{
    let chars = chars_of(string.as_str());
    proof {
        assert(chars@.subrange(0, chars@.len() as int) == chars@);
    }
    encloses(&chars, 0, chars.len())
}

/// Strips the pairs of parentheses that enclose the whole text, one after
/// another, until the text is no longer enclosed by one pair.
pub fn deparenthesize(string: &mut String)
    ensures
        final(string)@ == deparenthesized(old(string)@),
        deparenthesized(final(string)@) == final(string)@,
        old(string)@.len() <= usize::MAX,
{
    proof {
        lemma_deparenthesized_twice(string@);
    }
    let chars = chars_of(string.as_str());
    let mut from: usize = 0;
    let mut to: usize = chars.len();
    proof {
        assert(chars@.subrange(0, chars@.len() as int) == chars@);
    }
    while encloses(&chars, from, to)
        invariant
            from <= to <= chars.len(),
            deparenthesized(chars@.subrange(from as int, to as int)) == deparenthesized(chars@),
        decreases to - from,
    {
        proof {
            let s = chars@.subrange(from as int, to as int);
            assert(s.subrange(1, s.len() - 1) == chars@.subrange(from + 1, to - 1));
        }
        from += 1;
        to -= 1;
    }
    *string = string_of(&chars, from, to);
}

/// The parentheses that a word opens less those it closes.
fn count_nesting(word: &str) -> (depth: i128)
    ensures
        depth == nesting(word@),
        -word@.len() <= depth <= word@.len(),
        word@.len() <= usize::MAX,
{
    let chars = chars_of(word);
    let mut depth: i128 = 0;
    let mut i: usize = 0;
    proof {
        assert(chars@.take(0).len() == 0);
    }
    while i < chars.len()
        invariant
            i <= chars.len(),
            depth == nesting(chars@.take(i as int)),
            -i <= depth <= i,
        decreases chars.len() - i,
    {
        proof {
            assert(chars@.take(i + 1).drop_last() == chars@.take(i as int));
        }
        if chars[i] == '(' {
            depth += 1;
        } else if chars[i] == ')' {
            depth -= 1;
        }
        i += 1;
    }
    proof {
        assert(chars@.take(i as int) == chars@);
    }
    depth
}

/// Whether a word met at the given nesting depth is a binary connective
/// outside all parentheses.
pub fn nested_word_is_binary_connective(word: &str, nestedness: i128) -> (yes: bool)
    ensures
        yes == (nestedness == 0 && is_binary_word(word@)),
{
    nestedness == 0 && (is_conditional_str(word) || is_conjunction_str(word) || is_disjunction_str(
        word,
    ))
}

/// Reads the letter of a bound variable out of a word of the shape `<x>`.
pub fn check_for_var(word: Option<&str>) -> (letter: Option<String>)
    ensures
        match letter {
            Some(v) => word matches Some(w) && is_variable_token(w@) && v@ == w@.subrange(1, 2),
            None => word matches Some(w) ==> !is_variable_token(w@),
        },
{
    match word {
        None => None,
        Some(string) => {
            let chars = chars_of(string);
            if chars.len() != 3 || chars[0] != '<' || chars[2] != '>' {
                return None;
            }
            if !('a' <= chars[1] && chars[1] <= 'z') {
                return None;
            }
            Some(string_of(&chars, 1, 2))
        },
    }
}

/// The words from index `from` on, joined by single spaces.
fn join_from(words: &Vec<String>, from: usize) -> (text: String)
    requires
        from <= words.len(),
    ensures
        text@ == rejoined(texts(words@), from as int),
{
    let rest = slice_subrange(words.as_slice(), from, words.len());
    proof {
        reveal_strlit(" ");
        assert(" "@ == space());
        assert(texts(rest@) == texts(words@).skip(from as int));
    }
    join(rest, " ")
}

/// All the words, joined by single spaces.
fn join_all(words: &Vec<String>) -> (text: String)
    ensures
        text@ == joined(texts(words@), space()),
{
    proof {
        assert(texts(words@).skip(0) == texts(words@));
    }
    join_from(words, 0)
}

/// The first `to` words, joined by single spaces.
fn join_until(words: &Vec<String>, to: usize) -> (text: String)
    requires
        to <= words.len(),
    ensures
        text@ == joined(texts(words@).take(to as int), space()),
{
    let first = slice_subrange(words.as_slice(), 0, to);
    proof {
        reveal_strlit(" ");
        assert(" "@ == space());
        assert(texts(first@) == texts(words@).take(to as int));
    }
    join(first, " ")
}

/// Reads words that begin with a negation.
pub fn find_negation(words: &Vec<String>) -> (result: Result<Outline, PropositionCreationError>)
    requires
        words.len() >= 1,
    ensures
        outcome(result) == Ok::<OutlineView, CreationFault>(negation_outline(texts(words@))),
{
    let negation = words[0].clone();
    let mut negatum = join_from(words, 1);
    deparenthesize(&mut negatum);
    Ok(Outline::Unary(negation, negatum))
}

/// Reads words that begin with a quantifier.
pub fn find_quantifier(words: &Vec<String>) -> (result: Result<Outline, PropositionCreationError>)
    requires
        words.len() >= 1,
    ensures
        outcome(result) == quantifier_outline(texts(words@)),
{
    let quantifier = words[0].clone();
    let second: Option<&str> = if words.len() >= 2 {
        Some(words[1].as_str())
    } else {
        None
    };
    let var = match check_for_var(second) {
        Some(letter) => letter,
        None => {
            return Err(PropositionCreationError::MalformedString(join_all(words)));
        },
    };
    let mut predicate = join_from(words, 2);
    deparenthesize(&mut predicate);
    Ok(Outline::Quantifier(quantifier, var, predicate))
}

/// Splits the words at the connective at `index`.
pub fn create_binary(words: &Vec<String>, index: usize) -> (result: Result<
    Outline,
    PropositionCreationError,
>)
    requires
        index < words.len(),
    ensures
        outcome(result) == binary_outline(texts(words@), index as int),
{
    let left = join_until(words, index);
    let connective = words[index].clone();
    let right = join_from(words, index + 1);
    if left.as_str().is_empty() || right.as_str().is_empty() {
        return Err(PropositionCreationError::MalformedString(join_all(words)));
    }
    Ok(Outline::Binary(left, connective, right))
}

/// Looks for the first binary connective outside all parentheses and splits
/// the words there. Returns nothing if there is no such connective.
pub fn find_binary(words: &Vec<String>) -> (found: Option<
    Result<Outline, PropositionCreationError>,
>)
    requires
        joined(texts(words@), space()).len() <= usize::MAX,
    ensures
        match found {
            None => first_binary(texts(words@), 0) == words.len(),
            Some(result) => {
                &&& first_binary(texts(words@), 0) < words.len()
                &&& outcome(result) == binary_outline(
                    texts(words@),
                    first_binary(texts(words@), 0),
                )
            },
        },
{
    let ghost ws = texts(words@);
    let mut nestedness: i128 = 0;
    let mut index: usize = 0;
    proof {
        assert(joined(ws.take(0), space()).len() == 0);
    }
    while index < words.len()
        invariant
            index <= words.len(),
            ws == texts(words@),
            joined(ws, space()).len() <= usize::MAX,
            nestedness == depth_before(ws, index as int),
            -joined(ws.take(index as int), space()).len() <= nestedness <= joined(
                ws.take(index as int),
                space(),
            ).len(),
            first_binary(ws, index as int) == first_binary(ws, 0),
        decreases words.len() - index,
    {
        if nested_word_is_binary_connective(words[index].as_str(), nestedness) {
            return Some(create_binary(words, index));
        }
        proof {
            lemma_joined_lengths(ws, index as int, space());
            lemma_joined_lengths(ws, index + 1, space());
        }
        nestedness += count_nesting(words[index].as_str());
        index += 1;
    }
    None
}

/// What stands outermost in a text.
pub fn find_connective(s: String) -> (result: Result<Outline, PropositionCreationError>)
    ensures
        outcome(result) == outline(s@),
        s@.len() <= usize::MAX,
{
    let mut s = s;
    deparenthesize(&mut s);
    let chars = chars_of(s.as_str());
    if chars.len() == 0 {
        return Err(PropositionCreationError::EmptyString);
    }
    let words = split_words(&chars);
    proof {
        lemma_words_shape(chars@);
        lemma_joined_words(chars@);
        assert(texts(words@)[0] == words@[0]@);
    }
    if is_negation_str(words[0].as_str()) {
        return find_negation(&words);
    }
    if is_existential_str(words[0].as_str()) || is_universal_str(words[0].as_str()) {
        return find_quantifier(&words);
    }
    match find_binary(&words) {
        Some(binary) => {
            return binary;
        },
        None => {},
    }
    Ok(Outline::Atom(join_all(&words)))
}

/// The kind of formula that a symbol stands for; an atom for any
/// character that is no symbol.
pub open spec fn kind_of_symbol(c: char) -> PropositionType {
    if c == '~' {
        PropositionType::Negation
    } else if c == '>' {
        PropositionType::Conditional
    } else if c == '&' {
        PropositionType::Conjunction
    } else if c == 'v' {
        PropositionType::Disjunction
    } else if c == '\u{2203}' {
        PropositionType::Existential
    } else if c == '\u{2200}' {
        PropositionType::Universal
    } else {
        PropositionType::Atom
    }
}

/// The kind of formula that a symbol stands for.
pub fn proposition_type_from_char(c: char) -> (kind: PropositionType)
    ensures
        kind == kind_of_symbol(c),
{
    match c {
        '~' => PropositionType::Negation,
        '>' => PropositionType::Conditional,
        '&' => PropositionType::Conjunction,
        'v' => PropositionType::Disjunction,
        '\u{2203}' => PropositionType::Existential,
        '\u{2200}' => PropositionType::Universal,
        _ => PropositionType::Atom,
    }
}

/// Reads a text as a formula.
pub fn proposition_from_string(source: String) -> (result: Result<
    Proposition,
    PropositionCreationError,
>)
    ensures
        outcome(result) == parsed(source@),
        result matches Ok(proposition) ==> proposition@.complexity() <= usize::MAX,
    decreases source@.len(), 1nat,
{
    proof {
        lemma_outline_shrinks(source@);
        lemma_parsed_complexity(source@);
    }
    match find_connective(source) {
        Err(error) => Err(error),
        Ok(Outline::Atom(atom)) => Ok(Proposition::Atom(atom)),
        Ok(Outline::Unary(connective, content)) => make_unary(connective, content),
        Ok(Outline::Binary(left, connective, right)) => make_binary(left, connective, right),
        Ok(Outline::Quantifier(quantifier, variable, predicate)) => make_quantifier(
            quantifier,
            variable,
            predicate,
        ),
    }
}

/// Builds the negation of the formula that `content` stands for.
pub fn make_unary(_connective: String, content: String) -> (result: Result<
    Proposition,
    PropositionCreationError,
>)
    ensures
        outcome(result) == negated(parsed(content@)),
    decreases content@.len(), 2nat,
{
    match proposition_from_string(content) {
        Ok(negatum) => Ok(Proposition::Negation(Box::new(negatum))),
        Err(error) => Err(error),
    }
}

/// Builds the binary formula that `connective` makes of the formulas that
/// `left` and `right` stand for.
pub fn make_binary(left: String, connective: String, right: String) -> (result: Result<
    Proposition,
    PropositionCreationError,
>)
    ensures
        outcome(result) == combined(connective@, parsed(left@), parsed(right@)),
    decreases left@.len() + right@.len(), 2nat,
{
    let conditional = is_conditional_str(connective.as_str());
    let conjunction = is_conjunction_str(connective.as_str());
    if !conditional && !conjunction && !is_disjunction_str(connective.as_str()) {
        return Err(PropositionCreationError::InvalidConnective(connective));
    }
    let l = match proposition_from_string(left) {
        Ok(formula) => Box::new(formula),
        Err(error) => {
            return Err(error);
        },
    };
    let r = match proposition_from_string(right) {
        Ok(formula) => Box::new(formula),
        Err(error) => {
            return Err(error);
        },
    };
    if conditional {
        Ok(Proposition::Conditional(l, r))
    } else if conjunction {
        Ok(Proposition::Conjunction(l, r))
    } else {
        Ok(Proposition::Disjunction(l, r))
    }
}

/// Builds the quantified formula that `quantifier` makes of `variable` and
/// of the formula that `predicate` stands for.
pub fn make_quantifier(quantifier: String, variable: String, predicate: String) -> (result:
    Result<Proposition, PropositionCreationError>)
    ensures
        outcome(result) == quantified(quantifier@, variable@, parsed(predicate@)),
    decreases predicate@.len(), 2nat,
{
    let existential = is_existential_str(quantifier.as_str());
    if !existential && !is_universal_str(quantifier.as_str()) {
        return Err(PropositionCreationError::InvalidConnective(quantifier));
    }
    match proposition_from_string(predicate) {
        Ok(formula) => {
            if existential {
                Ok(Proposition::Existential(variable, Box::new(formula)))
            } else {
                Ok(Proposition::Universal(variable, Box::new(formula)))
            }
        },
        Err(error) => Err(error),
    }
}

} // verus!
