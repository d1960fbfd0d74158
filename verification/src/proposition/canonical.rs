//! The canonical text of a formula, read back.
//!
//! A formula made of binary connectives over plain atoms is written with
//! every sub-formula in parentheses, and the parser reads that text as the
//! formula it came from.

use crate::proposition::create::{
    combined, connected_parens, deparenthesized, depth_before, first_binary, is_binary_word,
    is_conditional_word, is_conjunction_word, is_disjunction_word, is_negation_word,
    is_quantifier_word, lemma_first_binary, lemma_keywords, nesting, outline, paren_value,
    parsed, splits_at, CreationFault, OutlineView,
};
use crate::proposition::{infix, Formula};
use crate::text::{
    joined, lemma_joined_split, lemma_joined_words, lemma_words_concat, lemma_words_shape,
    lemma_words_spaceless, space, spaceless, words,
};
use vstd::prelude::*;

verus! {

/// A text whose parentheses match: it closes no parenthesis that it has
/// not opened, and leaves none open.
pub open spec fn balanced(s: Seq<char>) -> bool {
    &&& nesting(s) == 0
    &&& forall|k: int| 0 <= k <= s.len() ==> nesting(#[trigger] s.take(k)) >= 0
}

/// A text that can stand as an atom inside a larger formula: its
/// parentheses match, and read on its own it is the atom of itself.
pub open spec fn plain(s: Seq<char>) -> bool {
    &&& balanced(s)
    &&& parsed(s) == Ok::<Formula, CreationFault>(Formula::Atom(s))
}

/// A text without parentheses.
pub open spec fn free_of_parentheses(s: Seq<char>) -> bool {
    forall|i: int| 0 <= i < s.len() ==> s[i] != '(' && s[i] != ')'
}

/// A text of which no word is the word of a connective or of a
/// quantifier.
pub open spec fn free_of_keywords(s: Seq<char>) -> bool {
    forall|i: int|
        0 <= i < words(s).len() ==> {
            let word = #[trigger] words(s)[i];
            !is_negation_word(word) && !is_quantifier_word(word) && !is_binary_word(word)
        }
}

/// A formula made of conjunctions, disjunctions and conditionals over
/// plain atoms.
pub open spec fn binary_over_plain_atoms(formula: Formula) -> bool
    decreases formula,
{
    match formula {
        Formula::Atom(atom) => plain(atom),
        Formula::Conditional(left, right) => binary_over_plain_atoms(*left)
            && binary_over_plain_atoms(*right),
        Formula::Conjunction(left, right) => binary_over_plain_atoms(*left)
            && binary_over_plain_atoms(*right),
        Formula::Disjunction(left, right) => binary_over_plain_atoms(*left)
            && binary_over_plain_atoms(*right),
        _ => false,
    }
}

/// The nesting of two texts in a row is the sum of their nestings.
proof fn lemma_nesting_concat(a: Seq<char>, b: Seq<char>)
    ensures
        nesting(a + b) == nesting(a) + nesting(b),
    decreases b.len(),
{
    if b.len() == 0 {
        assert(a + b == a);
    } else {
        lemma_nesting_concat(a, b.drop_last());
        assert((a + b).drop_last() == a + b.drop_last());
    }
}

/// The nesting of a text of one character.
proof fn lemma_nesting_single(c: char)
    ensures
        nesting(seq![c]) == paren_value(c),
{
    let s = seq![c];
    assert(s.drop_last().len() == 0);
    assert(nesting(s.drop_last()) == 0);
    assert(s.last() == c);
}

/// The depth in front of word `i` is the nesting of the words before it,
/// joined by spaces.
proof fn lemma_depth_is_nesting(ws: Seq<Seq<char>>, i: int)
    requires
        0 <= i <= ws.len(),
    ensures
        depth_before(ws, i) == nesting(joined(ws.take(i), space())),
    decreases i,
{
    if i == 0 {
        assert(joined(ws.take(0), space()).len() == 0);
    } else {
        lemma_depth_is_nesting(ws, i - 1);
        assert(ws.take(i).drop_last() == ws.take(i - 1));
        assert(ws.take(i).last() == ws[i - 1]);
        if i == 1 {
            assert(joined(ws.take(1), space()) == ws[0]);
        } else {
            let before = joined(ws.take(i - 1), space());
            lemma_nesting_concat(before + space(), ws[i - 1]);
            lemma_nesting_concat(before, space());
            lemma_nesting_single(' ');
        }
    }
}

/// Words that follow do not change the depth in front of a word.
proof fn lemma_depth_of_prefix(a: Seq<Seq<char>>, b: Seq<Seq<char>>, i: int)
    requires
        0 <= i <= a.len(),
    ensures
        depth_before(a + b, i) == depth_before(a, i),
    decreases i,
{
    if i > 0 {
        lemma_depth_of_prefix(a, b, i - 1);
    }
}

/// The first word of a text holds every character in front of the first
/// space: if the first `k` characters are no spaces, they begin the first
/// word.
proof fn lemma_first_word(s: Seq<char>, k: int)
    requires
        0 <= k <= s.len(),
        spaceless(s.take(k)),
    ensures
        words(s)[0].len() >= k,
        words(s)[0].take(k) == s.take(k),
    decreases s.len(),
{
    if k == s.len() {
        assert(s.take(k) == s);
        lemma_words_spaceless(s);
    } else {
        let init = s.drop_last();
        assert(init.take(k) == s.take(k));
        lemma_first_word(init, k);
        lemma_words_shape(init);
        if s.last() != ' ' && words(init).len() == 1 {
            assert(words(s)[0] == words(init)[0].push(s.last()));
            assert(words(s)[0].take(k) == words(init)[0].take(k));
        } else {
            assert(words(s)[0] == words(init)[0]);
        }
    }
}

/// A text without parentheses has no nesting.
proof fn lemma_nesting_without_parens(s: Seq<char>)
    requires
        forall|i: int| 0 <= i < s.len() ==> s[i] != '(' && s[i] != ')',
    ensures
        nesting(s) == 0,
    decreases s.len(),
{
    if s.len() > 0 {
        lemma_nesting_without_parens(s.drop_last());
    }
}

/// A word that begins with a parenthesis is no connective and no
/// quantifier.
proof fn lemma_parenthesis_is_no_keyword(word: Seq<char>)
    requires
        word.len() > 0,
        word[0] == '(',
    ensures
        !is_negation_word(word),
        !is_quantifier_word(word),
        !is_binary_word(word),
{
    lemma_keywords();
}

/// The symbols of the three binary connectives are words of their
/// connective and of no other.
proof fn lemma_symbols_are_words()
    ensures
        is_conditional_word(seq!['>']),
        !is_conjunction_word(seq!['>']),
        !is_disjunction_word(seq!['>']),
        !is_conditional_word(seq!['&']),
        is_conjunction_word(seq!['&']),
        !is_disjunction_word(seq!['&']),
        !is_conditional_word(seq!['v']),
        !is_conjunction_word(seq!['v']),
        is_disjunction_word(seq!['v']),
{
    lemma_keywords();
    assert(seq!['>'][0] == '>');
    assert(seq!['&'][0] == '&');
    assert(seq!['v'][0] == 'v');
    assert(seq!['>'].len() == 1);
    assert(seq!['&'].len() == 1);
    assert(seq!['v'].len() == 1);
}

/// A text that can stand as an operand of a binary connective: its
/// parentheses match, it is not empty, it does not begin with a negation
/// or a quantifier, and no binary connective stands in it outside all
/// parentheses.
spec fn operand_text(s: Seq<char>) -> bool {
    &&& balanced(s)
    &&& s.len() > 0
    &&& !is_negation_word(words(s)[0])
    &&& !is_quantifier_word(words(s)[0])
    &&& forall|i: int| !splits_at(words(s), i)
}

/// The symbols of the binary connectives.
spec fn is_binary_symbol(symbol: char) -> bool {
    symbol == '>' || symbol == '&' || symbol == 'v'
}

/// The part of an infix text between its parentheses.
spec fn between(left: Seq<char>, symbol: char, right: Seq<char>) -> Seq<char> {
    left + seq![' ', symbol, ' '] + right
}

/// Two operands around a connective have matching parentheses, and the
/// depth is back at zero right behind the first operand.
proof fn lemma_between_balanced(left: Seq<char>, symbol: char, right: Seq<char>)
    requires
        balanced(left),
        balanced(right),
        is_binary_symbol(symbol),
    ensures
        balanced(between(left, symbol, right)),
        nesting(between(left, symbol, right).take(left.len() as int)) == 0,
{
    let middle = seq![' ', symbol, ' '];
    let inner = between(left, symbol, right);
    lemma_nesting_without_parens(middle);
    lemma_nesting_concat(left, middle);
    lemma_nesting_concat(left + middle, right);
    assert(inner.take(left.len() as int) == left);
    assert forall|k: int| 0 <= k <= inner.len() implies nesting(#[trigger] inner.take(k)) >= 0 by {
        if k <= left.len() {
            assert(inner.take(k) == left.take(k));
        } else if k <= left.len() + 3 {
            let part = middle.take(k - left.len());
            assert(inner.take(k) == left + part);
            lemma_nesting_without_parens(part);
            lemma_nesting_concat(left, part);
        } else {
            let part = right.take(k - left.len() - 3);
            assert(inner.take(k) == left + middle + part);
            lemma_nesting_concat(left + middle, part);
        }
    }
}

/// An infix text is enclosed by one pair of parentheses, and what stands
/// between them is not.
proof fn lemma_infix_parentheses(left: Seq<char>, symbol: char, right: Seq<char>)
    requires
        balanced(left),
        balanced(right),
        left.len() > 0,
        is_binary_symbol(symbol),
    ensures
        balanced(infix(left, symbol, right)),
        connected_parens(infix(left, symbol, right)),
        deparenthesized(infix(left, symbol, right)) == between(left, symbol, right),
{
    let inner = between(left, symbol, right);
    let text = infix(left, symbol, right);
    lemma_between_balanced(left, symbol, right);
    assert(text == seq!['('] + inner + seq![')']);
    assert(text.subrange(1, text.len() - 1) == inner);
    lemma_nesting_single('(');
    lemma_nesting_single(')');
    lemma_nesting_concat(seq!['('], inner);
    lemma_nesting_concat(seq!['('] + inner, seq![')']);
    assert(text.take(0).len() == 0);
    assert forall|k: int| 0 < k < text.len() implies nesting(#[trigger] text.take(k)) > 0 by {
        assert(text.take(k) == seq!['('] + inner.take(k - 1));
        lemma_nesting_concat(seq!['('], inner.take(k - 1));
    }
    assert(text.take(text.len() as int) == text);
    assert(!connected_parens(inner)) by {
        assert(0 < left.len() < inner.len());
    }
    assert(deparenthesized(inner) == inner);
    assert(deparenthesized(text) == deparenthesized(text.subrange(1, text.len() - 1)));
}

/// The words of an infix text without its parentheses: the words of the
/// left operand, the symbol, and the words of the right operand.
proof fn lemma_between_words(left: Seq<char>, symbol: char, right: Seq<char>)
    requires
        is_binary_symbol(symbol),
    ensures
        words(between(left, symbol, right)) == words(left) + seq![seq![symbol]] + words(right),
{
    let tail = seq![symbol] + space() + right;
    assert(between(left, symbol, right) == left + space() + tail);
    lemma_words_concat(left, tail);
    lemma_words_concat(seq![symbol], right);
    lemma_words_spaceless(seq![symbol]);
    assert(words(left) + (seq![seq![symbol]] + words(right)) == words(left) + seq![seq![symbol]]
        + words(right));
}

/// Between two operands the connective is the first place at which the
/// text splits, and it splits the text into the two operands.
proof fn lemma_between_outline(left: Seq<char>, symbol: char, right: Seq<char>)
    requires
        operand_text(left),
        operand_text(right),
        is_binary_symbol(symbol),
    ensures
        outline(infix(left, symbol, right)) == Ok::<OutlineView, CreationFault>(
            OutlineView::Binary(left, seq![symbol], right),
        ),
{
    let inner = between(left, symbol, right);
    let tokens = words(inner);
    let n = words(left).len() as int;
    lemma_infix_parentheses(left, symbol, right);
    lemma_between_words(left, symbol, right);
    lemma_words_shape(left);
    lemma_words_shape(right);
    lemma_symbols_are_words();
    assert(tokens[0] == words(left)[0]);
    assert(tokens[n] == seq![symbol]);
    assert forall|i: int| 0 <= i < n implies !splits_at(tokens, i) by {
        lemma_depth_of_prefix(words(left), seq![seq![symbol]] + words(right), i);
        assert(words(left) + (seq![seq![symbol]] + words(right)) == tokens);
        assert(tokens[i] == words(left)[i]);
        assert(!splits_at(words(left), i));
    }
    assert(splits_at(tokens, n)) by {
        lemma_depth_of_prefix(words(left), seq![seq![symbol]] + words(right), n);
        assert(words(left) + (seq![seq![symbol]] + words(right)) == tokens);
        lemma_depth_is_nesting(words(left), n);
        assert(words(left).take(n) == words(left));
        lemma_joined_words(left);
    }
    lemma_first_binary(tokens, 0);
    assert(first_binary(tokens, 0) == n);
    assert(tokens.take(n) == words(left));
    assert(tokens.skip(n + 1) == words(right));
    lemma_joined_words(left);
    lemma_joined_words(right);
}

/// Words joined are at least as long as the first of them.
proof fn lemma_joined_holds_first(ws: Seq<Seq<char>>, sep: Seq<char>)
    requires
        ws.len() >= 1,
    ensures
        joined(ws, sep).len() >= ws[0].len(),
{
    if ws.len() > 1 {
        lemma_joined_split(ws, 1, sep);
        assert(joined(ws.take(1), sep) == ws[0]);
    }
}

/// An infix text can itself stand as an operand.
proof fn lemma_infix_is_operand(left: Seq<char>, symbol: char, right: Seq<char>)
    requires
        balanced(left),
        balanced(right),
        left.len() > 0,
        is_binary_symbol(symbol),
    ensures
        operand_text(infix(left, symbol, right)),
{
    let text = infix(left, symbol, right);
    let ws = words(text);
    lemma_infix_parentheses(left, symbol, right);
    assert(spaceless(text.take(1)));
    lemma_first_word(text, 1);
    assert(ws[0][0] == ws[0].take(1)[0]);
    lemma_parenthesis_is_no_keyword(ws[0]);
    lemma_words_shape(text);
    lemma_joined_words(text);
    assert forall|i: int| !splits_at(ws, i) by {
        if 0 < i < ws.len() {
            let before = joined(ws.take(i), space());
            lemma_depth_is_nesting(ws, i);
            lemma_joined_split(ws, i, space());
            lemma_joined_holds_first(ws.take(i), space());
            assert(text.take(before.len() as int) == before);
        }
    }
}

/// A plain text can stand as an operand.
proof fn lemma_plain_is_operand(atom: Seq<char>)
    requires
        plain(atom),
    ensures
        operand_text(atom),
{
    let tokens = words(deparenthesized(atom));
    assert(outline(atom) == Ok::<OutlineView, CreationFault>(OutlineView::Atom(atom)));
    assert(deparenthesized(atom) == atom);
    lemma_first_binary(tokens, 0);
}

/// Every text that is not empty, holds no parenthesis and has no word of
/// a connective or of a quantifier among its words is plain.
pub proof fn lemma_simple_text_is_plain(s: Seq<char>)
    requires
        s.len() > 0,
        free_of_parentheses(s),
        free_of_keywords(s),
    ensures
        plain(s),
{
    let tokens = words(s);
    lemma_words_shape(s);
    lemma_nesting_without_parens(s);
    assert forall|k: int| 0 <= k <= s.len() implies nesting(#[trigger] s.take(k)) >= 0 by {
        lemma_nesting_without_parens(s.take(k));
    }
    assert(!connected_parens(s));
    assert(deparenthesized(s) == s);
    lemma_first_binary(tokens, 0);
    assert(first_binary(tokens, 0) == tokens.len());
    assert(outline(s) == Ok::<OutlineView, CreationFault>(OutlineView::Atom(s)));
}

/// The canonical text of a formula made of binary connectives over plain
/// atoms reads as the formula, and can itself stand as an operand.
proof fn lemma_reads_back_as_operand(formula: Formula)
    requires
        binary_over_plain_atoms(formula),
    ensures
        parsed(formula.render()) == Ok::<Formula, CreationFault>(formula),
        operand_text(formula.render()),
    decreases formula,
{
    match formula {
        Formula::Atom(atom) => {
            lemma_plain_is_operand(atom);
        },
        Formula::Conditional(left, right) => {
            lemma_reads_back_as_operand(*left);
            lemma_reads_back_as_operand(*right);
            lemma_infix_reads_back(left.render(), '>', right.render());
        },
        Formula::Conjunction(left, right) => {
            lemma_reads_back_as_operand(*left);
            lemma_reads_back_as_operand(*right);
            lemma_infix_reads_back(left.render(), '&', right.render());
        },
        Formula::Disjunction(left, right) => {
            lemma_reads_back_as_operand(*left);
            lemma_reads_back_as_operand(*right);
            lemma_infix_reads_back(left.render(), 'v', right.render());
        },
        _ => {},
    }
}

/// Reading the canonical text of a formula gives the formula back, for
/// every formula made of conjunctions, disjunctions and conditionals over
/// plain atoms.
pub proof fn lemma_canonical_text_reads_back(formula: Formula)
    requires
        binary_over_plain_atoms(formula),
    ensures
        parsed(formula.render()) == Ok::<Formula, CreationFault>(formula),
{
    lemma_reads_back_as_operand(formula);
}

/// An infix text of two operands reads as the connective of its symbol
/// over what the operands read as.
proof fn lemma_infix_reads_back(left: Seq<char>, symbol: char, right: Seq<char>)
    requires
        operand_text(left),
        operand_text(right),
        is_binary_symbol(symbol),
    ensures
        operand_text(infix(left, symbol, right)),
        parsed(infix(left, symbol, right)) == combined(seq![symbol], parsed(left), parsed(right)),
        is_conditional_word(seq![symbol]) <==> symbol == '>',
        is_conjunction_word(seq![symbol]) <==> symbol == '&',
        is_disjunction_word(seq![symbol]) <==> symbol == 'v',
{
    lemma_infix_is_operand(left, symbol, right);
    lemma_between_outline(left, symbol, right);
    lemma_symbols_are_words();
}

/// The canonical text of a negation is not read back as the negation, and
/// that of a quantified formula not as the quantified formula: the
/// canonical text puts no space behind the sign of the negation or of the
/// quantifier, and the parser knows them only as words of their own.
pub proof fn lemma_prefix_forms_read_differently(formula: Formula)
    requires
        formula is Negation || formula is Existential || formula is Universal,
    ensures
        parsed(formula.render()) != Ok::<Formula, CreationFault>(formula),
{
    let text = formula.render();
    let tokens = words(text);
    lemma_keywords();
    assert(!connected_parens(text));
    assert(deparenthesized(text) == text);
    assert(spaceless(text.take(1)));
    lemma_first_word(text, 1);
    assert(tokens[0][0] == tokens[0].take(1)[0]);
    match formula {
        Formula::Negation(_) => {
            assert(spaceless(text.take(2)));
            lemma_first_word(text, 2);
        },
        Formula::Existential(variable, _) => {
            if is_quantifier_word(tokens[0]) {
                lemma_sign_stands_alone(text, variable);
            }
        },
        Formula::Universal(variable, _) => {
            if is_quantifier_word(tokens[0]) {
                lemma_sign_stands_alone(text, variable);
            }
        },
        _ => {},
    }
}

/// Where the sign of a quantifier is the whole first word of a canonical
/// text, the variable behind it begins with a space; the variable that the
/// parser reads is a letter.
proof fn lemma_sign_stands_alone(text: Seq<char>, variable: Seq<char>)
    requires
        text.len() >= 2,
        words(text)[0].len() == 1,
        text[0] != ' ',
        text[1] == if variable.len() > 0 {
            variable[0]
        } else {
            '('
        },
    ensures
        variable.len() > 0,
        variable[0] == ' ',
{
    if text[1] != ' ' {
        assert(spaceless(text.take(2)));
        lemma_first_word(text, 2);
    }
}

} // verus!
