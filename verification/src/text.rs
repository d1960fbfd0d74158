//! Character-level text helpers: conversion between strings and character
//! vectors, splitting a text into words and joining words back into a text.

use itertools::Itertools;
use vstd::prelude::*;

verus! {

/// The views of a sequence of strings.
pub open spec fn texts(strings: Seq<String>) -> Seq<Seq<char>> {
    Seq::new(strings.len(), |i: int| strings[i]@)
}

/// The text that consists of a single space.
pub open spec fn space() -> Seq<char> {
    seq![' ']
}

/// The pieces of `s` between the occurrences of the character `at`, empty
/// pieces included. A text with `n` occurrences has `n + 1` pieces.
pub open spec fn pieces(s: Seq<char>, at: char) -> Seq<Seq<char>>
    decreases s.len(),
{
    if s.len() == 0 {
        seq![Seq::<char>::empty()]
    } else {
        let before = pieces(s.drop_last(), at);
        if s.last() == at {
            before.push(Seq::<char>::empty())
        } else {
            before.drop_last().push(before.last().push(s.last()))
        }
    }
}

/// The words of `s`: the runs of characters between its spaces, empty runs
/// included. A text with `n` spaces has `n + 1` words.
pub open spec fn words(s: Seq<char>) -> Seq<Seq<char>> {
    pieces(s, ' ')
}

/// The index just past the spaces that start at `from`.
pub open spec fn spaces_end(s: Seq<char>, from: int) -> int
    decreases s.len() - from,
{
    if 0 <= from < s.len() && s[from] == ' ' {
        spaces_end(s, from + 1)
    } else {
        from
    }
}

/// The index at which the spaces that end just before `to` start.
pub open spec fn spaces_start(s: Seq<char>, to: int) -> int
    decreases to,
{
    if 0 < to <= s.len() && s[to - 1] == ' ' {
        spaces_start(s, to - 1)
    } else {
        to
    }
}

/// A text without the spaces at its two ends.
pub open spec fn trimmed(s: Seq<char>) -> Seq<char> {
    let from = spaces_end(s, 0);
    let to = spaces_start(s, s.len() as int);
    if from < to {
        s.subrange(from, to)
    } else {
        Seq::empty()
    }
}

/// The number of characters in all the given texts together.
pub open spec fn total_length(texts: Seq<Seq<char>>) -> nat
    decreases texts.len(),
{
    if texts.len() == 0 {
        0
    } else {
        total_length(texts.drop_last()) + texts.last().len()
    }
}

/// The given words written one after another with `sep` between neighbours.
pub open spec fn joined(words: Seq<Seq<char>>, sep: Seq<char>) -> Seq<char>
    decreases words.len(),
{
    if words.len() == 0 {
        Seq::<char>::empty()
    } else if words.len() == 1 {
        words[0]
    } else {
        joined(words.drop_last(), sep) + sep + words.last()
    }
}

/// The words from index `from` on, joined by single spaces.
pub open spec fn rejoined(words: Seq<Seq<char>>, from: int) -> Seq<char> {
    joined(words.skip(from), space())
}

/// The character for a digit below ten.
pub open spec fn digit(d: nat) -> char {
    if d == 0 {
        '0'
    } else if d == 1 {
        '1'
    } else if d == 2 {
        '2'
    } else if d == 3 {
        '3'
    } else if d == 4 {
        '4'
    } else if d == 5 {
        '5'
    } else if d == 6 {
        '6'
    } else if d == 7 {
        '7'
    } else if d == 8 {
        '8'
    } else {
        '9'
    }
}

/// A number written in decimal, without leading zeros.
pub open spec fn decimal(n: nat) -> Seq<char>
    decreases n,
{
    if n < 10 {
        seq![digit(n)]
    } else {
        decimal(n / 10).push(digit(n % 10))
    }
}

/// A text without a space.
pub open spec fn spaceless(s: Seq<char>) -> bool {
    forall|i: int| 0 <= i < s.len() ==> s[i] != ' '
}

/// A text has at least one word, and no word holds a space.
pub proof fn lemma_words_shape(s: Seq<char>)
    ensures
        words(s).len() >= 1,
        forall|i: int| 0 <= i < words(s).len() ==> spaceless(#[trigger] words(s)[i]),
    decreases s.len(),
{
    if s.len() > 0 {
        lemma_words_shape(s.drop_last());
    }
}

/// The pieces of a text are together no longer than the text.
pub proof fn lemma_pieces_length(s: Seq<char>, at: char)
    ensures
        pieces(s, at).len() >= 1,
        total_length(pieces(s, at)) <= s.len(),
    decreases s.len(),
{
    if s.len() == 0 {
        assert(pieces(s, at).drop_last().len() == 0);
        assert(total_length(pieces(s, at).drop_last()) == 0);
    } else {
        let before = pieces(s.drop_last(), at);
        lemma_pieces_length(s.drop_last(), at);
        if s.last() == at {
            assert(before.push(Seq::<char>::empty()).drop_last() == before);
        } else {
            let last = before.last().push(s.last());
            assert(before.drop_last().push(last).drop_last() == before.drop_last());
        }
    }
}

/// Trimming never lengthens a text.
pub proof fn lemma_trimmed_length(s: Seq<char>)
    ensures
        trimmed(s).len() <= s.len(),
{
    lemma_spaces_end(s, 0);
    lemma_spaces_start(s, s.len() as int);
}

/// The spaces that start inside a text end inside it.
pub proof fn lemma_spaces_end(s: Seq<char>, from: int)
    requires
        0 <= from <= s.len(),
    ensures
        from <= spaces_end(s, from) <= s.len(),
    decreases s.len() - from,
{
    if from < s.len() && s[from] == ' ' {
        lemma_spaces_end(s, from + 1);
    }
}

/// The spaces that end inside a text start inside it.
pub proof fn lemma_spaces_start(s: Seq<char>, to: int)
    requires
        0 <= to <= s.len(),
    ensures
        0 <= spaces_start(s, to) <= to,
    decreases to,
{
    if 0 < to && s[to - 1] == ' ' {
        lemma_spaces_start(s, to - 1);
    }
}

/// A text without a space is its own single word.
pub proof fn lemma_words_spaceless(s: Seq<char>)
    requires
        spaceless(s),
    ensures
        words(s) == seq![s],
    decreases s.len(),
{
    if s.len() > 0 {
        lemma_words_spaceless(s.drop_last());
        assert(seq![s.drop_last()].drop_last().push(s.drop_last().push(s.last())) == seq![s]) by {
            assert(s.drop_last().push(s.last()) == s);
        }
    } else {
        assert(s == Seq::<char>::empty());
    }
}

/// Joining the words of a text by spaces gives the text back.
pub proof fn lemma_joined_words(s: Seq<char>)
    ensures
        joined(words(s), space()) == s,
    decreases s.len(),
{
    if s.len() == 0 {
        assert(s == Seq::<char>::empty());
    } else {
        let init = s.drop_last();
        let before = words(init);
        lemma_joined_words(init);
        lemma_words_shape(init);
        assert(init.push(s.last()) == s);
        if s.last() == ' ' {
            assert(before.push(Seq::<char>::empty()).drop_last() == before);
            assert(init + space() + Seq::<char>::empty() == s);
        } else {
            let last = before.last().push(s.last());
            let after = before.drop_last().push(last);
            assert(after.drop_last() == before.drop_last());
            if before.len() == 1 {
                assert(after[0] == s);
            } else {
                assert(joined(before, space()) == joined(before.drop_last(), space()) + space()
                    + before.last());
                assert(joined(before.drop_last(), space()) + space() + last == (joined(
                    before.drop_last(),
                    space(),
                ) + space() + before.last()).push(s.last()));
            }
        }
    }
}

/// Joining two runs of words one after the other is joining each and
/// putting the separator between them.
pub proof fn lemma_joined_concat(a: Seq<Seq<char>>, b: Seq<Seq<char>>, sep: Seq<char>)
    requires
        a.len() > 0,
        b.len() > 0,
    ensures
        joined(a + b, sep) == joined(a, sep) + sep + joined(b, sep),
    decreases b.len(),
{
    assert((a + b).drop_last() == a + b.drop_last());
    assert((a + b).last() == b.last());
    if b.len() == 1 {
        assert(a + b.drop_last() == a);
    } else {
        lemma_joined_concat(a, b.drop_last(), sep);
        assert(joined(a, sep) + sep + joined(b.drop_last(), sep) + sep + b.last() == joined(a, sep)
            + sep + (joined(b.drop_last(), sep) + sep + b.last()));
    }
}

/// A run of words joined is its first `k` words joined, the separator, and
/// the remaining words joined.
pub proof fn lemma_joined_split(ws: Seq<Seq<char>>, k: int, sep: Seq<char>)
    requires
        0 < k < ws.len(),
    ensures
        joined(ws, sep) == joined(ws.take(k), sep) + sep + joined(ws.skip(k), sep),
{
    assert(ws.take(k) + ws.skip(k) == ws);
    lemma_joined_concat(ws.take(k), ws.skip(k), sep);
}

/// The first `k` words joined are no longer than all the words joined, and
/// one word more adds at least its own length.
pub proof fn lemma_joined_lengths(ws: Seq<Seq<char>>, k: int, sep: Seq<char>)
    requires
        0 <= k <= ws.len(),
    ensures
        joined(ws.take(k), sep).len() <= joined(ws, sep).len(),
        k < ws.len() ==> joined(ws.take(k + 1), sep).len() >= joined(ws.take(k), sep).len()
            + ws[k].len(),
{
    if 0 < k < ws.len() {
        lemma_joined_split(ws, k, sep);
    } else if k == ws.len() {
        assert(ws.take(k) == ws);
    }
    if k < ws.len() {
        assert(ws.take(k + 1).drop_last() == ws.take(k));
        assert(ws.take(k + 1).last() == ws[k]);
    }
}

/// The words of two texts with a space between them are the words of the
/// first followed by the words of the second.
pub proof fn lemma_words_concat(a: Seq<char>, b: Seq<char>)
    ensures
        words(a + space() + b) == words(a) + words(b),
    decreases b.len(),
{
    let whole = a + space() + b;
    lemma_words_shape(a);
    if b.len() == 0 {
        assert(whole.drop_last() == a);
        assert(words(b) == seq![Seq::<char>::empty()]);
        assert(words(a).push(Seq::<char>::empty()) == words(a) + words(b));
    } else {
        lemma_words_concat(a, b.drop_last());
        lemma_words_shape(b.drop_last());
        assert(whole.drop_last() == a + space() + b.drop_last());
        assert(whole.last() == b.last());
        let before = words(a) + words(b.drop_last());
        if b.last() == ' ' {
            assert(before.push(Seq::<char>::empty()) == words(a) + words(b));
        } else {
            assert(before.last() == words(b.drop_last()).last());
            assert(before.drop_last() == words(a) + words(b.drop_last()).drop_last());
            assert(before.drop_last().push(before.last().push(b.last())) == words(a) + words(b));
        }
    }
}

/// Words without spaces, joined by spaces and split again, come back as
/// they were: splitting into words undoes joining, as joining undoes
/// splitting.
pub proof fn lemma_words_of_joined(ws: Seq<Seq<char>>)
    requires
        ws.len() >= 1,
        forall|i: int| 0 <= i < ws.len() ==> spaceless(#[trigger] ws[i]),
    ensures
        words(joined(ws, space())) == ws,
    decreases ws.len(),
{
    if ws.len() == 1 {
        lemma_words_spaceless(ws[0]);
        assert(seq![ws[0]] == ws);
    } else {
        lemma_words_of_joined(ws.drop_last());
        lemma_words_concat(joined(ws.drop_last(), space()), ws.last());
        lemma_words_spaceless(ws.last());
        assert(ws.drop_last() + seq![ws.last()] == ws);
    }
}

/// `String::push` of the standard library: the string afterwards is the
/// string before with the character at its end.
pub assume_specification[ String::push ](s: &mut String, c: char)
    ensures
        final(s)@ == old(s)@.push(c),
;

/// `Itertools::join` on the strings of a slice: the first string, then for
/// each further string the separator followed by that string; the empty
/// string for an empty slice.
#[verifier::external_body]
pub(crate) fn join(words: &[String], sep: &str) -> (text: String)
    ensures
        text@ == joined(texts(words@), sep@),
{
    words.iter().join(sep)
}

/// The characters of `s`, in order.
pub fn chars_of(s: &str) -> (chars: Vec<char>)
    ensures
        chars@ == s@,
{
    let mut chars: Vec<char> = Vec::new();
    for c in it: s.chars()
        invariant
            it.seq() == s@,
            chars@ == s@.take(it.index() as int),
    {
        chars.push(c);
    }
    chars
}

/// The string spelled by `chars[from..to]`.
pub fn string_of(chars: &Vec<char>, from: usize, to: usize) -> (s: String)
    requires
        from <= to <= chars.len(),
    ensures
        s@ == chars@.subrange(from as int, to as int),
{
    let mut s = String::new();
    let mut i: usize = from;
    while i < to
        invariant
            from <= i <= to <= chars.len(),
            s@ == chars@.subrange(from as int, i as int),
        decreases to - i,
    {
        s.push(chars[i]);
        i += 1;
    }
    s
}

/// The character for a digit below ten.
fn digit_char(d: usize) -> (c: char)
    requires
        d < 10,
    ensures
        c == digit(d as nat),
{
    if d == 0 {
        '0'
    } else if d == 1 {
        '1'
    } else if d == 2 {
        '2'
    } else if d == 3 {
        '3'
    } else if d == 4 {
        '4'
    } else if d == 5 {
        '5'
    } else if d == 6 {
        '6'
    } else if d == 7 {
        '7'
    } else if d == 8 {
        '8'
    } else {
        '9'
    }
}

/// Writes a number in decimal.
pub fn decimal_text(n: usize) -> (text: String)
    ensures
        text@ == decimal(n as nat),
    decreases n,
{
    if n < 10 {
        let mut text = String::new();
        text.push(digit_char(n));
        proof {
            assert(text@ == seq![digit(n as nat)]);
        }
        text
    } else {
        let mut text = decimal_text(n / 10);
        text.push(digit_char(n % 10));
        text
    }
}

/// Splits a text at every occurrence of the character `at`.
pub fn split_at(chars: &Vec<char>, at: char) -> (result: Vec<String>)
    ensures
        texts(result@) == pieces(chars@, at),
{
    let mut done: Vec<String> = Vec::new();
    let mut current = String::new();
    let mut i: usize = 0;
    while i < chars.len()
        invariant
            i <= chars.len(),
            texts(done@).push(current@) == pieces(chars@.take(i as int), at),
        decreases chars.len() - i,
    {
        let ghost before = chars@.take(i as int);
        let ghost after = chars@.take(i + 1);
        proof {
            assert(after.drop_last() == before);
            assert(after.last() == chars@[i as int]);
        }
        if chars[i] == at {
            let ghost old_done = done@;
            done.push(current);
            current = String::new();
            proof {
                assert(texts(done@) == texts(old_done).push(done@.last()@));
                assert(texts(done@).push(current@) == pieces(after, at));
            }
        } else {
            let ghost old_current = current@;
            current.push(chars[i]);
            proof {
                let w = pieces(before, at);
                assert(w.drop_last() == texts(done@));
                assert(w.last() == old_current);
            }
        }
        i += 1;
    }
    proof {
        assert(chars@.take(i as int) == chars@);
    }
    let ghost old_done = done@;
    done.push(current);
    proof {
        assert(texts(done@) == texts(old_done).push(done@.last()@));
    }
    done
}

/// Splits a text at every space.
pub fn split_words(chars: &Vec<char>) -> (result: Vec<String>)
    ensures
        texts(result@) == words(chars@),
{
    split_at(chars, ' ')
}

/// A text without the spaces at its two ends.
pub fn trim(text: &str) -> (result: String)
    ensures
        result@ == trimmed(text@),
{
    let chars = chars_of(text);
    let mut from: usize = 0;
    while from < chars.len() && chars[from] == ' '
        invariant
            from <= chars.len(),
            spaces_end(chars@, from as int) == spaces_end(chars@, 0),
        decreases chars.len() - from,
    {
        from += 1;
    }
    let mut to: usize = chars.len();
    while to > 0 && chars[to - 1] == ' '
        invariant
            to <= chars.len(),
            spaces_start(chars@, to as int) == spaces_start(chars@, chars@.len() as int),
        decreases to,
    {
        to -= 1;
    }
    if from < to {
        string_of(&chars, from, to)
    } else {
        String::new()
    }
}

} // verus!
