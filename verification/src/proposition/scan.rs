//! Placeholders inside the text of an atom: `<x>` stands for a variable,
//! `<name>` for a constant. A placeholder is a run of lowercase letters
//! between angle brackets; its length tells the two kinds apart.

use crate::text::{chars_of, string_of, texts};
use vstd::prelude::*;

verus! {

/// The letters `a` to `z`.
pub open spec fn is_lowercase(c: char) -> bool {
    'a' <= c && c <= 'z'
}

/// The index just past the run of lowercase letters that starts at `from`.
pub open spec fn run_end(s: Seq<char>, from: int) -> int
    decreases s.len() - from,
{
    if 0 <= from < s.len() && is_lowercase(s[from]) {
        run_end(s, from + 1)
    } else {
        from
    }
}

/// Whether a placeholder opens at `from`: a `<`, one or more lowercase
/// letters, and a `>` right after them.
pub open spec fn placeholder_at(s: Seq<char>, from: int) -> bool {
    &&& 0 <= from < s.len()
    &&& s[from] == '<'
    &&& from + 1 < run_end(s, from + 1) < s.len()
    &&& s[run_end(s, from + 1)] == '>'
}

/// The letters of the placeholders found from `from` on, scanning left to
/// right and resuming behind each placeholder found. With `long` the
/// placeholders of two or more letters are kept, without it those of
/// exactly one letter.
pub open spec fn placeholders(s: Seq<char>, from: int, long: bool) -> Seq<Seq<char>>
    decreases s.len() - from,
{
    if from < 0 || from >= s.len() {
        Seq::empty()
    } else if placeholder_at(s, from) {
        let end = run_end(s, from + 1);
        let rest = placeholders(s, end + 1, long);
        if (end - from - 1 >= 2) == long {
            seq![s.subrange(from + 1, end)] + rest
        } else {
            rest
        }
    } else {
        placeholders(s, from + 1, long)
    }
}

/// The constants that a text mentions: its placeholders of two or more
/// letters, in order of appearance.
pub open spec fn names_in(s: Seq<char>) -> Seq<Seq<char>> {
    placeholders(s, 0, true)
}

/// The variables that a text mentions: its placeholders of one letter, in
/// order of appearance.
pub open spec fn variables_in(s: Seq<char>) -> Seq<Seq<char>> {
    placeholders(s, 0, false)
}

/// A text of lowercase letters only.
pub open spec fn all_lowercase(s: Seq<char>) -> bool {
    forall|i: int| 0 <= i < s.len() ==> is_lowercase(#[trigger] s[i])
}

/// The run of lowercase letters that starts at `from` holds lowercase
/// letters only and ends inside the text.
pub proof fn lemma_run_end(s: Seq<char>, from: int)
    requires
        0 <= from <= s.len(),
    ensures
        from <= run_end(s, from) <= s.len(),
        all_lowercase(s.subrange(from, run_end(s, from))),
    decreases s.len() - from,
{
    if from < s.len() && is_lowercase(s[from]) {
        lemma_run_end(s, from + 1);
        let run = s.subrange(from, run_end(s, from));
        assert forall|i: int| 0 <= i < run.len() implies is_lowercase(#[trigger] run[i]) by {
            if i > 0 {
                assert(run[i] == s.subrange(from + 1, run_end(s, from + 1))[i - 1]);
            }
        }
    }
}

/// The letters of a placeholder of one kind: lowercase letters, two or
/// more of them for a name, exactly one for a variable.
pub open spec fn is_kind(letters: Seq<char>, long: bool) -> bool {
    &&& all_lowercase(letters)
    &&& if long {
        letters.len() >= 2
    } else {
        letters.len() == 1
    }
}

/// Every placeholder that is found is a run of lowercase letters: of two
/// or more letters where names are looked for, of exactly one letter where
/// variables are.
pub proof fn lemma_placeholders_are_letters(s: Seq<char>, from: int, long: bool)
    requires
        0 <= from,
    ensures
        forall|i: int|
            0 <= i < placeholders(s, from, long).len() ==> is_kind(
                #[trigger] placeholders(s, from, long)[i],
                long,
            ),
    decreases s.len() - from,
{
    if from < s.len() {
        if placeholder_at(s, from) {
            let end = run_end(s, from + 1);
            let rest = placeholders(s, end + 1, long);
            let all = placeholders(s, from, long);
            lemma_run_end(s, from + 1);
            lemma_placeholders_are_letters(s, end + 1, long);
            assert forall|i: int| 0 <= i < all.len() implies is_kind(#[trigger] all[i], long) by {
                if (end - from - 1 >= 2) == long {
                    if i > 0 {
                        assert(all[i] == rest[i - 1]);
                    } else {
                        assert(all[0] == s.subrange(from + 1, end));
                    }
                } else {
                    assert(all[i] == rest[i]);
                }
            }
        } else {
            lemma_placeholders_are_letters(s, from + 1, long);
            assert(placeholders(s, from, long) == placeholders(s, from + 1, long));
        }
    } else {
        assert(placeholders(s, from, long).len() == 0);
    }
}

/// A text between angle brackets.
pub open spec fn bracketed(t: Seq<char>) -> Seq<char> {
    seq!['<'] + t + seq!['>']
}

/// Whether `pattern` stands in `s` at index `at`.
pub open spec fn occurs_at(s: Seq<char>, pattern: Seq<char>, at: int) -> bool {
    &&& 0 <= at
    &&& at + pattern.len() <= s.len()
    &&& s.subrange(at, at + pattern.len()) == pattern
}

/// The part of `s` from `from` on, with every occurrence of `pattern`
/// replaced by `replacement`. Occurrences are taken left to right and do
/// not overlap.
pub open spec fn replaced(
    s: Seq<char>,
    pattern: Seq<char>,
    replacement: Seq<char>,
    from: int,
) -> Seq<char>
    decreases s.len() - from,
{
    if from < 0 || from >= s.len() {
        Seq::empty()
    } else if pattern.len() > 0 && occurs_at(s, pattern, from) {
        replacement + replaced(s, pattern, replacement, from + pattern.len())
    } else {
        seq![s[from]] + replaced(s, pattern, replacement, from + 1)
    }
}

/// The text `s` with every `<variable>` replaced by `<name>`.
pub open spec fn substituted(s: Seq<char>, variable: Seq<char>, name: Seq<char>) -> Seq<char> {
    replaced(s, bracketed(variable), bracketed(name), 0)
}

/// A text in which the pattern does not occur stays as it is.
pub proof fn lemma_replaced_without_occurrence(
    s: Seq<char>,
    pattern: Seq<char>,
    replacement: Seq<char>,
    from: int,
)
    requires
        0 <= from <= s.len(),
        forall|at: int| from <= at < s.len() ==> !occurs_at(s, pattern, at),
    ensures
        replaced(s, pattern, replacement, from) == s.skip(from),
    decreases s.len() - from,
{
    if from < s.len() {
        lemma_replaced_without_occurrence(s, pattern, replacement, from + 1);
        assert(seq![s[from]] + s.skip(from + 1) == s.skip(from));
    }
}

/// Whether `c` is one of the letters `a` to `z`.
fn lowercase(c: char) -> (yes: bool)
    ensures
        yes == is_lowercase(c),
{
    'a' <= c && c <= 'z'
}

/// Walks over the lowercase letters that start at `from`.
fn skip_lowercase(chars: &Vec<char>, from: usize) -> (end: usize)
    requires
        from <= chars.len(),
    ensures
        end == run_end(chars@, from as int),
        from <= end <= chars.len(),
{
    let mut end: usize = from;
    while end < chars.len() && lowercase(chars[end])
        invariant
            from <= end <= chars.len(),
            run_end(chars@, end as int) == run_end(chars@, from as int),
        decreases chars.len() - end,
    {
        end += 1;
    }
    end
}

/// Collects the placeholders of one kind from a text.
fn scan_placeholders(chars: &Vec<char>, long: bool) -> (found: Vec<String>)
    ensures
        texts(found@) == placeholders(chars@, 0, long),
{
    let mut found: Vec<String> = Vec::new();
    let mut i: usize = 0;
    while i < chars.len()
        invariant
            i <= chars.len(),
            texts(found@) + placeholders(chars@, i as int, long) == placeholders(chars@, 0, long),
        decreases chars.len() - i,
    {
        if chars[i] == '<' {
            let end: usize = skip_lowercase(chars, i + 1);
            if i + 1 < end && end < chars.len() && chars[end] == '>' {
                if (end - i - 1 >= 2) == long {
                    let ghost before = found@;
                    found.push(string_of(chars, i + 1, end));
                    proof {
                        let rest = placeholders(chars@, end + 1, long);
                        let token = chars@.subrange(i + 1, end as int);
                        assert(texts(found@) == texts(before).push(token));
                        assert(texts(before).push(token) + rest == texts(before) + (seq![token]
                            + rest));
                    }
                }
                i = end + 1;
            } else {
                i += 1;
            }
        } else {
            i += 1;
        }
    }
    proof {
        assert(texts(found@) + Seq::<Seq<char>>::empty() == texts(found@));
    }
    found
}

/// The variables mentioned in a text: every `<x>` with one lowercase
/// letter between the brackets, in order of appearance.
pub fn get_variables(string: &String) -> (variables: Vec<String>)
    ensures
        texts(variables@) == variables_in(string@),
{
    let chars = chars_of(string.as_str());
    scan_placeholders(&chars, false)
}

/// The constants mentioned in a text: every `<name>` with two or more
/// lowercase letters between the brackets, in order of appearance.
pub fn get_names(string: &String) -> (names: Vec<String>)
    ensures
        texts(names@) == names_in(string@),
{
    let chars = chars_of(string.as_str());
    scan_placeholders(&chars, true)
}

/// Whether `pattern` stands in `chars` at index `at`.
fn matches_at(chars: &Vec<char>, pattern: &Vec<char>, at: usize) -> (yes: bool)
    requires
        at <= chars.len(),
    ensures
        yes == occurs_at(chars@, pattern@, at as int),
{
    if pattern.len() > chars.len() - at {
        return false;
    }
    let mut k: usize = 0;
    while k < pattern.len()
        invariant
            k <= pattern.len(),
            at + pattern.len() <= chars.len(),
            chars@.subrange(at as int, at + k) == pattern@.take(k as int),
        decreases pattern.len() - k,
    {
        if chars[at + k] != pattern[k] {
            proof {
                assert(chars@.subrange(at as int, at + pattern.len())[k as int] != pattern@[k as int]);
            }
            return false;
        }
        proof {
            assert(chars@.subrange(at as int, at + k + 1) == chars@.subrange(
                at as int,
                at + k,
            ).push(chars@[at + k]));
            assert(pattern@.take(k + 1) == pattern@.take(k as int).push(pattern@[k as int]));
        }
        k += 1;
    }
    proof {
        assert(pattern@.take(k as int) == pattern@);
    }
    true
}

/// The characters of `text` between angle brackets.
fn bracket(text: &String) -> (chars: Vec<char>)
    ensures
        chars@ == bracketed(text@),
{
    let inner = chars_of(text.as_str());
    let mut chars: Vec<char> = Vec::new();
    chars.push('<');
    let mut i: usize = 0;
    while i < inner.len()
        invariant
            i <= inner.len(),
            chars@ == seq!['<'] + inner@.take(i as int),
        decreases inner.len() - i,
    {
        chars.push(inner[i]);
        i += 1;
    }
    proof {
        assert(inner@.take(i as int) == inner@);
    }
    chars.push('>');
    chars
}

/// Replaces every `<var>` in `string` by `<name>`, left to right.
pub fn set_name(string: &mut String, var: &String, name: &String)
    ensures
        final(string)@ == substituted(old(string)@, var@, name@),
{
    let chars = chars_of(string.as_str());
    let pattern = bracket(var);
    let replacement = bracket(name);
    let mut out: Vec<char> = Vec::new();
    let mut i: usize = 0;
    while i < chars.len()
        invariant
            i <= chars.len(),
            pattern@.len() > 0,
            out@ + replaced(chars@, pattern@, replacement@, i as int) == replaced(
                chars@,
                pattern@,
                replacement@,
                0,
            ),
        decreases chars.len() - i,
    {
        let ghost before = out@;
        if matches_at(&chars, &pattern, i) {
            let mut k: usize = 0;
            while k < replacement.len()
                invariant
                    k <= replacement.len(),
                    out@ == before + replacement@.take(k as int),
                decreases replacement.len() - k,
            {
                out.push(replacement[k]);
                k += 1;
            }
            proof {
                assert(replacement@.take(k as int) == replacement@);
                let rest = replaced(chars@, pattern@, replacement@, i + pattern@.len());
                assert((before + replacement@) + rest == before + (replacement@ + rest));
            }
            i += pattern.len();
        } else {
            out.push(chars[i]);
            proof {
                let rest = replaced(chars@, pattern@, replacement@, i + 1);
                assert(before.push(chars@[i as int]) + rest == before + (seq![chars@[i as int]]
                    + rest));
            }
            i += 1;
        }
    }
    proof {
        assert(out@ + Seq::<char>::empty() == out@);
        assert(out@.subrange(0, out@.len() as int) == out@);
    }
    *string = string_of(&out, 0, out.len());
}

} // verus!
