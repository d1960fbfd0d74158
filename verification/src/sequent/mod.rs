//! Sequents: a proof goal made of two lists of formulas, the antecedent
//! (assumed) and the consequent (to be shown).

pub mod create;
pub mod decompose;

use crate::proposition::connective::formulas_of;
use crate::proposition::{Formula, Proposition};
use crate::text::{join, joined, texts};
use vstd::prelude::*;
use vstd::std_specs::cmp::PartialEqSpecImpl;

verus! {

/// The two sides of a sequent.
#[derive(Debug, Clone, Copy, PartialEq, Eq, Structural)]
pub enum Side {
    Antecedent,
    Consequent,
}

impl Side {
    /// The two sides in the order in which a sequent is searched: the
    /// antecedent first.
    pub fn iterator() -> (sides: Vec<Side>)
        ensures
            sides@ == seq![Side::Antecedent, Side::Consequent],
    {
        let mut sides: Vec<Side> = Vec::new();
        sides.push(Side::Antecedent);
        sides.push(Side::Consequent);
        sides
    }
}

/// The place of a formula in a sequent.
#[derive(Debug, Clone, Copy, PartialEq, Eq, Structural)]
pub struct Coordinates {
    pub side: Side,
    pub index: usize,
}

/// The first complex formula of a sequent together with its place.
#[derive(Debug)]
pub struct FirstComplexProp<'a> {
    pub proposition: &'a Proposition,
    pub side: Side,
    pub index: usize,
}

/// The sum of the complexities of the given formulas.
pub open spec fn total_complexity(members: Seq<Formula>) -> nat
    decreases members.len(),
{
    if members.len() == 0 {
        0
    } else {
        total_complexity(members.drop_last()) + members.last().complexity()
    }
}

/// The index of the first formula from `from` on that is not an atom; the
/// number of formulas if there is none.
pub open spec fn first_complex_from(members: Seq<Formula>, from: int) -> int
    decreases members.len() - from,
{
    if from >= members.len() {
        members.len() as int
    } else if 0 <= from && members[from].complexity() > 0 {
        from
    } else {
        first_complex_from(members, from + 1)
    }
}

/// The names of the given formulas, one formula after the other.
pub open spec fn names_of(members: Seq<Formula>) -> Seq<Seq<char>>
    decreases members.len(),
{
    if members.len() == 0 {
        Seq::empty()
    } else {
        names_of(members.drop_last()) + members.last().names()
    }
}

/// The mathematical model of a sequent: two sequences of formulas.
pub struct Judgment {
    pub antecedent: Seq<Formula>,
    pub consequent: Seq<Formula>,
}

impl Judgment {
    /// The formulas on one side.
    pub open spec fn side(self, side: Side) -> Seq<Formula> {
        match side {
            Side::Antecedent => self.antecedent,
            Side::Consequent => self.consequent,
        }
    }

    /// Whether `index` is a place on `side`.
    pub open spec fn has(self, side: Side, index: int) -> bool {
        0 <= index < self.side(side).len()
    }

    /// The sum of the complexities of all formulas on both sides.
    pub open spec fn complexity(self) -> nat {
        total_complexity(self.antecedent) + total_complexity(self.consequent)
    }

    /// A sequent is atomic when every formula on both sides is an atom.
    pub open spec fn is_atomic(self) -> bool {
        &&& forall|i: int|
            0 <= i < self.antecedent.len() ==> (#[trigger] self.antecedent[i]).complexity() == 0
        &&& forall|i: int|
            0 <= i < self.consequent.len() ==> (#[trigger] self.consequent[i]).complexity() == 0
    }

    /// The place of the first formula that is not an atom: the antecedent
    /// is searched from left to right, then the consequent.
    pub open spec fn first_complex(self) -> Option<(Side, int)> {
        let a = first_complex_from(self.antecedent, 0);
        let c = first_complex_from(self.consequent, 0);
        if a < self.antecedent.len() {
            Some((Side::Antecedent, a))
        } else if c < self.consequent.len() {
            Some((Side::Consequent, c))
        } else {
            None
        }
    }

    /// The sequent without the formula at `index` on `side`.
    pub open spec fn without(self, side: Side, index: int) -> Judgment {
        match side {
            Side::Antecedent => Judgment {
                antecedent: self.antecedent.remove(index),
                consequent: self.consequent,
            },
            Side::Consequent => Judgment {
                antecedent: self.antecedent,
                consequent: self.consequent.remove(index),
            },
        }
    }

    /// The sequent with one more formula at the end of the antecedent.
    pub open spec fn push_left(self, formula: Formula) -> Judgment {
        Judgment { antecedent: self.antecedent.push(formula), consequent: self.consequent }
    }

    /// The sequent with one more formula at the end of the consequent.
    pub open spec fn push_right(self, formula: Formula) -> Judgment {
        Judgment { antecedent: self.antecedent, consequent: self.consequent.push(formula) }
    }

    /// The sequent followed, side by side, by another.
    pub open spec fn mix(self, other: Judgment) -> Judgment {
        Judgment {
            antecedent: self.antecedent + other.antecedent,
            consequent: self.consequent + other.consequent,
        }
    }

    /// The names of all formulas: those of the antecedent, formula by
    /// formula, then those of the consequent.
    pub open spec fn names(self) -> Seq<Seq<char>> {
        names_of(self.antecedent) + names_of(self.consequent)
    }

    /// The text of the sequent: the canonical texts of the antecedent with
    /// commas between them, a turnstile, and the canonical texts of the
    /// consequent with commas between them.
    pub open spec fn render(self) -> Seq<char> {
        joined(renders(self.antecedent), seq![',', ' ']) + seq![' ', '|', '~', ' '] + joined(
            renders(self.consequent),
            seq![',', ' '],
        )
    }
}

/// The canonical texts of the given formulas.
pub open spec fn renders(members: Seq<Formula>) -> Seq<Seq<char>> {
    Seq::new(members.len(), |i: int| members[i].render())
}

/// A sequent: the claim that the formulas of the antecedent entail one of
/// the formulas of the consequent.
#[derive(Debug)]
pub struct Sequent {
    ant: Vec<Proposition>,
    con: Vec<Proposition>,
}

impl View for Sequent {
    type V = Judgment;

    closed spec fn view(&self) -> Judgment {
        Judgment { antecedent: formulas_of(self.ant@), consequent: formulas_of(self.con@) }
    }
}

/// A deep copy of a list of formulas.
fn clone_all(members: &Vec<Proposition>) -> (copy: Vec<Proposition>)
    ensures
        formulas_of(copy@) == formulas_of(members@),
{
    let mut copy: Vec<Proposition> = Vec::new();
    let mut i: usize = 0;
    while i < members.len()
        invariant
            i <= members.len(),
            formulas_of(copy@) == formulas_of(members@).take(i as int),
        decreases members.len() - i,
    {
        let ghost before = copy@;
        let member = members[i].clone();
        copy.push(member);
        proof {
            assert(member@ == members@[i as int]@);
            assert(formulas_of(copy@) == formulas_of(before).push(member@));
            assert(formulas_of(copy@) == formulas_of(members@).take(i + 1));
        }
        i += 1;
    }
    proof {
        assert(formulas_of(members@).take(i as int) == formulas_of(members@));
    }
    copy
}

/// Whether two lists hold the same formulas in the same order.
fn same_all(a: &Vec<Proposition>, b: &Vec<Proposition>) -> (same: bool)
    ensures
        same == (formulas_of(a@) == formulas_of(b@)),
{
    if a.len() != b.len() {
        proof {
            assert(formulas_of(a@).len() != formulas_of(b@).len());
        }
        return false;
    }
    let mut i: usize = 0;
    while i < a.len()
        invariant
            i <= a.len(),
            a.len() == b.len(),
            formulas_of(a@).take(i as int) == formulas_of(b@).take(i as int),
        decreases a.len() - i,
    {
        if !a[i].same_as(&b[i]) {
            proof {
                assert(formulas_of(a@)[i as int] != formulas_of(b@)[i as int]);
            }
            return false;
        }
        proof {
            assert(formulas_of(a@).take(i + 1) == formulas_of(a@).take(i as int).push(a@[i as int]@));
            assert(formulas_of(b@).take(i + 1) == formulas_of(b@).take(i as int).push(b@[i as int]@));
        }
        i += 1;
    }
    proof {
        assert(formulas_of(a@).take(i as int) == formulas_of(a@));
        assert(formulas_of(b@).take(i as int) == formulas_of(b@));
    }
    true
}

/// The index of the first formula that is not an atom.
fn first_complex_index(members: &Vec<Proposition>) -> (index: usize)
    ensures
        index == first_complex_from(formulas_of(members@), 0),
        index <= members.len(),
{
    let mut i: usize = 0;
    while i < members.len()
        invariant
            i <= members.len(),
            first_complex_from(formulas_of(members@), i as int) == first_complex_from(
                formulas_of(members@),
                0,
            ),
        decreases members.len() - i,
    {
        match &members[i] {
            Proposition::Atom(_) => {},
            _ => {
                return i;
            },
        }
        i += 1;
    }
    i
}

/// The sum of the complexities of the given formulas.
fn sum_complexity(members: &Vec<Proposition>) -> (sum: usize)
    requires
        total_complexity(formulas_of(members@)) <= usize::MAX,
    ensures
        sum == total_complexity(formulas_of(members@)),
{
    let ghost all = formulas_of(members@);
    let mut sum: usize = 0;
    let mut i: usize = 0;
    while i < members.len()
        invariant
            i <= members.len(),
            all == formulas_of(members@),
            total_complexity(all) <= usize::MAX,
            sum == total_complexity(all.take(i as int)),
        decreases members.len() - i,
    {
        proof {
            assert(all.take(i + 1).drop_last() == all.take(i as int));
            lemma_total_complexity_grows(all, i + 1);
        }
        sum = sum + members[i].complexity();
        i += 1;
    }
    proof {
        assert(all.take(i as int) == all);
    }
    sum
}

/// The complexity of the first `k` formulas is no more than that of all.
pub proof fn lemma_total_complexity_grows(members: Seq<Formula>, k: int)
    requires
        0 <= k <= members.len(),
    ensures
        total_complexity(members.take(k)) <= total_complexity(members),
    decreases members.len() - k,
{
    if k < members.len() {
        lemma_total_complexity_grows(members, k + 1);
        assert(members.take(k + 1).drop_last() == members.take(k));
    } else {
        assert(members.take(k) == members);
    }
}

/// Where the search for a complex formula ends: at a formula that is not
/// an atom, with only atoms before it, or behind the last formula.
pub proof fn lemma_first_complex_from(members: Seq<Formula>, from: int)
    requires
        0 <= from <= members.len(),
    ensures
        from <= first_complex_from(members, from) <= members.len(),
        first_complex_from(members, from) < members.len() ==> members[first_complex_from(
            members,
            from,
        )].complexity() > 0,
        forall|i: int|
            from <= i < first_complex_from(members, from) ==> (#[trigger] members[i]).complexity()
                == 0,
    decreases members.len() - from,
{
    if from < members.len() && members[from].complexity() == 0 {
        lemma_first_complex_from(members, from + 1);
    }
}

/// The search for the first complex formula depends on nothing but the
/// formulas of the sequent: any two answers that the search may give for
/// sequents of the same formulas are the same.
pub proof fn lemma_first_complex_is_stable(
    first: Sequent,
    second: Sequent,
    place: Option<Coordinates>,
    again: Option<Coordinates>,
)
    requires
        first@ == second@,
        match place {
            Some(c) => first@.first_complex() == Some((c.side, c.index as int)),
            None => first@.first_complex() is None,
        },
        match again {
            Some(c) => second@.first_complex() == Some((c.side, c.index as int)),
            None => second@.first_complex() is None,
        },
    ensures
        place == again,
{
}

/// The names of the given formulas, one formula after the other.
fn collect_names(members: &Vec<Proposition>) -> (names: Vec<String>)
    ensures
        texts(names@) == names_of(formulas_of(members@)),
{
    let ghost all = formulas_of(members@);
    let mut names: Vec<String> = Vec::new();
    let mut i: usize = 0;
    proof {
        assert(texts(names@) == names_of(all.take(0)));
    }
    while i < members.len()
        invariant
            i <= members.len(),
            all == formulas_of(members@),
            texts(names@) == names_of(all.take(i as int)),
        decreases members.len() - i,
    {
        let ghost before = names@;
        let mut more = members[i].names();
        let ghost added = more@;
        names.append(&mut more);
        proof {
            assert(all.take(i + 1).drop_last() == all.take(i as int));
            assert(texts(names@) == texts(before) + texts(added));
        }
        i += 1;
    }
    proof {
        assert(all.take(i as int) == all);
    }
    names
}

/// The canonical texts of the given formulas, with commas between them.
fn write_list(members: &Vec<Proposition>) -> (text: String)
    ensures
        text@ == joined(renders(formulas_of(members@)), seq![',', ' ']),
{
    let mut written: Vec<String> = Vec::new();
    let mut i: usize = 0;
    while i < members.len()
        invariant
            i <= members.len(),
            written.len() == i,
            forall|j: int| 0 <= j < i ==> (#[trigger] written@[j])@ == members@[j]@.render(),
        decreases members.len() - i,
    {
        written.push(members[i].to_string());
        i += 1;
    }
    proof {
        reveal_strlit(", ");
        assert(", "@ == seq![',', ' ']);
        assert(texts(written@) == renders(formulas_of(members@)));
    }
    join(written.as_slice(), ", ")
}

impl Sequent {
    /// The sequent with the given antecedent and consequent.
    pub fn new(antecedent: Vec<Proposition>, consequent: Vec<Proposition>) -> (sequent: Sequent)
        ensures
            sequent@.antecedent == formulas_of(antecedent@),
            sequent@.consequent == formulas_of(consequent@),
    {
        Sequent { ant: antecedent, con: consequent }
    }

    /// Whether every formula on both sides is an atom.
    pub fn is_atomic(&self) -> (atomic: bool)
        ensures
            atomic == self@.is_atomic(),
            atomic == (self@.first_complex() is None),
    {
        proof {
            lemma_first_complex_from(self@.antecedent, 0);
            lemma_first_complex_from(self@.consequent, 0);
        }
        first_complex_index(&self.ant) == self.ant.len() && first_complex_index(&self.con)
            == self.con.len()
    }

    /// The sum of the complexities of all formulas on both sides.
    pub fn complexity(&self) -> (sum: usize)
        requires
            self@.complexity() <= usize::MAX,
        ensures
            sum == self@.complexity(),
    {
        sum_complexity(&self.ant) + sum_complexity(&self.con)
    }

    /// Drops the formula at `index` on `side`.
    pub fn remove_prop_at(&mut self, side: Side, index: usize)
        requires
            old(self)@.has(side, index as int),
        ensures
            final(self)@ == old(self)@.without(side, index as int),
    {
        match side {
            Side::Antecedent => {
                self.ant.remove(index);
                proof {
                    assert(formulas_of(self.ant@) == formulas_of(old(self).ant@).remove(
                        index as int,
                    ));
                }
            },
            Side::Consequent => {
                self.con.remove(index);
                proof {
                    assert(formulas_of(self.con@) == formulas_of(old(self).con@).remove(
                        index as int,
                    ));
                }
            },
        };
    }

    /// Takes the formula at the given place out of the sequent and hands it
    /// over.
    pub fn remove(&mut self, coordinates: &Coordinates) -> (removed: Proposition)
        requires
            old(self)@.has(coordinates.side, coordinates.index as int),
        ensures
            removed@ == old(self)@.side(coordinates.side)[coordinates.index as int],
            final(self)@ == old(self)@.without(coordinates.side, coordinates.index as int),
    {
        match coordinates.side {
            Side::Antecedent => {
                let removed = self.ant.remove(coordinates.index);
                proof {
                    assert(formulas_of(self.ant@) == formulas_of(old(self).ant@).remove(
                        coordinates.index as int,
                    ));
                }
                removed
            },
            Side::Consequent => {
                let removed = self.con.remove(coordinates.index);
                proof {
                    assert(formulas_of(self.con@) == formulas_of(old(self).con@).remove(
                        coordinates.index as int,
                    ));
                }
                removed
            },
        }
    }

    /// Appends the formulas of another sequent, side by side.
    pub fn mix(&mut self, other: Sequent)
        ensures
            final(self)@ == old(self)@.mix(other@),
    {
        let ghost added = other@;
        let mut other = other;
        self.ant.append(&mut other.ant);
        self.con.append(&mut other.con);
        proof {
            assert(formulas_of(self.ant@) == formulas_of(old(self).ant@) + added.antecedent);
            assert(formulas_of(self.con@) == formulas_of(old(self).con@) + added.consequent);
        }
    }

    /// The formulas on one side.
    pub fn side(&self, side: &Side) -> (members: &Vec<Proposition>)
        ensures
            formulas_of(members@) == self@.side(*side),
    {
        match side {
            Side::Antecedent => &self.ant,
            Side::Consequent => &self.con,
        }
    }

    /// The place of the first formula that is not an atom: the antecedent
    /// is searched from left to right, then the consequent. Nothing if the
    /// sequent is atomic.
    pub fn first_complex_proposition(&self) -> (place: Option<Coordinates>)
        ensures
            match place {
                Some(c) => self@.first_complex() == Some((c.side, c.index as int)),
                None => self@.first_complex() is None,
            },
    {
        let a = first_complex_index(&self.ant);
        if a < self.ant.len() {
            return Some(Coordinates { side: Side::Antecedent, index: a });
        }
        let c = first_complex_index(&self.con);
        if c < self.con.len() {
            return Some(Coordinates { side: Side::Consequent, index: c });
        }
        None
    }

    /// The first formula that is not an atom, with its place.
    pub fn first_complex_prop<'a>(&'a self) -> (first: Option<FirstComplexProp<'a>>)
        ensures
            match first {
                Some(f) => {
                    &&& self@.first_complex() == Some((f.side, f.index as int))
                    &&& f.proposition@ == self@.side(f.side)[f.index as int]
                },
                None => self@.first_complex() is None,
            },
    {
        match self.first_complex_proposition() {
            None => None,
            Some(place) => {
                proof {
                    lemma_first_complex_from(self@.antecedent, 0);
                    lemma_first_complex_from(self@.consequent, 0);
                }
                let proposition = match place.side {
                    Side::Antecedent => &self.ant[place.index],
                    Side::Consequent => &self.con[place.index],
                };
                Some(FirstComplexProp { proposition, side: place.side, index: place.index })
            },
        }
    }

    /// Appends a formula to the antecedent.
    pub fn push_left(&mut self, proposition: Proposition)
        ensures
            final(self)@ == old(self)@.push_left(proposition@),
    {
        self.ant.push(proposition);
        proof {
            assert(formulas_of(self.ant@) == formulas_of(old(self).ant@).push(proposition@));
        }
    }

    /// Appends a formula to the consequent.
    pub fn push_right(&mut self, proposition: Proposition)
        ensures
            final(self)@ == old(self)@.push_right(proposition@),
    {
        self.con.push(proposition);
        proof {
            assert(formulas_of(self.con@) == formulas_of(old(self).con@).push(proposition@));
        }
    }

    /// The text of the sequent, as in `A, (B & C) |~ D`.
    pub fn to_string(&self) -> (text: String)
        ensures
            text@ == self@.render(),
    {
        let mut text = write_list(&self.ant);
        text.append(" |~ ");
        text.append(write_list(&self.con).as_str());
        proof {
            reveal_strlit(" |~ ");
            assert(" |~ "@ == seq![' ', '|', '~', ' ']);
        }
        text
    }

    /// The names mentioned in the sequent: those of each formula of the
    /// antecedent in turn, then those of each formula of the consequent.
    pub fn names(&self) -> (names: Vec<String>)
        ensures
            texts(names@) == self@.names(),
    {
        let mut names = collect_names(&self.ant);
        let mut more = collect_names(&self.con);
        let ghost first = names@;
        let ghost second = more@;
        names.append(&mut more);
        proof {
            assert(texts(names@) == texts(first) + texts(second));
        }
        names
    }
}

impl Clone for Sequent {
    /// A deep copy: changing the copy leaves the sequent as it is.
    fn clone(&self) -> (copy: Self)
        ensures
            copy@ == self@,
    {
        Sequent { ant: clone_all(&self.ant), con: clone_all(&self.con) }
    }
}

impl PartialEq for Sequent {
    fn eq(&self, other: &Sequent) -> (same: bool) {
        same_all(&self.ant, &other.ant) && same_all(&self.con, &other.con)
    }
}

impl PartialEqSpecImpl for Sequent {
    open spec fn obeys_eq_spec() -> bool {
        true
    }

    open spec fn eq_spec(&self, other: &Sequent) -> bool {
        self@ == other@
    }
}

} // verus!
