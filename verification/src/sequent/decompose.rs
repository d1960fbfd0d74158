//! The decomposition rules of the sequent calculus.
//!
//! One step takes the first complex formula out of a sequent and replaces
//! it by its parts. The result is a tree of two levels: a branch holds
//! alternative leaves, of which one has to succeed; a leaf holds parent
//! sequents, which all have to be proved.

use crate::proposition::{Formula, Proposition};
use crate::sequent::{lemma_first_complex_from, Judgment, Sequent, Side};
use crate::text::texts;
use vstd::pervasive::unreached;
use vstd::prelude::*;

verus! {

/// One way in which a sequent follows: from all the parents together.
#[derive(Debug)]
pub struct Leaf {
    parents: Vec<Sequent>,
}

/// All the ways in which a sequent may follow: from any one of the leaves.
#[derive(Debug)]
pub struct Branch {
    leaves: Vec<Leaf>,
}

/// The models of a list of sequents.
pub open spec fn judgments_of(sequents: Seq<Sequent>) -> Seq<Judgment> {
    Seq::new(sequents.len(), |i: int| sequents[i]@)
}

/// The models of a list of leaves.
pub open spec fn leaves_of(leaves: Seq<Leaf>) -> Seq<Seq<Judgment>> {
    Seq::new(leaves.len(), |i: int| leaves[i]@)
}

impl View for Leaf {
    type V = Seq<Judgment>;

    closed spec fn view(&self) -> Seq<Judgment> {
        judgments_of(self.parents@)
    }
}

impl View for Branch {
    type V = Seq<Seq<Judgment>>;

    closed spec fn view(&self) -> Seq<Seq<Judgment>> {
        leaves_of(self.leaves@)
    }
}

impl Leaf {
    /// The sequents that all have to be proved.
    pub fn parents(&self) -> (parents: &Vec<Sequent>)
        ensures
            judgments_of(parents@) == self@,
    {
        &self.parents
    }
}

impl Branch {
    /// The alternatives, of which one has to succeed.
    pub fn leaves(&self) -> (leaves: &Vec<Leaf>)
        ensures
            leaves_of(leaves@) == self@,
    {
        &self.leaves
    }
}

/// The given names without repetitions, each at the place where it comes
/// first.
pub open spec fn distinct(names: Seq<Seq<char>>) -> Seq<Seq<char>>
    decreases names.len(),
{
    if names.len() == 0 {
        Seq::empty()
    } else {
        let before = distinct(names.drop_last());
        if before.contains(names.last()) {
            before
        } else {
            before.push(names.last())
        }
    }
}

/// The name that is tried where no name is known and none is supplied.
/// Where no name is known, every name is fresh.
pub open spec fn spare_name() -> Seq<char> {
    seq!['a', 'a']
}

/// The names that a reusable quantifier rule tries: every name of the
/// predicate and of the rest of the sequent, once each, in this order. If
/// there is none, the names of the supply, once each. If the supply is
/// empty too, the spare name. There is always a name to try.
pub open spec fn candidates(predicate: Formula, rest: Judgment, supply: Seq<Seq<char>>) -> Seq<
    Seq<char>,
> {
    let known = distinct(predicate.names() + rest.names());
    let supplied = distinct(supply);
    if known.len() > 0 {
        known
    } else if supplied.len() > 0 {
        supplied
    } else {
        seq![spare_name()]
    }
}

/// A sequent with one more formula at the end of the given side.
pub open spec fn pushed(rest: Judgment, side: Side, formula: Formula) -> Judgment {
    match side {
        Side::Antecedent => rest.push_left(formula),
        Side::Consequent => rest.push_right(formula),
    }
}

/// One leaf for each name, with one parent: the rest of the sequent and,
/// on the given side, the predicate with the name in place of the variable.
pub open spec fn instances(
    rest: Judgment,
    side: Side,
    variable: Seq<char>,
    predicate: Formula,
    names: Seq<Seq<char>>,
) -> Seq<Seq<Judgment>> {
    Seq::new(
        names.len(),
        |i: int| seq![pushed(rest, side, predicate.instantiate(variable, names[i]))],
    )
}

/// A negation moves its operand to the other side.
pub open spec fn negation_rule(rest: Judgment, side: Side, negatum: Formula) -> Seq<
    Seq<Judgment>,
> {
    match side {
        Side::Antecedent => seq![seq![rest.push_right(negatum)]],
        Side::Consequent => seq![seq![rest.push_left(negatum)]],
    }
}

/// A conditional in the antecedent asks for two parents: one that shows
/// its left side, one that assumes its right side. In the consequent it
/// assumes its left side and shows its right side.
pub open spec fn conditional_rule(rest: Judgment, side: Side, left: Formula, right: Formula) -> Seq<
    Seq<Judgment>,
> {
    match side {
        Side::Antecedent => seq![seq![rest.push_right(left), rest.push_left(right)]],
        Side::Consequent => seq![seq![rest.push_left(left).push_right(right)]],
    }
}

/// A conjunction in the antecedent assumes both its sides. In the
/// consequent it asks for two parents, one that shows each side.
pub open spec fn conjunction_rule(rest: Judgment, side: Side, left: Formula, right: Formula) -> Seq<
    Seq<Judgment>,
> {
    match side {
        Side::Antecedent => seq![seq![rest.push_left(left).push_left(right)]],
        Side::Consequent => seq![seq![rest.push_right(left), rest.push_right(right)]],
    }
}

/// A disjunction in the antecedent asks for two parents, one that assumes
/// each side. In the consequent it shows both its sides.
pub open spec fn disjunction_rule(rest: Judgment, side: Side, left: Formula, right: Formula) -> Seq<
    Seq<Judgment>,
> {
    match side {
        Side::Antecedent => seq![seq![rest.push_left(left), rest.push_left(right)]],
        Side::Consequent => seq![seq![rest.push_right(left).push_right(right)]],
    }
}

/// The two places at which a quantifier asks for an eigenvariable, a name
/// that occurs nowhere else: an existential in the antecedent and a
/// universal in the consequent. This calculus has no rule for them.
pub open spec fn asks_for_eigenvariable(side: Side, formula: Formula) -> bool {
    ||| formula is Existential && side == Side::Antecedent
    ||| formula is Universal && side == Side::Consequent
}

/// What a formula that was taken from a side of a sequent is replaced by.
/// A quantifier at one of its two other places is tried with every
/// candidate name. Where there is no rule, there is no leaf.
pub open spec fn rule(rest: Judgment, side: Side, formula: Formula, supply: Seq<Seq<char>>) -> Seq<
    Seq<Judgment>,
> {
    match formula {
        Formula::Atom(_) => Seq::empty(),
        Formula::Negation(negatum) => negation_rule(rest, side, *negatum),
        Formula::Conditional(left, right) => conditional_rule(rest, side, *left, *right),
        Formula::Conjunction(left, right) => conjunction_rule(rest, side, *left, *right),
        Formula::Disjunction(left, right) => disjunction_rule(rest, side, *left, *right),
        Formula::Existential(variable, predicate) => if side == Side::Consequent {
            instances(rest, side, variable, *predicate, candidates(*predicate, rest, supply))
        } else {
            Seq::empty()
        },
        Formula::Universal(variable, predicate) => if side == Side::Antecedent {
            instances(rest, side, variable, *predicate, candidates(*predicate, rest, supply))
        } else {
            Seq::empty()
        },
    }
}

/// Whether the next step on a sequent would ask for an eigenvariable.
pub open spec fn awaits_eigenvariable(sequent: Judgment) -> bool {
    match sequent.first_complex() {
        Some((side, index)) => asks_for_eigenvariable(side, sequent.side(side)[index]),
        None => false,
    }
}

/// One step of decomposition: nothing for an atomic sequent; else the
/// first complex formula is taken out and replaced as its rule says.
pub open spec fn decomposed(sequent: Judgment, supply: Seq<Seq<char>>) -> Option<
    Seq<Seq<Judgment>>,
> {
    match sequent.first_complex() {
        None => None,
        Some((side, index)) => Some(
            rule(sequent.without(side, index), side, sequent.side(side)[index], supply),
        ),
    }
}

/// The binary connectives.
pub open spec fn is_binary(formula: Formula) -> bool {
    formula is Conditional || formula is Conjunction || formula is Disjunction
}

/// The binary connectives on the side on which their rule has two
/// premises: an assumed conditional, a conjunction to be shown, an assumed
/// disjunction.
pub open spec fn has_two_premises(side: Side, formula: Formula) -> bool {
    ||| formula is Conditional && side == Side::Antecedent
    ||| formula is Conjunction && side == Side::Consequent
    ||| formula is Disjunction && side == Side::Antecedent
}

/// Decomposing a binary connective gives exactly one leaf. The leaf has
/// exactly two parents for an assumed conditional, a conjunction to be
/// shown and an assumed disjunction, and exactly one parent for every
/// other binary connective.
pub proof fn lemma_binary_rules_have_one_leaf(
    sequent: Judgment,
    supply: Seq<Seq<char>>,
    side: Side,
    index: int,
)
    requires
        sequent.first_complex() == Some((side, index)),
        is_binary(sequent.side(side)[index]),
    ensures
        decomposed(sequent, supply) matches Some(branch) && branch.len() == 1 && branch[0].len()
            == if has_two_premises(side, sequent.side(side)[index]) {
            2nat
        } else {
            1nat
        },
{
}

/// The names that a list keeps when its repetitions are dropped are the
/// names of the list, and none of them comes twice.
pub proof fn lemma_distinct(names: Seq<Seq<char>>)
    ensures
        forall|name: Seq<char>| distinct(names).contains(name) <==> names.contains(name),
        forall|i: int, j: int|
            0 <= i < j < distinct(names).len() ==> distinct(names)[i] != distinct(names)[j],
    decreases names.len(),
{
    if names.len() > 0 {
        let init = names.drop_last();
        let before = distinct(init);
        lemma_distinct(init);
        assert forall|name: Seq<char>| distinct(names).contains(name) <==> names.contains(
            name,
        ) by {
            if names.contains(name) {
                let k = choose|k: int| 0 <= k < names.len() && names[k] == name;
                if k < init.len() {
                    assert(init[k] == name);
                    assert(init.contains(name));
                    assert(before.contains(name));
                    let m = choose|m: int| 0 <= m < before.len() && before[m] == name;
                    assert(distinct(names)[m] == name);
                } else if !before.contains(name) {
                    assert(distinct(names)[before.len() as int] == name);
                } else {
                    let m = choose|m: int| 0 <= m < before.len() && before[m] == name;
                    assert(distinct(names)[m] == name);
                }
            }
            if distinct(names).contains(name) {
                let m = choose|m: int| 0 <= m < distinct(names).len() && distinct(names)[m] == name;
                if m < before.len() {
                    assert(before[m] == name);
                    assert(before.contains(name));
                    assert(init.contains(name));
                    let k = choose|k: int| 0 <= k < init.len() && init[k] == name;
                    assert(names[k] == name);
                } else {
                    assert(names[names.len() - 1] == name);
                }
            }
        }
    }
}

/// There is always a candidate name, no candidate comes twice, and where
/// the predicate or the rest of the sequent mentions a name, the
/// candidates are the names mentioned.
pub proof fn lemma_candidates(predicate: Formula, rest: Judgment, supply: Seq<Seq<char>>)
    ensures
        candidates(predicate, rest, supply).len() >= 1,
        forall|i: int, j: int|
            0 <= i < j < candidates(predicate, rest, supply).len() ==> candidates(
                predicate,
                rest,
                supply,
            )[i] != candidates(predicate, rest, supply)[j],
        (predicate.names() + rest.names()).len() > 0 ==> forall|name: Seq<char>|
            candidates(predicate, rest, supply).contains(name) <==> (predicate.names()
                + rest.names()).contains(name),
{
    let mentioned = predicate.names() + rest.names();
    lemma_distinct(mentioned);
    lemma_distinct(supply);
    if mentioned.len() > 0 {
        assert(mentioned.contains(mentioned[0]));
        assert(distinct(mentioned).contains(mentioned[0]));
    }
}

/// A quantifier that is tried with names gives one leaf for each
/// candidate name, in the order of the candidates, at least one leaf, and
/// every leaf has exactly one parent: the rest of the sequent and, on the
/// side of the quantifier, the predicate with the name in place of the
/// variable.
pub proof fn lemma_quantifier_rules_have_one_parent_each(
    sequent: Judgment,
    supply: Seq<Seq<char>>,
    side: Side,
    index: int,
)
    requires
        sequent.first_complex() == Some((side, index)),
        sequent.side(side)[index] is Existential || sequent.side(side)[index] is Universal,
        !asks_for_eigenvariable(side, sequent.side(side)[index]),
    ensures
        decomposed(sequent, supply) matches Some(branch) && branch.len() >= 1 && branch.len()
            == candidates(
            sequent.side(side)[index].content()[0],
            sequent.without(side, index),
            supply,
        ).len() && forall|i: int| 0 <= i < branch.len() ==> (#[trigger] branch[i]).len() == 1,
{
    lemma_candidates(
        sequent.side(side)[index].content()[0],
        sequent.without(side, index),
        supply,
    );
}

/// Every step gives at least one leaf: a sequent that is decomposed
/// follows in at least one way.
pub proof fn lemma_step_has_a_leaf(sequent: Judgment, supply: Seq<Seq<char>>)
    requires
        !awaits_eigenvariable(sequent),
    ensures
        decomposed(sequent, supply) matches Some(branch) ==> branch.len() >= 1,
{
    lemma_first_complex_from(sequent.antecedent, 0);
    lemma_first_complex_from(sequent.consequent, 0);
    match sequent.first_complex() {
        Some((side, index)) => {
            let formula = sequent.side(side)[index];
            if formula is Existential || formula is Universal {
                lemma_candidates(formula.content()[0], sequent.without(side, index), supply);
            }
        },
        None => {},
    }
}

/// A sequent is not decomposed exactly if it is atomic: if every formula
/// on both its sides has complexity zero.
pub proof fn lemma_terminal_iff_atomic(sequent: Judgment, supply: Seq<Seq<char>>)
    ensures
        decomposed(sequent, supply) is None <==> sequent.is_atomic(),
        sequent.first_complex() is None <==> sequent.is_atomic(),
{
    lemma_first_complex_from(sequent.antecedent, 0);
    lemma_first_complex_from(sequent.consequent, 0);
}

/// A branch with one leaf that has one parent.
fn one_parent(parent: Sequent) -> (branch: Branch)
    ensures
        branch@ == seq![seq![parent@]],
{
    let mut parents: Vec<Sequent> = Vec::new();
    parents.push(parent);
    let mut leaves: Vec<Leaf> = Vec::new();
    leaves.push(Leaf { parents });
    let branch = Branch { leaves };
    proof {
        assert(branch.leaves@[0]@ == seq![parent@]);
        assert(branch@ == seq![seq![parent@]]);
    }
    branch
}

/// A branch with one leaf that has two parents.
fn two_parents(first: Sequent, second: Sequent) -> (branch: Branch)
    ensures
        branch@ == seq![seq![first@, second@]],
{
    let mut parents: Vec<Sequent> = Vec::new();
    parents.push(first);
    parents.push(second);
    let mut leaves: Vec<Leaf> = Vec::new();
    leaves.push(Leaf { parents });
    let branch = Branch { leaves };
    proof {
        assert(branch.leaves@[0]@ == seq![first@, second@]);
        assert(branch@ == seq![seq![first@, second@]]);
    }
    branch
}

/// Replaces a negation that was taken from `side` of the sequent: its
/// operand goes to the other side.
pub fn decompose_negation(sequent: Sequent, side: Side, negatum: Proposition) -> (branch: Branch)
    ensures
        branch@ == negation_rule(sequent@, side, negatum@),
{
    let mut sequent = sequent;
    match side {
        Side::Antecedent => {
            sequent.push_right(negatum);
            one_parent(sequent)
        },
        Side::Consequent => {
            sequent.push_left(negatum);
            one_parent(sequent)
        },
    }
}

/// Replaces a conditional that was taken from `side` of the sequent.
pub fn decompose_conditional(sequent: Sequent, side: Side, left: Proposition, right: Proposition) -> (branch:
    Branch)
    ensures
        branch@ == conditional_rule(sequent@, side, left@, right@),
{
    let mut sequent = sequent;
    match side {
        Side::Antecedent => {
            let mut parent_0: Sequent = sequent.clone();
            parent_0.push_right(left);
            let mut parent_1: Sequent = sequent;
            parent_1.push_left(right);
            two_parents(parent_0, parent_1)
        },
        Side::Consequent => {
            sequent.push_left(left);
            sequent.push_right(right);
            one_parent(sequent)
        },
    }
}

/// Replaces a conjunction that was taken from `side` of the sequent.
pub fn decompose_conjunction(sequent: Sequent, side: Side, left: Proposition, right: Proposition) -> (branch:
    Branch)
    ensures
        branch@ == conjunction_rule(sequent@, side, left@, right@),
{
    let mut sequent = sequent;
    match side {
        Side::Antecedent => {
            sequent.push_left(left);
            sequent.push_left(right);
            one_parent(sequent)
        },
        Side::Consequent => {
            let mut parent_0: Sequent = sequent.clone();
            parent_0.push_right(left);
            let mut parent_1: Sequent = sequent;
            parent_1.push_right(right);
            two_parents(parent_0, parent_1)
        },
    }
}

/// Replaces a disjunction that was taken from `side` of the sequent.
pub fn decompose_disjunction(sequent: Sequent, side: Side, left: Proposition, right: Proposition) -> (branch:
    Branch)
    ensures
        branch@ == disjunction_rule(sequent@, side, left@, right@),
{
    let mut sequent = sequent;
    match side {
        Side::Antecedent => {
            let mut parent_0: Sequent = sequent.clone();
            parent_0.push_left(left);
            let mut parent_1: Sequent = sequent;
            parent_1.push_left(right);
            two_parents(parent_0, parent_1)
        },
        Side::Consequent => {
            sequent.push_right(left);
            sequent.push_right(right);
            one_parent(sequent)
        },
    }
}

/// Whether `name` is among `names`.
fn holds(names: &Vec<String>, name: &String) -> (yes: bool)
    ensures
        yes == texts(names@).contains(name@),
{
    let mut i: usize = 0;
    while i < names.len()
        invariant
            i <= names.len(),
            forall|j: int| 0 <= j < i ==> texts(names@)[j] != name@,
        decreases names.len() - i,
    {
        if names[i] == *name {
            proof {
                assert(texts(names@)[i as int] == name@);
            }
            return true;
        }
        i += 1;
    }
    false
}

/// Drops every name that came before.
fn without_repetitions(names: &Vec<String>) -> (kept: Vec<String>)
    ensures
        texts(kept@) == distinct(texts(names@)),
{
    let ghost all = texts(names@);
    let mut kept: Vec<String> = Vec::new();
    let mut i: usize = 0;
    proof {
        assert(texts(kept@) == distinct(all.take(0)));
    }
    while i < names.len()
        invariant
            i <= names.len(),
            all == texts(names@),
            texts(kept@) == distinct(all.take(i as int)),
        decreases names.len() - i,
    {
        proof {
            assert(all.take(i + 1).drop_last() == all.take(i as int));
            assert(all.take(i + 1).last() == names@[i as int]@);
        }
        if !holds(&kept, &names[i]) {
            let ghost before = kept@;
            kept.push(names[i].clone());
            proof {
                assert(texts(kept@) == texts(before).push(names@[i as int]@));
            }
        }
        i += 1;
    }
    proof {
        assert(all.take(i as int) == all);
    }
    kept
}

/// The names that a reusable quantifier rule tries.
fn candidate_names(content: &Proposition, sequent: &Sequent, names: &Vec<String>) -> (chosen: Vec<
    String,
>)
    ensures
        texts(chosen@) == candidates(content@, sequent@, texts(names@)),
{
    let mut known = content.names();
    let mut more = sequent.names();
    let ghost first = known@;
    let ghost second = more@;
    known.append(&mut more);
    proof {
        assert(texts(known@) == texts(first) + texts(second));
    }
    let known = without_repetitions(&known);
    if known.len() > 0 {
        return known;
    }
    let supplied = without_repetitions(names);
    if supplied.len() > 0 {
        return supplied;
    }
    let mut spare: Vec<String> = Vec::new();
    spare.push("aa".to_owned());
    proof {
        reveal_strlit("aa");
        assert("aa"@ == spare_name());
        assert(texts(spare@) == seq![spare_name()]);
    }
    spare
}

/// One leaf for each name: the sequent and, on the given side, the
/// predicate with the name in place of the variable.
fn instantiate_each(
    sequent: &Sequent,
    side: Side,
    var: &String,
    content: &Proposition,
    names: &Vec<String>,
) -> (branch: Branch)
    ensures
        branch@ == instances(sequent@, side, var@, content@, texts(names@)),
{
    let mut leaves: Vec<Leaf> = Vec::new();
    let mut i: usize = 0;
    while i < names.len()
        invariant
            i <= names.len(),
            leaves.len() == i,
            forall|j: int|
                0 <= j < i ==> (#[trigger] leaves@[j])@ == seq![
                    pushed(sequent@, side, content@.instantiate(var@, names@[j]@)),
                ],
        decreases names.len() - i,
    {
        let mut leaf: Sequent = sequent.clone();
        let mut prop: Proposition = content.clone();
        prop.instantiate(var, &names[i]);
        match side {
            Side::Antecedent => leaf.push_left(prop),
            Side::Consequent => leaf.push_right(prop),
        }
        let mut parents: Vec<Sequent> = Vec::new();
        parents.push(leaf);
        let made = Leaf { parents };
        proof {
            assert(made@ == seq![leaf@]);
        }
        leaves.push(made);
        i += 1;
    }
    let branch = Branch { leaves };
    proof {
        assert(branch@ == instances(sequent@, side, var@, content@, texts(names@)));
    }
    branch
}

/// Replaces an existential that was taken from the consequent: one leaf
/// for each candidate name, at least one, each with the predicate about
/// that name added to the consequent.
pub fn decompose_existential(
    sequent: Sequent,
    side: Side,
    var: String,
    content: Proposition,
    names: &Vec<String>,
) -> (branch: Branch)
    requires
        side == Side::Consequent,
    ensures
        branch@ == instances(
            sequent@,
            side,
            var@,
            content@,
            candidates(content@, sequent@, texts(names@)),
        ),
        branch@.len() >= 1,
{
    proof {
        lemma_candidates(content@, sequent@, texts(names@));
    }
    let chosen = candidate_names(&content, &sequent, names);
    instantiate_each(&sequent, side, &var, &content, &chosen)
}

/// Replaces a universal that was taken from the antecedent: one leaf for
/// each candidate name, at least one, each with the predicate about that
/// name added to the antecedent.
pub fn decompose_universal(
    sequent: Sequent,
    side: Side,
    var: String,
    content: Proposition,
    names: &Vec<String>,
) -> (branch: Branch)
    requires
        side == Side::Antecedent,
    ensures
        branch@ == instances(
            sequent@,
            side,
            var@,
            content@,
            candidates(content@, sequent@, texts(names@)),
        ),
        branch@.len() >= 1,
{
    proof {
        lemma_candidates(content@, sequent@, texts(names@));
    }
    let chosen = candidate_names(&content, &sequent, names);
    instantiate_each(&sequent, side, &var, &content, &chosen)
}

/// Whether the next step on the sequent would ask for an eigenvariable.
/// [`decompose`] does not take such a sequent.
pub fn needs_eigenvariable(sequent: &Sequent) -> (yes: bool)
    ensures
        yes == awaits_eigenvariable(sequent@),
{
    match sequent.first_complex_prop() {
        None => false,
        Some(first) => match first.proposition {
            Proposition::Existential(_, _) => match first.side {
                Side::Antecedent => true,
                Side::Consequent => false,
            },
            Proposition::Universal(_, _) => match first.side {
                Side::Antecedent => false,
                Side::Consequent => true,
            },
            _ => false,
        },
    }
}

/// One step of proof search. Takes the first complex formula out of the
/// sequent, the antecedent searched before the consequent, and replaces it
/// as the rule for its connective and its side says. An atomic sequent is
/// not decomposed; every other sequent follows in at least one way.
/// `names` supplies the names that a quantifier rule tries where the
/// sequent mentions none.
pub fn decompose(sequent: Sequent, names: &Vec<String>) -> (branch: Option<Branch>)
    requires
        !awaits_eigenvariable(sequent@),
    ensures
        match branch {
            Some(b) => decomposed(sequent@, texts(names@)) == Some(b@) && b@.len() >= 1,
            None => decomposed(sequent@, texts(names@)) is None,
        },
{
    proof {
        lemma_step_has_a_leaf(sequent@, texts(names@));
    }
    let mut sequent = sequent;
    match sequent.first_complex_proposition() {
        None => None,
        Some(fcp) => {
            proof {
                lemma_first_complex_from(sequent@.antecedent, 0);
                lemma_first_complex_from(sequent@.consequent, 0);
            }
            let proposition: Proposition = sequent.remove(&fcp);
            match proposition {
                Proposition::Atom(_) => unreached(),
                Proposition::Negation(negatum) => Some(
                    decompose_negation(sequent, fcp.side, *negatum),
                ),
                Proposition::Conditional(left, right) => Some(
                    decompose_conditional(sequent, fcp.side, *left, *right),
                ),
                Proposition::Conjunction(left, right) => Some(
                    decompose_conjunction(sequent, fcp.side, *left, *right),
                ),
                Proposition::Disjunction(left, right) => Some(
                    decompose_disjunction(sequent, fcp.side, *left, *right),
                ),
                Proposition::Existential(var, content) => Some(
                    decompose_existential(sequent, fcp.side, var, *content, names),
                ),
                Proposition::Universal(var, content) => Some(
                    decompose_universal(sequent, fcp.side, var, *content, names),
                ),
            }
        },
    }
}

} // verus!
