use sequent_calculus::proposition::Proposition;
use sequent_calculus::sequent::decompose::{
    decompose, decompose_conditional, decompose_conjunction, decompose_disjunction,
    decompose_existential, decompose_negation, decompose_universal, needs_eigenvariable, Branch,
};
use sequent_calculus::sequent::{Sequent, Side};

fn atom(text: &str) -> Proposition {
    Proposition::Atom(String::from(text))
}

fn not(p: Proposition) -> Proposition {
    Proposition::Negation(Box::new(p))
}

fn and(l: Proposition, r: Proposition) -> Proposition {
    Proposition::Conjunction(Box::new(l), Box::new(r))
}

fn or(l: Proposition, r: Proposition) -> Proposition {
    Proposition::Disjunction(Box::new(l), Box::new(r))
}

fn implies(l: Proposition, r: Proposition) -> Proposition {
    Proposition::Conditional(Box::new(l), Box::new(r))
}

fn some(v: &str, p: Proposition) -> Proposition {
    Proposition::Existential(String::from(v), Box::new(p))
}

fn every(v: &str, p: Proposition) -> Proposition {
    Proposition::Universal(String::from(v), Box::new(p))
}

fn no_names() -> Vec<String> {
    Vec::new()
}

fn parents_of(branch: &Branch) -> Vec<Vec<Sequent>> {
    branch.leaves().iter().map(|leaf| leaf.parents().clone()).collect()
}

fn step(sequent: Sequent, names: &Vec<String>) -> Vec<Vec<Sequent>> {
    assert!(!needs_eigenvariable(&sequent));
    let branch: Branch = decompose(sequent, names).unwrap();
    let leaves = parents_of(&branch);
    assert!(leaves.len() >= 1);
    leaves
}

#[test]
fn a_conjunction_to_be_shown_asks_for_both_sides() {
    let s = Sequent::new(vec![], vec![and(atom("A"), atom("B"))]);
    assert_eq!(
        step(s, &no_names()),
        vec![vec![Sequent::new(vec![], vec![atom("A")]), Sequent::new(vec![], vec![atom("B")])]]
    );
}

#[test]
fn a_conditional_that_is_assumed_asks_for_two_parents() {
    let s = Sequent::new(vec![implies(atom("A"), atom("B"))], vec![]);
    assert_eq!(
        step(s, &no_names()),
        vec![vec![Sequent::new(vec![], vec![atom("A")]), Sequent::new(vec![atom("B")], vec![])]]
    );
}

#[test]
fn a_negation_changes_sides() {
    let s = Sequent::new(vec![atom("G"), not(atom("A"))], vec![atom("D")]);
    assert_eq!(
        step(s, &no_names()),
        vec![vec![Sequent::new(vec![atom("G")], vec![atom("D"), atom("A")])]]
    );
    let s = Sequent::new(vec![atom("G")], vec![not(atom("A")), atom("D")]);
    assert_eq!(
        step(s, &no_names()),
        vec![vec![Sequent::new(vec![atom("G"), atom("A")], vec![atom("D")])]]
    );
}

#[test]
fn a_conditional_to_be_shown_assumes_its_left_side() {
    let s = Sequent::new(vec![atom("G")], vec![implies(atom("A"), atom("B")), atom("D")]);
    assert_eq!(
        step(s, &no_names()),
        vec![vec![Sequent::new(vec![atom("G"), atom("A")], vec![atom("D"), atom("B")])]]
    );
}

#[test]
fn a_conditional_that_is_assumed_keeps_the_rest_in_both_parents() {
    let s = Sequent::new(vec![atom("G"), implies(atom("A"), atom("B")), atom("H")], vec![atom("D")]);
    assert_eq!(
        step(s, &no_names()),
        vec![vec![
            Sequent::new(vec![atom("G"), atom("H")], vec![atom("D"), atom("A")]),
            Sequent::new(vec![atom("G"), atom("H"), atom("B")], vec![atom("D")]),
        ]]
    );
}

#[test]
fn a_conjunction_that_is_assumed_gives_both_sides() {
    let s = Sequent::new(vec![and(atom("A"), atom("B")), atom("G")], vec![atom("D")]);
    assert_eq!(
        step(s, &no_names()),
        vec![vec![Sequent::new(vec![atom("G"), atom("A"), atom("B")], vec![atom("D")])]]
    );
}

#[test]
fn a_disjunction_that_is_assumed_asks_for_two_parents() {
    let s = Sequent::new(vec![or(atom("A"), atom("B")), atom("G")], vec![atom("D")]);
    assert_eq!(
        step(s, &no_names()),
        vec![vec![
            Sequent::new(vec![atom("G"), atom("A")], vec![atom("D")]),
            Sequent::new(vec![atom("G"), atom("B")], vec![atom("D")]),
        ]]
    );
}

#[test]
fn a_disjunction_to_be_shown_gives_both_sides() {
    let s = Sequent::new(vec![atom("G")], vec![atom("D"), or(atom("A"), atom("B"))]);
    assert_eq!(
        step(s, &no_names()),
        vec![vec![Sequent::new(vec![atom("G")], vec![atom("D"), atom("A"), atom("B")])]]
    );
}

#[test]
fn binary_rules_have_one_leaf_with_one_or_two_parents() {
    let two = vec![
        Sequent::new(vec![implies(atom("A"), atom("B"))], vec![atom("C")]),
        Sequent::new(vec![atom("C")], vec![and(atom("A"), atom("B"))]),
        Sequent::new(vec![or(atom("A"), atom("B"))], vec![atom("C")]),
    ];
    for s in two {
        let leaves = step(s, &no_names());
        assert_eq!(leaves.len(), 1);
        assert_eq!(leaves[0].len(), 2);
    }
    let one = vec![
        Sequent::new(vec![atom("C")], vec![implies(atom("A"), atom("B"))]),
        Sequent::new(vec![and(atom("A"), atom("B"))], vec![atom("C")]),
        Sequent::new(vec![atom("C")], vec![or(atom("A"), atom("B"))]),
    ];
    for s in one {
        let leaves = step(s, &no_names());
        assert_eq!(leaves.len(), 1);
        assert_eq!(leaves[0].len(), 1);
    }
}

#[test]
fn an_atomic_sequent_is_not_decomposed() {
    assert!(decompose(Sequent::new(vec![atom("A")], vec![atom("B")]), &no_names()).is_none());
    assert!(decompose(Sequent::new(vec![], vec![]), &no_names()).is_none());
}

#[test]
fn the_first_complex_formula_is_the_one_decomposed() {
    let s = Sequent::new(
        vec![atom("G"), and(atom("A"), atom("B")), not(atom("C"))],
        vec![not(atom("D"))],
    );
    assert_eq!(
        step(s, &no_names()),
        vec![vec![Sequent::new(
            vec![atom("G"), not(atom("C")), atom("A"), atom("B")],
            vec![not(atom("D"))]
        )]]
    );
}

#[test]
fn an_existential_to_be_shown_is_tried_with_every_name() {
    let s = Sequent::new(
        vec![atom("<ann> sleeps"), atom("<bob> knows <ann>")],
        vec![atom("<cy> sings"), some("x", atom("<x> knows <bob> or <dee>"))],
    );
    let rest = |p: Proposition| {
        Sequent::new(
            vec![atom("<ann> sleeps"), atom("<bob> knows <ann>")],
            vec![atom("<cy> sings"), p],
        )
    };
    assert_eq!(
        step(s, &vec![String::from("fresh")]),
        vec![
            vec![rest(atom("<bob> knows <bob> or <dee>"))],
            vec![rest(atom("<dee> knows <bob> or <dee>"))],
            vec![rest(atom("<ann> knows <bob> or <dee>"))],
            vec![rest(atom("<cy> knows <bob> or <dee>"))],
        ]
    );
}

#[test]
fn a_universal_that_is_assumed_is_tried_with_every_name() {
    let s = Sequent::new(
        vec![every("x", implies(atom("<x> is a cat"), atom("<x> purrs"))), atom("<tom> is a cat")],
        vec![atom("<tom> purrs")],
    );
    assert_eq!(
        step(s, &no_names()),
        vec![vec![Sequent::new(
            vec![
                atom("<tom> is a cat"),
                implies(atom("<tom> is a cat"), atom("<tom> purrs"))
            ],
            vec![atom("<tom> purrs")]
        )]]
    );
}

#[test]
fn without_known_names_the_supplied_names_are_tried() {
    let s = Sequent::new(vec![atom("it rains")], vec![some("x", atom("<x> is wet"))]);
    let supply = vec![String::from("aa"), String::from("bb"), String::from("aa")];
    assert_eq!(
        step(s, &supply),
        vec![
            vec![Sequent::new(vec![atom("it rains")], vec![atom("<aa> is wet")])],
            vec![Sequent::new(vec![atom("it rains")], vec![atom("<bb> is wet")])],
        ]
    );
}

#[test]
fn without_any_name_a_spare_name_is_tried() {
    let s = Sequent::new(vec![every("x", atom("<x> is wet"))], vec![]);
    assert_eq!(
        step(s, &no_names()),
        vec![vec![Sequent::new(vec![atom("<aa> is wet")], vec![])]]
    );
    let s = Sequent::new(vec![], vec![some("x", atom("<x> is a cat"))]);
    assert_eq!(
        step(s, &no_names()),
        vec![vec![Sequent::new(vec![], vec![atom("<aa> is a cat")])]]
    );
}

#[test]
fn an_existential_rule_always_has_a_leaf() {
    let branch = decompose_existential(
        Sequent::new(vec![], vec![]),
        Side::Consequent,
        String::from("x"),
        atom("<x> is a cat"),
        &no_names(),
    );
    let leaves = parents_of(&branch);
    assert_eq!(leaves, vec![vec![Sequent::new(vec![], vec![atom("<aa> is a cat")])]]);
}

#[test]
fn an_existential_rule_tries_the_names_of_predicate_and_sequent() {
    let branch = decompose_existential(
        Sequent::new(vec![atom("<kitty> is a cat")], vec![]),
        Side::Consequent,
        String::from("x"),
        atom("<x> is on <mat>"),
        &vec![String::from("unused")],
    );
    assert_eq!(
        parents_of(&branch),
        vec![
            vec![Sequent::new(vec![atom("<kitty> is a cat")], vec![atom("<mat> is on <mat>")])],
            vec![Sequent::new(vec![atom("<kitty> is a cat")], vec![atom("<kitty> is on <mat>")])],
        ]
    );
}

#[test]
fn a_universal_rule_adds_to_the_antecedent() {
    let branch = decompose_universal(
        Sequent::new(vec![atom("<tom> is a cat"), atom("<tom> is old")], vec![atom("<ann> is")]),
        Side::Antecedent,
        String::from("y"),
        atom("<y> purrs"),
        &no_names(),
    );
    let rest = |p: Proposition| {
        Sequent::new(
            vec![atom("<tom> is a cat"), atom("<tom> is old"), p],
            vec![atom("<ann> is")],
        )
    };
    assert_eq!(
        parents_of(&branch),
        vec![vec![rest(atom("<tom> purrs"))], vec![rest(atom("<ann> purrs"))]]
    );
    let branch = decompose_universal(
        Sequent::new(vec![], vec![]),
        Side::Antecedent,
        String::from("y"),
        atom("<y> purrs"),
        &vec![String::from("bo"), String::from("bo")],
    );
    assert_eq!(parents_of(&branch), vec![vec![Sequent::new(vec![atom("<bo> purrs")], vec![])]]);
}

#[test]
fn the_rules_of_the_connectives_one_by_one() {
    let rest = || Sequent::new(vec![atom("G")], vec![atom("D")]);
    assert_eq!(
        parents_of(&decompose_negation(rest(), Side::Antecedent, atom("A"))),
        vec![vec![Sequent::new(vec![atom("G")], vec![atom("D"), atom("A")])]]
    );
    assert_eq!(
        parents_of(&decompose_conditional(rest(), Side::Antecedent, atom("A"), atom("B"))),
        vec![vec![
            Sequent::new(vec![atom("G")], vec![atom("D"), atom("A")]),
            Sequent::new(vec![atom("G"), atom("B")], vec![atom("D")]),
        ]]
    );
    assert_eq!(
        parents_of(&decompose_conjunction(rest(), Side::Consequent, atom("A"), atom("B"))),
        vec![vec![
            Sequent::new(vec![atom("G")], vec![atom("D"), atom("A")]),
            Sequent::new(vec![atom("G")], vec![atom("D"), atom("B")]),
        ]]
    );
    assert_eq!(
        parents_of(&decompose_disjunction(rest(), Side::Consequent, atom("A"), atom("B"))),
        vec![vec![Sequent::new(vec![atom("G")], vec![atom("D"), atom("A"), atom("B")])]]
    );
}

#[test]
fn the_eigenvariable_rules_are_told_in_advance() {
    assert!(needs_eigenvariable(&Sequent::new(vec![some("x", atom("<x> is"))], vec![])));
    assert!(needs_eigenvariable(&Sequent::new(vec![], vec![every("x", atom("<x> is"))])));
    assert!(needs_eigenvariable(&Sequent::new(
        vec![atom("A")],
        vec![atom("B"), every("x", atom("<x> is")), not(atom("C"))]
    )));
    assert!(!needs_eigenvariable(&Sequent::new(vec![every("x", atom("<x> is"))], vec![])));
    assert!(!needs_eigenvariable(&Sequent::new(vec![], vec![some("x", atom("<x> is"))])));
    assert!(!needs_eigenvariable(&Sequent::new(
        vec![not(atom("A")), some("x", atom("<x> is"))],
        vec![]
    )));
    assert!(!needs_eigenvariable(&Sequent::new(vec![atom("A")], vec![atom("B")])));
}

#[test]
fn the_parents_of_one_leaf_do_not_share_formulas() {
    let s = Sequent::new(vec![or(atom("<a> is"), atom("B"))], vec![atom("<a> was")]);
    let mut leaves = step(s, &no_names());
    let mut second = leaves[0].pop().unwrap();
    let first = leaves[0].pop().unwrap();
    let moved = second.remove(&sequent_calculus::sequent::Coordinates {
        side: Side::Consequent,
        index: 0,
    });
    assert_eq!(moved, atom("<a> was"));
    assert_eq!(first, Sequent::new(vec![atom("<a> is")], vec![atom("<a> was")]));
}
