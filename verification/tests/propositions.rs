use sequent_calculus::proposition::Proposition;

fn atom(text: &str) -> Proposition {
    Proposition::Atom(String::from(text))
}

#[test]
fn test_atomic_instantiate() {
    let string = String::from("<a> is on the mat");
    let mut atom = Proposition::Atom(string);
    let var = "a".to_string();
    let name = "kitty".to_string();

    atom.instantiate(&var, &name);

    assert_eq!(atom.content(), vec![&Proposition::Atom(String::from("<kitty> is on the mat"))]);
}

#[test]
fn test_negation_instantiate() {
    let string: String = String::from("<a> is on the mat");
    let atom = Proposition::Atom(string);
    let mut negation = Proposition::Negation(Box::new(atom));
    let var = "a".to_string();
    let name = "kitty".to_string();

    negation.instantiate(&var, &name);

    assert_eq!(
        negation.content(),
        vec![&Proposition::Atom(String::from("<kitty> is on the mat"))]
    )
}

#[test]
fn test_conditional_instantiate() {
    let left = String::from("<a> is a cat");
    let right = String::from("<a> is on the mat");

    let left = Proposition::Atom(left);
    let right = Proposition::Atom(right);

    let mut conditional = Proposition::Conditional(Box::new(left), Box::new(right));

    let var = "a".to_string();
    let name = "kitty".to_string();

    conditional.instantiate(&var, &name);

    assert_eq!(
        conditional.content(),
        vec![
            &Proposition::Atom(String::from("<kitty> is a cat")),
            &Proposition::Atom(String::from("<kitty> is on the mat"))
        ]
    )
}

#[test]
fn test_conjunction_instantiate() {
    let left = String::from("<a> is a cat");
    let right = String::from("<a> is on the mat");

    let left = Proposition::Atom(left);
    let right = Proposition::Atom(right);

    let mut conjunction = Proposition::Conjunction(Box::new(left), Box::new(right));

    let var = "a".to_string();
    let name = "kitty".to_string();

    conjunction.instantiate(&var, &name);

    assert_eq!(
        conjunction.content(),
        vec![
            &Proposition::Atom(String::from("<kitty> is a cat")),
            &Proposition::Atom(String::from("<kitty> is on the mat"))
        ]
    )
}

#[test]
fn test_disjunction_instantiate() {
    let left = String::from("<a> is a cat");
    let right = String::from("<a> is on the mat");

    let left = Proposition::Atom(left);
    let right = Proposition::Atom(right);

    let mut disjunction = Proposition::Disjunction(Box::new(left), Box::new(right));

    let var = "a".to_string();
    let name = "kitty".to_string();

    disjunction.instantiate(&var, &name);

    assert_eq!(
        disjunction.content(),
        vec![
            &Proposition::Atom(String::from("<kitty> is a cat")),
            &Proposition::Atom(String::from("<kitty> is on the mat"))
        ]
    )
}

#[test]
fn test_instantiate_existential() {
    let predicate = String::from("<a> is on <bb>");
    let atom = Proposition::Atom(predicate);
    let mut existential = Proposition::Existential(String::from("a"), Box::new(atom));

    let var = "bb".to_string();
    let name = "the mat".to_string();

    existential.instantiate(&var, &name);

    assert_eq!(
        existential.content(),
        vec![&Proposition::Atom(String::from("<a> is on <the mat>"))]
    )
}

#[test]
fn test_instantiate_universal() {
    let predicate = String::from("<a> is on <b>");
    let atom = Proposition::Atom(predicate);
    let mut universal = Proposition::Universal(String::from("a"), Box::new(atom));

    let var = "b".to_string();
    let name = "the mat".to_string();

    universal.instantiate(&var, &name);

    assert_eq!(
        universal.content(),
        vec![&Proposition::Atom(String::from("<a> is on <the mat>"))]
    )
}

#[test]
fn complexity_is_the_longest_path() {
    assert_eq!(atom("A").complexity(), 0);
    assert_eq!(Proposition::Negation(Box::new(atom("A"))).complexity(), 1);
    assert_eq!(Proposition::Existential(String::from("x"), Box::new(atom("A"))).complexity(), 1);
    assert_eq!(Proposition::Universal(String::from("x"), Box::new(atom("A"))).complexity(), 1);
    let deep = Proposition::Negation(Box::new(Proposition::Negation(Box::new(atom("A")))));
    let lopsided = Proposition::Conjunction(Box::new(deep), Box::new(atom("B")));
    assert_eq!(lopsided.complexity(), 3);
    let other = Proposition::Disjunction(
        Box::new(atom("B")),
        Box::new(Proposition::Conditional(Box::new(atom("C")), Box::new(atom("D")))),
    );
    assert_eq!(other.complexity(), 2);
}

#[test]
fn names_and_variables_are_told_apart_by_length() {
    let p = atom("<a> gives <bob> to <c> and <carol> to <bob>; <A>, <a1>, <>, <ab");
    assert_eq!(p.variables(), vec!["a", "c"]);
    assert_eq!(p.names(), vec!["bob", "carol", "bob"]);
}

#[test]
fn names_and_variables_are_collected_left_to_right() {
    let p = Proposition::Conditional(
        Box::new(Proposition::Negation(Box::new(atom("<x> knows <ann>")))),
        Box::new(Proposition::Universal(
            String::from("y"),
            Box::new(Proposition::Disjunction(
                Box::new(atom("<y> knows <bob>")),
                Box::new(atom("<ann> knows <z>")),
            )),
        )),
    );
    assert_eq!(p.names(), vec!["ann", "bob", "ann"]);
    assert_eq!(p.variables(), vec!["x", "y", "z"]);
}

#[test]
fn a_placeholder_needs_both_brackets_and_only_lowercase_letters() {
    let p = atom("<<ab> <cd e> <ef>> x<g>y <h");
    assert_eq!(p.names(), vec!["ab", "ef"]);
    assert_eq!(p.variables(), vec!["g"]);
    assert_eq!(atom("the cat is on the mat").names(), Vec::<String>::new());
    assert_eq!(atom("").variables(), Vec::<String>::new());
}

#[test]
fn instantiate_replaces_every_occurrence_and_nothing_else() {
    let mut p = atom("<a><a> <ab> a <a");
    p.instantiate(&String::from("a"), &String::from("tom"));
    assert_eq!(p, atom("<tom><tom> <ab> a <a"));
}

#[test]
fn instantiate_takes_the_variable_as_plain_text() {
    let mut p = atom("<.> and <a>");
    p.instantiate(&String::from("."), &String::from("$0"));
    assert_eq!(p, atom("<$0> and <a>"));
}

#[test]
fn instantiate_leaves_the_bound_variable_of_a_quantifier() {
    let mut p = Proposition::Existential(String::from("a"), Box::new(atom("<a> sleeps")));
    p.instantiate(&String::from("a"), &String::from("tom"));
    assert_eq!(p, Proposition::Existential(String::from("a"), Box::new(atom("<tom> sleeps"))));
}

#[test]
fn a_clone_is_equal_and_independent() {
    let kept = Proposition::Conjunction(Box::new(atom("<a> purrs")), Box::new(atom("B")));
    let mut copy = kept.clone();
    assert_eq!(copy, kept);
    copy.instantiate(&String::from("a"), &String::from("tom"));
    assert_eq!(kept, Proposition::Conjunction(Box::new(atom("<a> purrs")), Box::new(atom("B"))));
    assert_ne!(copy, kept);
}

#[test]
fn equality_is_structural() {
    assert_eq!(atom("A"), atom("A"));
    assert_ne!(atom("A"), atom("B"));
    assert_ne!(atom("A"), Proposition::Negation(Box::new(atom("A"))));
    assert_ne!(
        Proposition::Conjunction(Box::new(atom("A")), Box::new(atom("B"))),
        Proposition::Disjunction(Box::new(atom("A")), Box::new(atom("B")))
    );
    assert_ne!(
        Proposition::Conjunction(Box::new(atom("A")), Box::new(atom("B"))),
        Proposition::Conjunction(Box::new(atom("B")), Box::new(atom("A")))
    );
    assert_ne!(
        Proposition::Existential(String::from("x"), Box::new(atom("A"))),
        Proposition::Existential(String::from("y"), Box::new(atom("A")))
    );
    assert_ne!(
        Proposition::Existential(String::from("x"), Box::new(atom("A"))),
        Proposition::Universal(String::from("x"), Box::new(atom("A")))
    );
}

#[test]
fn the_canonical_text_of_each_kind() {
    assert_eq!(atom("the cat").to_string(), "the cat");
    assert_eq!(Proposition::Negation(Box::new(atom("A"))).to_string(), "~(A)");
    assert_eq!(
        Proposition::Conditional(Box::new(atom("A")), Box::new(atom("B"))).to_string(),
        "(A > B)"
    );
    assert_eq!(
        Proposition::Conjunction(Box::new(atom("A")), Box::new(atom("B"))).to_string(),
        "(A & B)"
    );
    assert_eq!(
        Proposition::Disjunction(Box::new(atom("A")), Box::new(atom("B"))).to_string(),
        "(A v B)"
    );
    assert_eq!(
        Proposition::Existential(String::from("x"), Box::new(atom("<x> is"))).to_string(),
        "\u{2203}x(<x> is)"
    );
    assert_eq!(
        Proposition::Universal(String::from("x"), Box::new(atom("<x> is"))).to_string(),
        "\u{2200}x(<x> is)"
    );
    let nested = Proposition::Conditional(
        Box::new(Proposition::Conjunction(Box::new(atom("A")), Box::new(atom("B")))),
        Box::new(Proposition::Negation(Box::new(atom("C")))),
    );
    assert_eq!(nested.to_string(), "((A & B) > ~(C))");
}

#[test]
fn symbol_and_word_of_each_kind() {
    let a = || Box::new(atom("A"));
    assert_eq!(atom("A").symbol(), None);
    assert_eq!(atom("A").word(), None);
    assert_eq!(Proposition::Negation(a()).symbol(), Some('~'));
    assert_eq!(Proposition::Negation(a()).word(), Some(String::from("not")));
    assert_eq!(Proposition::Conditional(a(), a()).symbol(), Some('>'));
    assert_eq!(Proposition::Conditional(a(), a()).word(), Some(String::from("implies")));
    assert_eq!(Proposition::Conjunction(a(), a()).symbol(), Some('&'));
    assert_eq!(Proposition::Conjunction(a(), a()).word(), Some(String::from("and")));
    assert_eq!(Proposition::Disjunction(a(), a()).symbol(), Some('v'));
    assert_eq!(Proposition::Disjunction(a(), a()).word(), Some(String::from("or")));
    assert_eq!(Proposition::Existential(String::from("x"), a()).symbol(), Some('\u{2203}'));
    assert_eq!(Proposition::Existential(String::from("x"), a()).word(), Some(String::from("exists")));
    assert_eq!(Proposition::Universal(String::from("x"), a()).symbol(), Some('\u{2200}'));
    assert_eq!(Proposition::Universal(String::from("x"), a()).word(), Some(String::from("forall")));
}

#[test]
fn content_of_an_atom_is_the_atom() {
    let a = atom("A");
    assert_eq!(a.content(), vec![&atom("A")]);
    let q = Proposition::Universal(String::from("x"), Box::new(atom("B")));
    assert_eq!(q.content(), vec![&atom("B")]);
}
