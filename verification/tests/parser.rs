use sequent_calculus::proposition::create::{
    check_for_var, create_binary, deparenthesize, find_binary, find_connective, find_negation,
    find_quantifier, is_conditional_str, is_conjunction_str, is_disjunction_str, is_negation_str,
    make_binary, make_quantifier, make_unary, nested_word_is_binary_connective,
    proposition_from_string, proposition_type_from_char,
    string_first_and_last_chars_are_connected_parens, Outline, PropositionCreationError,
    PropositionType,
};
use sequent_calculus::proposition::Proposition;

fn atom(text: &str) -> Proposition {
    Proposition::Atom(String::from(text))
}

fn parse(text: &str) -> Result<Proposition, PropositionCreationError> {
    proposition_from_string(String::from(text))
}

fn stripped(text: &str) -> String {
    let mut s = String::from(text);
    deparenthesize(&mut s);
    s
}

fn words(text: &str) -> Vec<String> {
    text.split(' ').map(String::from).collect()
}

#[test]
fn test_atom_from_str() {
    let s = "the cat is on the mat".to_string();
    let expected = Proposition::Atom(s.clone());
    let actual = proposition_from_string(s);
    assert_eq!(actual.unwrap(), expected);
}

#[test]
fn test_negation_from_str() {
    let expected =
        Proposition::Negation(Box::new(Proposition::Atom(String::from("the cat is on the mat"))));
    let symb = "~ (the cat is on the mat)".to_string();
    let symb = proposition_from_string(symb);
    assert_eq!(expected, symb.unwrap());

    let char = "not (the cat is on the mat)".to_string();
    let char = proposition_from_string(char);
    assert_eq!(expected, char.unwrap());
}

#[test]
fn test_conditional_from_str() {
    let expected = Proposition::Conditional(
        Box::new(Proposition::Atom(String::from("Kitty is a cat"))),
        Box::new(Proposition::Atom(String::from("Kitty is on the mat"))),
    );
    let symb = "(Kitty is a cat) > (Kitty is on the mat)".to_string();
    let symb = proposition_from_string(symb);
    assert_eq!(expected, symb.unwrap());

    let char = "(Kitty is a cat) implies (Kitty is on the mat)".to_string();
    let char = proposition_from_string(char);
    assert_eq!(expected, char.unwrap());
}

#[test]
fn test_conjunction_from_str() {
    let expected = Proposition::Conjunction(
        Box::new(Proposition::Atom(String::from("Kitty is a cat"))),
        Box::new(Proposition::Atom(String::from("Kitty is on the mat"))),
    );
    let symb = "(Kitty is a cat) & (Kitty is on the mat)".to_string();
    let symb = proposition_from_string(symb);
    assert_eq!(expected, symb.unwrap());

    let char = "(Kitty is a cat) and (Kitty is on the mat)".to_string();
    let char = proposition_from_string(char);
    assert_eq!(expected, char.unwrap());
}

#[test]
fn test_disjunction_from_str() {
    let expected = Proposition::Disjunction(
        Box::new(Proposition::Atom(String::from("Kitty is a cat"))),
        Box::new(Proposition::Atom(String::from("Kitty is on the mat"))),
    );
    let symb = "(Kitty is a cat) v (Kitty is on the mat)".to_string();
    let symb = proposition_from_string(symb);
    assert_eq!(expected, symb.unwrap());

    let char = "(Kitty is a cat) or (Kitty is on the mat)".to_string();
    let char = proposition_from_string(char);
    assert_eq!(expected, char.unwrap());
}

#[test]
fn an_atom_has_complexity_zero() {
    let p = parse("the cat is on the mat").unwrap();
    assert_eq!(p, atom("the cat is on the mat"));
    assert_eq!(p.complexity(), 0);
}

#[test]
fn a_negation_has_complexity_one() {
    let p = parse("~ (the cat is on the mat)").unwrap();
    assert_eq!(p, Proposition::Negation(Box::new(atom("the cat is on the mat"))));
    assert_eq!(p.complexity(), 1);
}

#[test]
fn separate_groups_keep_their_parentheses() {
    assert_eq!(stripped("(A) & (B)"), "(A) & (B)");
    assert!(!string_first_and_last_chars_are_connected_parens(&String::from("(A) & (B)")));
}

#[test]
fn deparenthesize_strips_every_enclosing_pair() {
    assert_eq!(stripped("(A & B)"), "A & B");
    assert_eq!(stripped("(((A)))"), "A");
    assert_eq!(stripped("((A) & (B))"), "(A) & (B)");
    assert_eq!(stripped("()"), "");
    assert_eq!(stripped(""), "");
    assert_eq!(stripped("("), "(");
    assert_eq!(stripped(")"), ")");
    assert_eq!(stripped("A"), "A");
    assert_eq!(stripped("(A"), "(A");
    assert_eq!(stripped("A)"), "A)");
    assert_eq!(stripped(")("), ")(");
    assert_eq!(stripped("()()"), "()()");
}

#[test]
fn deparenthesize_does_not_ask_for_balance_at_the_end() {
    assert!(string_first_and_last_chars_are_connected_parens(&String::from("((A)")));
    assert_eq!(stripped("((A)"), "(A");
}

#[test]
fn deparenthesize_twice_is_deparenthesize_once() {
    for text in ["((A & B))", "(A) & (B)", "((A)", "", "()", "(()())", "(\u{2203} <x> (P))"] {
        let once = stripped(text);
        assert_eq!(stripped(&once), once);
    }
}

#[test]
fn parsing_twice_gives_equal_formulas() {
    for text in ["(A & B) > ~ C", "not (A or B)", "forall <x> (<x> is)", "& B", ""] {
        let first = parse(text);
        let second = parse(text);
        match (first, second) {
            (Ok(a), Ok(b)) => assert_eq!(a, b),
            (Err(_), Err(_)) => {}
            _ => panic!("the same text read in two ways"),
        }
    }
}

#[test]
fn the_outermost_parentheses_may_be_left_out() {
    let expected = Proposition::Conjunction(Box::new(atom("A")), Box::new(atom("B")));
    assert_eq!(parse("A & B").unwrap(), expected);
    assert_eq!(parse("(A & B)").unwrap(), expected);
    assert_eq!(parse("((A & B))").unwrap(), expected);
    assert_eq!(parse("((A) & (B))").unwrap(), expected);
}

#[test]
fn connectives_group_from_the_left_without_precedence() {
    assert_eq!(
        parse("A & B v C").unwrap(),
        Proposition::Conjunction(
            Box::new(atom("A")),
            Box::new(Proposition::Disjunction(Box::new(atom("B")), Box::new(atom("C"))))
        )
    );
    assert_eq!(
        parse("A > B > C").unwrap(),
        Proposition::Conditional(
            Box::new(atom("A")),
            Box::new(Proposition::Conditional(Box::new(atom("B")), Box::new(atom("C"))))
        )
    );
    assert_eq!(
        parse("(A > B) > C").unwrap(),
        Proposition::Conditional(
            Box::new(Proposition::Conditional(Box::new(atom("A")), Box::new(atom("B")))),
            Box::new(atom("C"))
        )
    );
}

#[test]
fn a_connective_inside_parentheses_does_not_split() {
    assert_eq!(
        parse("(A & B) v (C > D)").unwrap(),
        Proposition::Disjunction(
            Box::new(Proposition::Conjunction(Box::new(atom("A")), Box::new(atom("B")))),
            Box::new(Proposition::Conditional(Box::new(atom("C")), Box::new(atom("D"))))
        )
    );
    assert_eq!(parse("f(a & b)").unwrap(), atom("f(a & b)"));
}

#[test]
fn a_leading_negation_governs_the_rest() {
    assert_eq!(
        parse("not A & B").unwrap(),
        Proposition::Negation(Box::new(Proposition::Conjunction(
            Box::new(atom("A")),
            Box::new(atom("B"))
        )))
    );
    assert_eq!(
        parse("(~ A) & B").unwrap(),
        Proposition::Conjunction(
            Box::new(Proposition::Negation(Box::new(atom("A")))),
            Box::new(atom("B"))
        )
    );
    assert_eq!(
        parse("~ ~ A").unwrap(),
        Proposition::Negation(Box::new(Proposition::Negation(Box::new(atom("A")))))
    );
}

#[test]
fn a_negation_sign_that_is_no_word_of_its_own_is_text() {
    assert_eq!(parse("~(A)").unwrap(), atom("~(A)"));
    assert_eq!(parse("notA").unwrap(), atom("notA"));
}

#[test]
fn quantifiers_bind_a_variable() {
    let expected =
        Proposition::Existential(String::from("a"), Box::new(atom("<a> is on the mat")));
    assert_eq!(parse("\u{2203} <a> (<a> is on the mat)").unwrap(), expected);
    assert_eq!(parse("exists <a> (<a> is on the mat)").unwrap(), expected);
    assert_eq!(parse("exists <a> <a> is on the mat").unwrap(), expected);
    let expected = Proposition::Universal(String::from("x"), Box::new(atom("<x> is")));
    assert_eq!(parse("\u{2200} <x> (<x> is)").unwrap(), expected);
    assert_eq!(parse("forall <x> (<x> is)").unwrap(), expected);
}

#[test]
fn the_predicate_of_an_existential_mentions_its_variable() {
    let p = parse("\u{2203} <a> (<a> is on the mat)").unwrap();
    match p {
        Proposition::Existential(variable, predicate) => {
            assert_eq!(variable, "a");
            assert_eq!(*predicate, atom("<a> is on the mat"));
            assert_eq!(predicate.names(), Vec::<String>::new());
            assert_eq!(predicate.variables(), vec!["a"]);
        }
        _ => panic!("no existential"),
    }
}

#[test]
fn a_quantifier_written_without_spaces_is_text() {
    assert_eq!(
        parse("\u{2203}<a>(<a> is on the mat)").unwrap(),
        atom("\u{2203}<a>(<a> is on the mat)")
    );
}

#[test]
fn a_quantifier_governs_the_rest() {
    assert_eq!(
        parse("forall <x> (<x> is a cat) > (<x> purrs)").unwrap(),
        Proposition::Universal(
            String::from("x"),
            Box::new(Proposition::Conditional(
                Box::new(atom("<x> is a cat")),
                Box::new(atom("<x> purrs"))
            ))
        )
    );
}

#[test]
fn a_quantifier_needs_a_variable_in_brackets() {
    for text in [
        "exists x (<x> is)",
        "exists <xy> (<xy> is)",
        "exists <X> (<X> is)",
        "exists <1> P",
        "exists",
        "forall <x (P)",
        "forall  <x> P",
        "\u{2200} (<x> is)",
    ] {
        match parse(text) {
            Err(PropositionCreationError::MalformedString(s)) => assert_eq!(s, text),
            _ => panic!("read a quantifier without a variable"),
        }
    }
}

#[test]
fn malformed_text_is_handed_back_without_its_outer_parentheses() {
    match parse("((exists x P))") {
        Err(PropositionCreationError::MalformedString(s)) => assert_eq!(s, "exists x P"),
        _ => panic!("read a quantifier without a variable"),
    }
    match parse("(A &)") {
        Err(PropositionCreationError::MalformedString(s)) => assert_eq!(s, "A &"),
        _ => panic!("read a conjunction without a right side"),
    }
}

#[test]
fn a_binary_connective_needs_both_sides() {
    for text in ["& B", "A &", " & B", "A & ", "&", "v", "A >", "implies B"] {
        match parse(text) {
            Err(PropositionCreationError::MalformedString(s)) => assert_eq!(s, text),
            _ => panic!("read a connective without a side"),
        }
    }
}

#[test]
fn a_fault_inside_fails_the_whole_text() {
    match parse("A & (B v)") {
        Err(PropositionCreationError::MalformedString(s)) => assert_eq!(s, "B v"),
        _ => panic!("read a disjunction without a right side"),
    }
    match parse("(& A) > (B v)") {
        Err(PropositionCreationError::MalformedString(s)) => assert_eq!(s, "& A"),
        _ => panic!("the left fault comes first"),
    }
    match parse("not (exists y P)") {
        Err(PropositionCreationError::MalformedString(s)) => assert_eq!(s, "exists y P"),
        _ => panic!("read a quantifier without a variable"),
    }
    assert!(matches!(parse("A & ()"), Err(PropositionCreationError::EmptyString)));
}

#[test]
fn nothing_to_read_is_an_empty_string() {
    assert!(matches!(parse(""), Err(PropositionCreationError::EmptyString)));
    assert!(matches!(parse("()"), Err(PropositionCreationError::EmptyString)));
    assert!(matches!(parse("(())"), Err(PropositionCreationError::EmptyString)));
    assert!(matches!(parse("~"), Err(PropositionCreationError::EmptyString)));
    assert!(matches!(parse("not ()"), Err(PropositionCreationError::EmptyString)));
    assert!(matches!(parse("exists <x>"), Err(PropositionCreationError::EmptyString)));
    assert_eq!(parse(" ").unwrap(), atom(" "));
}

#[test]
fn spaces_inside_an_atom_are_kept() {
    assert_eq!(parse("the  cat").unwrap(), atom("the  cat"));
    assert_eq!(parse(" the cat ").unwrap(), atom(" the cat "));
    assert_eq!(
        parse("a  & b").unwrap(),
        Proposition::Conjunction(Box::new(atom("a ")), Box::new(atom("b")))
    );
}

#[test]
fn unbalanced_parentheses_make_an_atom() {
    assert_eq!(parse("(A & B").unwrap(), atom("(A & B"));
    assert_eq!(parse(")( & A").unwrap(), Proposition::Conjunction(Box::new(atom(")(")), Box::new(atom("A"))));
    assert_eq!(parse(") & (").unwrap(), atom(") & ("));
}

#[test]
fn an_unknown_connective_is_refused_when_building() {
    match make_binary(String::from("A"), String::from("xor"), String::from("B")) {
        Err(PropositionCreationError::InvalidConnective(word)) => assert_eq!(word, "xor"),
        _ => panic!("built a formula with an unknown connective"),
    }
    match make_binary(String::from(""), String::from("~"), String::from("B")) {
        Err(PropositionCreationError::InvalidConnective(word)) => assert_eq!(word, "~"),
        _ => panic!("built a binary formula with a negation"),
    }
    match make_quantifier(String::from("some"), String::from("x"), String::from("P")) {
        Err(PropositionCreationError::InvalidConnective(word)) => assert_eq!(word, "some"),
        _ => panic!("built a formula with an unknown quantifier"),
    }
}

#[test]
fn builders_read_their_parts() {
    assert_eq!(
        make_binary(String::from("(A)"), String::from("implies"), String::from("B v C")).unwrap(),
        Proposition::Conditional(
            Box::new(atom("A")),
            Box::new(Proposition::Disjunction(Box::new(atom("B")), Box::new(atom("C"))))
        )
    );
    assert_eq!(
        make_binary(String::from("A"), String::from("and"), String::from("B")).unwrap(),
        Proposition::Conjunction(Box::new(atom("A")), Box::new(atom("B")))
    );
    assert_eq!(
        make_binary(String::from("A"), String::from("v"), String::from("B")).unwrap(),
        Proposition::Disjunction(Box::new(atom("A")), Box::new(atom("B")))
    );
    assert_eq!(
        make_unary(String::from("~"), String::from("(A)")).unwrap(),
        Proposition::Negation(Box::new(atom("A")))
    );
    assert_eq!(
        make_quantifier(String::from("forall"), String::from("x"), String::from("(P)")).unwrap(),
        Proposition::Universal(String::from("x"), Box::new(atom("P")))
    );
    assert_eq!(
        make_quantifier(String::from("\u{2203}"), String::from("x"), String::from("P")).unwrap(),
        Proposition::Existential(String::from("x"), Box::new(atom("P")))
    );
    assert!(matches!(
        make_binary(String::from("A"), String::from("&"), String::from("")),
        Err(PropositionCreationError::EmptyString)
    ));
    assert!(matches!(
        make_unary(String::from("~"), String::from("")),
        Err(PropositionCreationError::EmptyString)
    ));
}

#[test]
fn the_words_of_the_connectives() {
    assert!(is_negation_str("~") && is_negation_str("not"));
    assert!(!is_negation_str("no") && !is_negation_str("") && !is_negation_str("~~"));
    assert!(is_conjunction_str("&") && is_conjunction_str("and"));
    assert!(!is_conjunction_str("And") && !is_conjunction_str("&&"));
    assert!(is_conditional_str(">") && is_conditional_str("implies"));
    assert!(!is_conditional_str("->") && !is_conditional_str("imply"));
    assert!(is_disjunction_str("v") && is_disjunction_str("or"));
    assert!(!is_disjunction_str("V") && !is_disjunction_str("o"));
}

#[test]
fn a_connective_counts_only_outside_parentheses() {
    assert!(nested_word_is_binary_connective("&", 0));
    assert!(nested_word_is_binary_connective("or", 0));
    assert!(nested_word_is_binary_connective("implies", 0));
    assert!(!nested_word_is_binary_connective("&", 1));
    assert!(!nested_word_is_binary_connective("&", -1));
    assert!(!nested_word_is_binary_connective("not", 0));
    assert!(!nested_word_is_binary_connective("cat", 0));
}

#[test]
fn the_shape_of_a_variable() {
    assert_eq!(check_for_var(Some("<x>")), Some(String::from("x")));
    assert_eq!(check_for_var(Some("<xy>")), None);
    assert_eq!(check_for_var(Some("<>")), None);
    assert_eq!(check_for_var(Some("x")), None);
    assert_eq!(check_for_var(Some("<X>")), None);
    assert_eq!(check_for_var(Some("(x)")), None);
    assert_eq!(check_for_var(Some("<x)")), None);
    assert_eq!(check_for_var(Some("<\u{e9}>")), None);
    assert_eq!(check_for_var(None), None);
}

#[test]
fn the_kind_of_each_symbol() {
    assert_eq!(proposition_type_from_char('~'), PropositionType::Negation);
    assert_eq!(proposition_type_from_char('>'), PropositionType::Conditional);
    assert_eq!(proposition_type_from_char('&'), PropositionType::Conjunction);
    assert_eq!(proposition_type_from_char('v'), PropositionType::Disjunction);
    assert_eq!(proposition_type_from_char('\u{2203}'), PropositionType::Existential);
    assert_eq!(proposition_type_from_char('\u{2200}'), PropositionType::Universal);
    assert_eq!(proposition_type_from_char('a'), PropositionType::Atom);
    assert_eq!(proposition_type_from_char('('), PropositionType::Atom);
}

#[test]
fn the_outline_of_a_text() {
    match find_connective(String::from("((A & B) > C)")).unwrap() {
        Outline::Binary(left, connective, right) => {
            assert_eq!(left, "(A & B)");
            assert_eq!(connective, ">");
            assert_eq!(right, "C");
        }
        _ => panic!("no binary connective"),
    }
    match find_connective(String::from("not ((A))")).unwrap() {
        Outline::Unary(connective, content) => {
            assert_eq!(connective, "not");
            assert_eq!(content, "A");
        }
        _ => panic!("no negation"),
    }
    match find_connective(String::from("forall <x> ((P) & (Q))")).unwrap() {
        Outline::Quantifier(quantifier, variable, predicate) => {
            assert_eq!(quantifier, "forall");
            assert_eq!(variable, "x");
            assert_eq!(predicate, "(P) & (Q)");
        }
        _ => panic!("no quantifier"),
    }
    match find_connective(String::from("(the cat sat)")).unwrap() {
        Outline::Atom(text) => assert_eq!(text, "the cat sat"),
        _ => panic!("no atom"),
    }
    assert!(matches!(
        find_connective(String::from("()")),
        Err(PropositionCreationError::EmptyString)
    ));
}

#[test]
fn the_parts_of_the_outline_are_joined_by_single_spaces() {
    match find_negation(&words("~ the cat  sat")).unwrap() {
        Outline::Unary(_, content) => assert_eq!(content, "the cat  sat"),
        _ => panic!("no negation"),
    }
    match find_quantifier(&words("exists <x> <x> sat down")).unwrap() {
        Outline::Quantifier(_, _, predicate) => assert_eq!(predicate, "<x> sat down"),
        _ => panic!("no quantifier"),
    }
    match create_binary(&words("the cat & the dog v the rat"), 2).unwrap() {
        Outline::Binary(left, connective, right) => {
            assert_eq!(left, "the cat");
            assert_eq!(connective, "&");
            assert_eq!(right, "the dog v the rat");
        }
        _ => panic!("no binary connective"),
    }
    match create_binary(&words("& B"), 0) {
        Err(PropositionCreationError::MalformedString(s)) => assert_eq!(s, "& B"),
        _ => panic!("split without a left side"),
    }
}

#[test]
fn the_first_connective_outside_parentheses_splits() {
    match find_binary(&words("(A or B) and C or D")) {
        Some(Ok(Outline::Binary(left, connective, right))) => {
            assert_eq!(left, "(A or B)");
            assert_eq!(connective, "and");
            assert_eq!(right, "C or D");
        }
        _ => panic!("no binary connective"),
    }
    assert!(find_binary(&words("(A or B)")).is_none());
    assert!(find_binary(&words("the cat sat")).is_none());
    assert!(find_binary(&words("")).is_none());
}

#[test]
fn from_string_reads_as_the_parser_does() {
    assert_eq!(
        Proposition::from_string(String::from("(A) & (not B)")).unwrap(),
        Proposition::Conjunction(
            Box::new(atom("A")),
            Box::new(Proposition::Negation(Box::new(atom("B"))))
        )
    );
    assert!(matches!(
        Proposition::from_string(String::from("")),
        Err(PropositionCreationError::EmptyString)
    ));
}

#[test]
fn rendering_and_reading_a_binary_formula_gives_it_back() {
    let formulas = vec![
        atom("the cat is on the mat"),
        Proposition::Conjunction(Box::new(atom("A")), Box::new(atom("B"))),
        Proposition::Conditional(
            Box::new(Proposition::Conjunction(Box::new(atom("A")), Box::new(atom("f(x) holds")))),
            Box::new(Proposition::Disjunction(
                Box::new(atom("<a> is on <mat>")),
                Box::new(Proposition::Conditional(Box::new(atom("C")), Box::new(atom("D")))),
            )),
        ),
    ];
    for f in formulas {
        assert_eq!(proposition_from_string(f.to_string()).unwrap(), f);
    }
}

#[test]
fn rendering_and_reading_a_negation_gives_an_atom() {
    let f = Proposition::Negation(Box::new(atom("p")));
    assert_eq!(proposition_from_string(f.to_string()).unwrap(), atom("~(p)"));
}

#[test]
fn a_text_without_parentheses_and_keywords_reads_as_itself() {
    for text in ["A", "the cat is on the mat", "<a> likes <bob>", " two  spaces ", "notes andor"] {
        assert_eq!(parse(text).unwrap(), atom(text));
    }
}
