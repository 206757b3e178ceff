use herbrand::fol::{Apply, Domain, HerbrandLoop, Search, Step, Substitution, Term};
use herbrand::formula::{Formula, FormulaKind};
use lalrpop_intern::intern;

fn constant(name: &str) -> Term {
    Term::Fn(Apply { name: intern(name), terms: vec![] })
}

fn apply(name: &str, terms: Vec<Term>) -> Term {
    Term::Fn(Apply { name: intern(name), terms })
}

fn p_of(term: Term) -> Formula<Term> {
    Formula::with(FormulaKind::Atom(apply("P", vec![term])))
}

fn append_instance(
    _initial: &Vec<Formula<Term>>,
    substitution: &Substitution,
    current: &Vec<Formula<Term>>,
) -> Vec<Formula<Term>> {
    let mut next = current.clone();
    let term = substitution.lookup(intern("x")).unwrap().clone();
    next.push(p_of(term));
    next
}

fn no_complementary_pair(list: &Vec<Formula<Term>>) -> bool {
    !list.iter().any(|p| list.contains(&p.not()))
}

#[test]
fn substitution_maps_by_position() {
    let variables = vec![intern("x"), intern("y"), intern("x")];
    let terms = vec![constant("c"), constant("d"), constant("e")];
    let substitution = Substitution::new(&variables, &terms);
    assert_eq!(substitution.variables(), &variables);
    assert_eq!(substitution.terms(), &terms);
    assert_eq!(substitution.lookup(intern("x")), Some(&constant("c")));
    assert_eq!(substitution.lookup(intern("y")), Some(&constant("d")));
    assert_eq!(substitution.lookup(intern("z")), None);
}

#[test]
fn substitution_with_fewer_terms_than_variables() {
    let variables = vec![intern("x"), intern("y")];
    let terms = vec![constant("c")];
    let substitution = Substitution::new(&variables, &terms);
    assert_eq!(substitution.lookup(intern("x")), Some(&constant("c")));
    assert_eq!(substitution.lookup(intern("y")), None);
}

#[test]
fn refutation_after_one_instance() {
    let domain = Domain::new(vec![constant("c")]);
    let initial = vec![p_of(constant("c")).not()];
    let search = HerbrandLoop {
        domain: &domain,
        modification_fn: append_instance,
        testing_fn: no_complementary_pair,
        initial_formula: initial.clone(),
        free_variables: vec![intern("x")],
    };
    match search.execute(initial.clone(), 2) {
        Step::Refuted(tried) => assert_eq!(tried, vec![vec![constant("c")]]),
        Step::Running(state) => panic!("no refutation: {:?}", state),
    }
    match search.execute(initial.clone(), 100) {
        Step::Refuted(tried) => assert_eq!(tried, vec![vec![constant("c")]]),
        Step::Running(state) => panic!("no refutation: {:?}", state),
    }
    match search.execute(initial, 1) {
        Step::Running(state) => {
            assert_eq!(state.n, 1);
            assert!(state.tried.is_empty());
            assert_eq!(state.pending, vec![vec![constant("c")]]);
            assert_eq!(state.next_tuple(), Some(&vec![constant("c")]));
        }
        Step::Refuted(tried) => panic!("refuted too early: {:?}", tried),
    }
}

#[test]
fn search_that_never_fails_reaches_larger_terms() {
    let mut domain = Domain::new(vec![constant("c")]);
    domain.add_function(intern("f"), 1);
    let search = HerbrandLoop {
        domain: &domain,
        modification_fn: append_instance,
        testing_fn: |_list: &Vec<Formula<Term>>| true,
        initial_formula: Vec::new(),
        free_variables: vec![intern("x")],
    };
    let target = apply("f", vec![apply("f", vec![constant("c")])]);
    let mut state = Search::start(Vec::new());
    let mut found = false;
    for _ in 0..6 {
        let (tried_before, _) = state.progress();
        let refilling = state.next_tuple().is_none();
        state = match search.step(state) {
            Step::Running(next) => next,
            Step::Refuted(tried) => panic!("refuted: {:?}", tried),
        };
        let (tried_after, items) = state.progress();
        assert_eq!(tried_after, if refilling { tried_before } else { tried_before + 1 });
        assert_eq!(items, tried_after);
        found = found || state.tried.iter().any(|tuple| tuple.contains(&target));
    }
    assert!(found);
    assert_eq!(
        state.tried,
        vec![
            vec![constant("c")],
            vec![apply("f", vec![constant("c")])],
            vec![target.clone()],
        ]
    );
    assert_eq!(state.n, 3);
}

#[test]
fn run_goes_on_from_a_state() {
    let mut domain = Domain::new(vec![constant("c"), constant("d")]);
    domain.add_function(intern("f"), 1);
    let search = HerbrandLoop {
        domain: &domain,
        modification_fn: append_instance,
        testing_fn: |list: &Vec<Formula<Term>>| list.len() < 4,
        initial_formula: Vec::new(),
        free_variables: vec![intern("x")],
    };
    let state = match search.execute(Vec::new(), 3) {
        Step::Running(state) => state,
        Step::Refuted(tried) => panic!("refuted too early: {:?}", tried),
    };
    assert_eq!(state.progress(), (2, 2));
    assert_eq!(state.tried, vec![vec![constant("c")], vec![constant("d")]]);
    match search.run(state, 10) {
        Step::Refuted(tried) => assert_eq!(
            tried,
            vec![
                vec![constant("c")],
                vec![constant("d")],
                vec![apply("f", vec![constant("c")])],
                vec![apply("f", vec![constant("d")])],
            ]
        ),
        Step::Running(state) => panic!("no refutation: {:?}", state),
    }
}

#[test]
fn tuples_for_two_variables_are_tried_in_the_listed_order() {
    let domain = Domain::new(vec![constant("c"), constant("d")]);
    let search = HerbrandLoop {
        domain: &domain,
        modification_fn: |_i: &Vec<u8>, _s: &Substitution, current: &Vec<u8>| current.clone(),
        testing_fn: |_list: &Vec<u8>| true,
        initial_formula: Vec::new(),
        free_variables: vec![intern("x"), intern("y")],
    };
    match search.execute(vec![1u8], 20) {
        Step::Running(state) => {
            assert_eq!(state.tried, domain.ground_tuples(0, 2));
            assert_eq!(state.formula, vec![1u8]);
            assert_eq!(state.n, 16);
            assert_eq!(state.next_tuple(), None);
        }
        Step::Refuted(tried) => panic!("refuted: {:?}", tried),
    }
}

#[test]
fn commit_and_refill_by_hand() {
    let start: Search<u8> = Search::start(vec![7]);
    assert_eq!(start.progress(), (0, 1));
    assert_eq!(start.next_tuple(), None);
    let batch = vec![vec![constant("c")], vec![constant("d")]];
    let filled = start.refill(batch);
    assert_eq!(filled.n, 1);
    assert_eq!(filled.next_tuple(), Some(&vec![constant("c")]));
    let next = match filled.commit(vec![7, 8], true) {
        Step::Running(next) => next,
        Step::Refuted(tried) => panic!("refuted: {:?}", tried),
    };
    assert_eq!(next.formula, vec![7, 8]);
    assert_eq!(next.tried, vec![vec![constant("c")]]);
    assert_eq!(next.next_tuple(), Some(&vec![constant("d")]));
    match next.commit(vec![9], false) {
        Step::Refuted(tried) => assert_eq!(tried, vec![vec![constant("c")], vec![constant("d")]]),
        Step::Running(state) => panic!("still running: {:?}", state),
    }
}
