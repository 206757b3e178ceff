use herbrand::fol::{Apply, Domain, Term};
use lalrpop_intern::{intern, InternedString};

fn constant(name: &str) -> Term {
    Term::Fn(Apply { name: intern(name), terms: vec![] })
}

fn apply(name: &str, terms: Vec<Term>) -> Term {
    Term::Fn(Apply { name: intern(name), terms })
}

fn size(domain_constants: &[Term], term: &Term) -> usize {
    if domain_constants.contains(term) {
        return 0;
    }
    match term {
        Term::Var(_) => 0,
        Term::Fn(a) => 1 + a.terms.iter().map(|t| size(domain_constants, t)).sum::<usize>(),
    }
}

/// Every term of a size of at most `limit`, built without the enumeration under test:
/// rounds of applying each symbol to every combination of the terms known so far.
fn all_terms(constants: &[Term], funcs: &[(InternedString, usize)], limit: usize) -> Vec<Term> {
    let mut known: Vec<Term> = constants.to_vec();
    for _ in 0..limit {
        let mut next = known.clone();
        for &(name, arity) in funcs {
            for tuple in all_tuples(&known, arity) {
                let term = Term::Fn(Apply { name, terms: tuple });
                if size(constants, &term) <= limit && !next.contains(&term) {
                    next.push(term);
                }
            }
        }
        known = next;
    }
    known
}

fn all_tuples(terms: &[Term], arity: usize) -> Vec<Vec<Term>> {
    let mut tuples: Vec<Vec<Term>> = vec![vec![]];
    for _ in 0..arity {
        let mut longer = Vec::new();
        for tuple in &tuples {
            for term in terms {
                let mut extended = tuple.clone();
                extended.push(term.clone());
                longer.push(extended);
            }
        }
        tuples = longer;
    }
    tuples
}

#[test]
fn constants_are_the_terms_of_size_zero() {
    let domain = Domain::new(vec![constant("c"), constant("d")]);
    assert_eq!(domain.ground_terms(0), vec![constant("c"), constant("d")]);
}

#[test]
fn constants_only_have_no_larger_terms() {
    let domain = Domain::new(vec![constant("c"), constant("d")]);
    assert_eq!(domain.ground_terms(1), Vec::<Term>::new());
    assert_eq!(domain.ground_terms(2), Vec::<Term>::new());
    assert_eq!(domain.ground_terms(7), Vec::<Term>::new());
}

#[test]
fn unary_function_gives_one_term_per_size() {
    let mut domain = Domain::new(vec![constant("c")]);
    assert_eq!(domain.add_function(intern("f"), 1), None);
    assert_eq!(domain.ground_terms(0), vec![constant("c")]);
    assert_eq!(domain.ground_terms(1), vec![apply("f", vec![constant("c")])]);
    assert_eq!(
        domain.ground_terms(2),
        vec![apply("f", vec![apply("f", vec![constant("c")])])]
    );
}

#[test]
fn tuples_of_no_terms() {
    let mut domain = Domain::new(vec![constant("c")]);
    domain.add_function(intern("f"), 1);
    assert_eq!(domain.ground_tuples(0, 0), vec![Vec::<Term>::new()]);
    assert_eq!(domain.ground_tuples(1, 0), Vec::<Vec<Term>>::new());
    assert_eq!(domain.ground_tuples(5, 0), Vec::<Vec<Term>>::new());
    let empty = Domain::new(vec![]);
    assert_eq!(empty.ground_tuples(0, 0), vec![Vec::<Term>::new()]);
    assert_eq!(empty.ground_tuples(3, 0), Vec::<Vec<Term>>::new());
}

#[test]
fn constants_only_have_no_tuples_of_size_two() {
    let domain = Domain::new(vec![constant("c"), constant("d")]);
    assert_eq!(domain.ground_tuples(2, 2), Vec::<Vec<Term>>::new());
}

#[test]
fn no_constants_no_terms() {
    let mut domain = Domain::new(vec![]);
    domain.add_function(intern("f"), 1);
    assert_eq!(domain.ground_terms(0), Vec::<Term>::new());
    assert_eq!(domain.ground_terms(1), Vec::<Term>::new());
    assert_eq!(domain.ground_tuples(0, 1), Vec::<Vec<Term>>::new());
    assert_eq!(domain.ground_tuples(1, 2), Vec::<Vec<Term>>::new());
}

#[test]
fn pairs_of_constants_come_head_by_head() {
    let domain = Domain::new(vec![constant("c"), constant("d")]);
    let (c, d) = (constant("c"), constant("d"));
    assert_eq!(
        domain.ground_tuples(0, 2),
        vec![
            vec![c.clone(), c.clone()],
            vec![d.clone(), c.clone()],
            vec![c.clone(), d.clone()],
            vec![d.clone(), d.clone()],
        ]
    );
}

#[test]
fn pairs_of_size_one_put_the_smaller_last_term_first() {
    let mut domain = Domain::new(vec![constant("c")]);
    domain.add_function(intern("f"), 1);
    let c = constant("c");
    let fc = apply("f", vec![constant("c")]);
    assert_eq!(
        domain.ground_tuples(1, 2),
        vec![vec![fc.clone(), c.clone()], vec![c.clone(), fc.clone()]]
    );
}

#[test]
fn functions_are_taken_in_the_order_added() {
    let mut domain = Domain::new(vec![constant("c")]);
    domain.add_function(intern("g"), 1);
    domain.add_function(intern("f"), 1);
    assert_eq!(
        domain.ground_terms(1),
        vec![apply("g", vec![constant("c")]), apply("f", vec![constant("c")])]
    );
}

#[test]
fn nullary_function_has_size_one() {
    let mut domain = Domain::new(vec![constant("c")]);
    domain.add_function(intern("e"), 0);
    assert_eq!(domain.ground_terms(1), vec![apply("e", vec![])]);
    assert_eq!(domain.ground_terms(2), Vec::<Term>::new());
}

#[test]
fn add_function_replaces_the_arity_in_place() {
    let mut domain = Domain::new(vec![constant("c")]);
    assert_eq!(domain.add_function(intern("f"), 1), None);
    assert_eq!(domain.add_function(intern("g"), 1), None);
    assert_eq!(domain.function_count(), 2);
    assert_eq!(domain.add_function(intern("f"), 2), Some(1));
    assert_eq!(domain.function_count(), 2);
    let c = constant("c");
    assert_eq!(
        domain.ground_terms(1),
        vec![apply("f", vec![c.clone(), c.clone()]), apply("g", vec![c.clone()])]
    );
}

#[test]
fn enumeration_is_restartable() {
    let mut domain = Domain::new(vec![constant("c"), constant("d")]);
    domain.add_function(intern("f"), 2);
    domain.add_function(intern("g"), 1);
    assert_eq!(domain.ground_terms(2), domain.ground_terms(2));
    assert_eq!(domain.ground_tuples(2, 3), domain.ground_tuples(2, 3));
}

#[test]
fn binary_function_counts() {
    let mut domain = Domain::new(vec![constant("c"), constant("d")]);
    domain.add_function(intern("f"), 2);
    assert_eq!(domain.ground_terms(0).len(), 2);
    assert_eq!(domain.ground_terms(1).len(), 4);
    assert_eq!(domain.ground_terms(2).len(), 16);
    assert_eq!(domain.ground_tuples(1, 2).len(), 16);
}

#[test]
fn every_tuple_is_listed_exactly_once() {
    let constants = vec![constant("c"), constant("d")];
    let funcs = vec![(intern("f"), 1usize), (intern("g"), 2usize)];
    let mut domain = Domain::new(constants.clone());
    for &(name, arity) in &funcs {
        domain.add_function(name, arity);
    }
    let limit = 2;
    let terms = all_terms(&constants, &funcs, limit);
    for arity in 0..3usize {
        let expected: Vec<Vec<Term>> = all_tuples(&terms, arity);
        for n in 0..=limit {
            let listed = domain.ground_tuples(n, arity);
            let wanted: Vec<&Vec<Term>> = expected
                .iter()
                .filter(|tuple| tuple.iter().map(|t| size(&constants, t)).sum::<usize>() == n)
                .collect();
            assert_eq!(listed.len(), wanted.len());
            for tuple in &wanted {
                assert_eq!(listed.iter().filter(|l| l == tuple).count(), 1);
            }
        }
    }
}

#[test]
fn every_term_is_listed_exactly_once_at_its_size() {
    let constants = vec![constant("c")];
    let funcs = vec![(intern("f"), 1usize), (intern("g"), 2usize)];
    let mut domain = Domain::new(constants.clone());
    for &(name, arity) in &funcs {
        domain.add_function(name, arity);
    }
    let limit = 3;
    let terms = all_terms(&constants, &funcs, limit);
    for n in 0..=limit {
        let listed = domain.ground_terms(n);
        let wanted: Vec<&Term> = terms.iter().filter(|t| size(&constants, t) == n).collect();
        assert_eq!(listed.len(), wanted.len());
        for term in wanted {
            assert_eq!(listed.iter().filter(|l| *l == term).count(), 1);
        }
    }
}
