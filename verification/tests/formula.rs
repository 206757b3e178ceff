use herbrand::formula::{Formula, FormulaKind};
use lalrpop_intern::intern;
use std::collections::BTreeSet;

fn atom(name: u32) -> Formula<u32> {
    Formula::with(FormulaKind::Atom(name))
}

fn and(a: &Formula<u32>, b: &Formula<u32>) -> Formula<u32> {
    Formula::with(FormulaKind::And(a.clone(), b.clone()))
}

fn or(a: &Formula<u32>, b: &Formula<u32>) -> Formula<u32> {
    Formula::with(FormulaKind::Or(a.clone(), b.clone()))
}

#[test]
fn top_node_tests() {
    let f: Formula<u32> = Formula::with(FormulaKind::False);
    let t: Formula<u32> = Formula::with(FormulaKind::True);
    let p = atom(1);
    assert!(f.is_false() && !f.is_true());
    assert!(t.is_true() && !t.is_false());
    assert!(!p.is_false() && !p.is_true());
    assert!(p.is_positive() && !p.is_negative());
    assert!(p.not().is_negative() && !p.not().is_positive());
    assert!(and(&p, &p).is_positive());
}

#[test]
fn conjuncts_of_a_chain() {
    let (a, b, c) = (atom(1), atom(2), atom(3));
    let chain = and(&a, &and(&b, &c));
    assert_eq!(chain.conjuncts(), vec![&a, &b, &c]);
}

#[test]
fn conjuncts_of_a_formula_that_is_no_and() {
    let x = or(&atom(1), &atom(2));
    assert_eq!(x.conjuncts(), vec![&x]);
    let p = atom(7);
    assert_eq!(p.conjuncts(), vec![&p]);
}

#[test]
fn conjuncts_do_not_open_the_left_side() {
    let (a, b, c) = (atom(1), atom(2), atom(3));
    let left = and(&a, &b);
    let leaning_left = and(&left, &c);
    assert_eq!(leaning_left.conjuncts(), vec![&left, &c]);
}

#[test]
fn negate_twice_gives_the_literal_back() {
    let p = atom(1);
    assert_eq!(p.negate().negate(), p);
    let not_p = p.not();
    assert_eq!(not_p.negate(), p);
    assert_eq!(not_p.negate().negate(), not_p);
}

#[test]
fn not_twice_is_another_formula() {
    let p = atom(1);
    let twice = p.not().not();
    assert_ne!(twice, p);
    assert_eq!(twice, Formula::with(FormulaKind::Not(Formula::with(FormulaKind::Not(atom(1))))));
    assert_eq!(twice.negate(), p.not());
}

#[test]
fn negate_of_a_formula_that_is_no_literal() {
    let x = and(&atom(1), &atom(2));
    assert_eq!(x.negate(), Formula::with(FormulaKind::Not(x.clone())));
}

#[test]
fn atom_union_of_a_repeated_atom() {
    let p = and(&atom(5), &atom(5));
    let set = p.atom_union(&|a: &u32| *a);
    assert_eq!(set.len(), 1);
    assert!(set.contains(&5));
}

#[test]
fn atom_union_gathers_all_values() {
    let p = or(&and(&atom(3), &atom(1)), &atom(3).not());
    let set = p.atom_union(&|a: &u32| *a * 10);
    let expected: BTreeSet<u32> = vec![10, 30].into_iter().collect();
    assert_eq!(set, expected);
    let none: Formula<u32> = Formula::with(FormulaKind::True);
    assert!(none.atom_union(&|a: &u32| *a).is_empty());
}

#[test]
fn over_atoms_takes_the_right_operand_first() {
    let p = and(&atom(1), &and(&atom(2), &atom(3)));
    let visited = p.over_atoms(Vec::new(), &|a: &u32, mut seen: Vec<u32>| {
        seen.push(*a);
        seen
    });
    assert_eq!(visited, vec![3, 2, 1]);
}

#[test]
fn over_atoms_goes_through_every_connective() {
    let x = intern("x");
    let p = Formula::with(FormulaKind::Implies(
        Formula::with(FormulaKind::ForAll(x, atom(1).not())),
        Formula::with(FormulaKind::Iff(
            or(&atom(2), &Formula::with(FormulaKind::False)),
            Formula::with(FormulaKind::Exists(x, atom(3))),
        )),
    ));
    let sum = p.over_atoms(0u32, &|a: &u32, total: u32| total * 10 + *a);
    assert_eq!(sum, 321);
    let untouched: Formula<u32> = Formula::with(FormulaKind::True);
    assert_eq!(untouched.over_atoms(9u32, &|a: &u32, total: u32| total + *a), 9);
}

#[test]
fn on_atoms_keeps_the_structure() {
    let x = intern("x");
    let p = Formula::with(FormulaKind::ForAll(
        x,
        Formula::with(FormulaKind::Implies(and(&atom(1), &atom(2)), or(&atom(3).not(), &atom(1)))),
    ));
    let image = p.on_atoms(&|a: &u32| Formula::with(FormulaKind::Atom(a.to_string())));
    let text = |n: u32| Formula::with(FormulaKind::Atom(n.to_string()));
    let expected = Formula::with(FormulaKind::ForAll(
        x,
        Formula::with(FormulaKind::Implies(
            Formula::with(FormulaKind::And(text(1), text(2))),
            Formula::with(FormulaKind::Or(text(3).not(), text(1))),
        )),
    ));
    assert_eq!(image, expected);
}

#[test]
fn on_atoms_may_put_a_formula_for_an_atom() {
    let p = Formula::with(FormulaKind::Iff(
        atom(1),
        Formula::with(FormulaKind::Exists(intern("y"), atom(2))),
    ));
    let image = p.on_atoms(&|a: &u32| {
        if *a == 1 {
            Formula::with(FormulaKind::True)
        } else {
            atom(*a + 1).not()
        }
    });
    let expected = Formula::with(FormulaKind::Iff(
        Formula::with(FormulaKind::True),
        Formula::with(FormulaKind::Exists(intern("y"), atom(3).not())),
    ));
    assert_eq!(image, expected);
    let constant: Formula<u32> = Formula::with(FormulaKind::False);
    assert_eq!(constant.on_atoms(&|a: &u32| atom(*a)), Formula::with(FormulaKind::False));
}

#[test]
fn sides_of_iff_and_and() {
    let (a, b) = (atom(1), atom(2));
    let iff = FormulaKind::Iff(a.clone(), b.clone());
    let conj = FormulaKind::And(a.clone(), b.clone());
    assert_eq!(iff.iff(), Some((&a, &b)));
    assert_eq!(iff.and(), None);
    assert_eq!(conj.and(), Some((&a, &b)));
    assert_eq!(conj.iff(), None);
    let leaf: FormulaKind<u32> = FormulaKind::True;
    assert_eq!(leaf.iff(), None);
    assert_eq!(leaf.and(), None);
}

#[test]
fn clone_gives_the_same_formula() {
    let p = and(&atom(1), &atom(2).not());
    assert_eq!(p.clone(), p);
    let kind = FormulaKind::Or(atom(1), atom(2));
    assert_eq!(kind.clone(), kind);
    let leaf = FormulaKind::Atom(4u32);
    assert_eq!(leaf.clone(), FormulaKind::Atom(4u32));
}

#[test]
fn formulas_are_ordered_by_structure() {
    let mut set = BTreeSet::new();
    set.insert(atom(2));
    set.insert(atom(1));
    set.insert(atom(2));
    set.insert(atom(1).not());
    assert_eq!(set.len(), 3);
}
