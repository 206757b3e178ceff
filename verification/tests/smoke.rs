use herbrand::fol::Term;
use lalrpop_intern::intern;

#[test]
fn it_works() {}

#[test]
fn terms_compare_by_structure() {
    assert_eq!(Term::Var(intern("x")), Term::Var(intern("x")));
    assert_ne!(Term::Var(intern("x")), Term::Var(intern("y")));
    assert_eq!(Term::Var(intern("x")).clone(), Term::Var(intern("x")));
}
