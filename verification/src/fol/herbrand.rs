//! The refutation loop: ground tuples are tried size by size until the injected test
//! reports a contradiction.

use crate::fol::domain::{Domain, Signature};
use crate::fol::substitution::{Substitution, SubstitutionView};
use crate::fol::term::{lemma_tuples_view_push, terms_view, tuples_view, Term, TermView};
use lalrpop_intern::InternedString;
use vstd::prelude::*;

verus! {

/// The state of a search between two transitions.
#[derive(Debug)]
pub struct Search<F> {
    /// The size of the next batch of tuples to ask the domain for.
    pub n: usize,
    /// The state accumulated by the instantiations that passed the test.
    pub formula: Vec<F>,
    /// The tuples tried so far, in the order in which they were tried.
    pub tried: Vec<Vec<Term>>,
    /// The tuples of the current batch that are still to be tried, the next one last.
    pub pending: Vec<Vec<Term>>,
}

/// The mathematical value of a [`Search`].
pub struct SearchView<F> {
    pub n: nat,
    pub formula: Seq<F>,
    pub tried: Seq<Seq<TermView>>,
    /// The tuples of the current batch that are still to be tried.
    pub remaining: Seq<Seq<TermView>>,
}

/// What one transition of the loop leads to.
#[derive(Debug)]
pub enum Step<F> {
    /// The search goes on from this state.
    Running(Search<F>),
    /// The test failed: these are the tuples tried, the last one being the one that
    /// failed.
    Refuted(Vec<Vec<Term>>),
}

/// The mathematical value of a [`Step`].
pub enum StepView<F> {
    Running(SearchView<F>),
    Refuted(Seq<Seq<TermView>>),
}

impl<F> View for Search<F> {
    type V = SearchView<F>;

    open spec fn view(&self) -> SearchView<F> {
        SearchView {
            n: self.n as nat,
            formula: self.formula@,
            tried: tuples_view(self.tried@),
            remaining: tuples_view(self.pending@).reverse(),
        }
    }
}

impl<F> View for Step<F> {
    type V = StepView<F>;

    open spec fn view(&self) -> StepView<F> {
        match self {
            Step::Running(search) => StepView::Running(search@),
            Step::Refuted(tried) => StepView::Refuted(tuples_view(tried@)),
        }
    }
}

impl<F> SearchView<F> {
    /// The state in which a search starts: nothing tried, no batch, size `0`.
    pub open spec fn initial(formula: Seq<F>) -> SearchView<F> {
        SearchView { n: 0, formula, tried: Seq::empty(), remaining: Seq::empty() }
    }

    /// The state after the exhausted batch has been replaced by `batch`.
    pub open spec fn refilled(self, batch: Seq<Seq<TermView>>) -> SearchView<F> {
        SearchView { n: self.n + 1, formula: self.formula, tried: self.tried, remaining: batch }
    }

    /// What follows when the first remaining tuple has been instantiated to `formula` and
    /// the test has answered `passed`.
    pub open spec fn attempted(self, formula: Seq<F>, passed: bool) -> StepView<F> {
        if passed {
            StepView::Running(
                SearchView {
                    n: self.n,
                    formula,
                    tried: self.tried.push(self.remaining[0]),
                    remaining: self.remaining.drop_first(),
                },
            )
        } else {
            StepView::Refuted(self.tried.push(self.remaining[0]))
        }
    }
}

impl<F> SearchView<F> {
    /// What was tried and what remains of the current batch are, together, the tuples of
    /// length `arity` of the sizes below `n`, in order: the search tries the tuples size
    /// by size, and within a size in the order in which the signature lists them.
    pub open spec fn on_schedule(self, sig: Signature, arity: nat) -> bool {
        self.tried + self.remaining == sig.schedule(arity, self.n)
    }
}

impl<F> StepView<F> {
    /// A search that goes on is on schedule; the tuples of a refutation are the first
    /// ones of the schedule.
    pub open spec fn on_schedule(self, sig: Signature, arity: nat) -> bool {
        match self {
            StepView::Running(search) => search.on_schedule(sig, arity),
            StepView::Refuted(tried) => exists|n: nat|
                tried.is_prefix_of(#[trigger] sig.schedule(arity, n)),
        }
    }
}

impl<F> Search<F> {
    /// The state in which a search for `formula` starts.
    pub fn start(formula: Vec<F>) -> (search: Search<F>)
        ensures
            search@ == SearchView::initial(formula@),
            search.formula == formula,
    {
        let search = Search { n: 0, formula, tried: Vec::new(), pending: Vec::new() };
        assert(search@.tried =~= Seq::empty());
        assert(search@.remaining =~= Seq::empty());
        search
    }

    /// The progress made: how many tuples have been tried, and how many items the
    /// accumulated state holds.
    pub fn progress(&self) -> (counts: (usize, usize))
        ensures
            counts.0 == self@.tried.len(),
            counts.1 == self@.formula.len(),
    {
        (self.tried.len(), self.formula.len())
    }

    /// The next tuple to try, if the current batch has one left.
    pub fn next_tuple(&self) -> (tuple: Option<&Vec<Term>>)
        ensures
            match tuple {
                Some(next) => self@.remaining.len() > 0 && terms_view(next@) == self@.remaining[0],
                None => self@.remaining.len() == 0,
            },
    {
        let left = self.pending.len();
        if left > 0 {
            Some(&self.pending[left - 1])
        } else {
            None
        }
    }

    /// Replaces the exhausted batch by `batch` and moves on to the next size.
    pub fn refill(self, batch: Vec<Vec<Term>>) -> (search: Search<F>)
        requires
            self@.remaining.len() == 0,
            self.n < usize::MAX,
        ensures
            search@ == self@.refilled(tuples_view(batch@)),
            search.formula == self.formula,
    {
        let mut batch = batch;
        let ghost whole = batch@;
        let mut pending: Vec<Vec<Term>> = Vec::new();
        while batch.len() > 0
            invariant
                batch@.len() + pending@.len() == whole.len(),
                batch@ == whole.take(batch@.len() as int),
                forall|i: int|
                    0 <= i < pending@.len() ==> pending@[i] == whole[whole.len() - 1 - i],
            decreases batch.len(),
        {
            let tuple = batch.pop().unwrap();
            assert(batch@ =~= whole.take(batch@.len() as int));
            pending.push(tuple);
        }
        let search = Search { n: self.n + 1, formula: self.formula, tried: self.tried, pending };
        assert(search@.remaining =~= tuples_view(whole));
        search
    }

    /// Records the outcome of trying the next tuple: `formula` is what the instantiation
    /// gave, `passed` what the test said of it.
    pub fn commit(self, formula: Vec<F>, passed: bool) -> (step: Step<F>)
        requires
            self@.remaining.len() > 0,
        ensures
            step@ == self@.attempted(formula@, passed),
            step matches Step::Running(search) ==> search.formula == formula,
    {
        let Search { n, formula: _, mut tried, mut pending } = self;
        let tuple = pending.pop().unwrap();
        proof {
            lemma_tuples_view_push(tried@, tuple);
        }
        tried.push(tuple);
        if passed {
            let search = Search { n, formula, tried, pending };
            assert(search@.remaining =~= self@.remaining.drop_first());
            Step::Running(search)
        } else {
            Step::Refuted(tried)
        }
    }
}

/// The refutation loop over a domain: what is fixed during a search.
pub struct HerbrandLoop<'d, F, M, T> {
    /// The domain that the ground tuples are drawn from.
    pub domain: &'d Domain,
    /// Turns the initial state, a substitution and the accumulated state into the next
    /// accumulated state.
    pub modification_fn: M,
    /// Says whether an accumulated state is still free of contradiction.
    pub testing_fn: T,
    /// The state that every instantiation starts from.
    pub initial_formula: Vec<F>,
    /// The variables that each tuple gives terms to, in order.
    pub free_variables: Vec<InternedString>,
}

impl<'d, F, M, T> HerbrandLoop<'d, F, M, T> where
    M: Fn(&Vec<F>, &Substitution, &Vec<F>) -> Vec<F>,
    T: Fn(&Vec<F>) -> bool,
 {
    /// The two injected functions accept every argument.
    pub open spec fn total(&self) -> bool {
        &&& forall|initial: &Vec<F>, substitution: &Substitution, current: &Vec<F>|
            call_requires(self.modification_fn, (initial, substitution, current))
        &&& forall|formula: &Vec<F>| call_requires(self.testing_fn, (formula,))
    }

    /// `step` is a possible outcome of one transition from `search`: a refill when the
    /// batch is exhausted; otherwise the commit of what the two injected functions gave
    /// for the substitution of the next tuple for the free variables.
    pub open spec fn may_follow(&self, search: Search<F>, step: Step<F>) -> bool {
        if search@.remaining.len() == 0 {
            &&& step matches Step::Running(next)
            &&& next.formula == search.formula
            &&& next@ == search@.refilled(
                self.domain@.ground_tuples(search@.n, self.free_variables@.len()),
            )
        } else {
            exists|substitution: Substitution, formula: Vec<F>, passed: bool|
                {
                    &&& substitution@ == (SubstitutionView {
                        variables: self.free_variables@,
                        terms: search@.remaining[0],
                    })
                    &&& call_ensures(
                        self.modification_fn,
                        (&self.initial_formula, &substitution, &search.formula),
                        formula,
                    )
                    &&& call_ensures(self.testing_fn, (&formula,), passed)
                    &&& step@ == search@.attempted(formula@, passed)
                    &&& step matches Step::Running(next) ==> next.formula == formula
                }
        }
    }

    /// `end` can be reached from `from` in exactly `steps` transitions, of which none but
    /// the last refutes.
    pub open spec fn reaches(&self, from: Search<F>, steps: nat, end: Step<F>) -> bool
        decreases steps,
    {
        if steps == 0 {
            end == Step::Running(from)
        } else {
            exists|before: Search<F>|
                #![trigger self.may_follow(before, end)]
                self.reaches(from, (steps - 1) as nat, Step::Running(before)) && self.may_follow(
                    before,
                    end,
                )
        }
    }

    /// A run goes on by one transition.
    pub proof fn lemma_reaches_one_more(
        &self,
        from: Search<F>,
        steps: nat,
        before: Search<F>,
        end: Step<F>,
    )
        requires
            self.reaches(from, steps, Step::Running(before)),
            self.may_follow(before, end),
        ensures
            self.reaches(from, steps + 1, end),
    {
        assert(self.reaches(from, ((steps + 1) as nat - 1) as nat, Step::Running(before)));
    }

    /// A search starts on schedule.
    pub proof fn lemma_starts_on_schedule(&self, formula: Seq<F>)
        ensures
            SearchView::initial(formula).on_schedule(self.domain@, self.free_variables@.len()),
    {
        let start = SearchView::initial(formula);
        assert(start.tried + start.remaining =~= Seq::empty());
    }

    /// A transition keeps a search on schedule, and adds at most one tuple to those
    /// tried.
    pub proof fn lemma_step_keeps_schedule(&self, search: Search<F>, step: Step<F>)
        requires
            search@.on_schedule(self.domain@, self.free_variables@.len()),
            self.may_follow(search, step),
        ensures
            step@.on_schedule(self.domain@, self.free_variables@.len()),
            match step@ {
                StepView::Running(next) => search@.tried.is_prefix_of(next.tried)
                    && next.tried.len() <= search@.tried.len() + 1,
                StepView::Refuted(tried) => search@.tried.is_prefix_of(tried) && tried.len()
                    == search@.tried.len() + 1,
            },
    {
        let sig = self.domain@;
        let arity = self.free_variables@.len();
        let before = search@;
        if before.remaining.len() == 0 {
            let next = step->Running_0@;
            assert(before.tried + before.remaining =~= before.tried);
            assert(sig.schedule(arity, next.n) == sig.schedule(arity, before.n) + sig.ground_tuples(
                before.n,
                arity,
            ));
        } else {
            let tried = before.tried.push(before.remaining[0]);
            assert(tried + before.remaining.drop_first() =~= before.tried + before.remaining);
            assert(tried.is_prefix_of(sig.schedule(arity, before.n)));
        }
    }

    /// Whatever a search reaches from a state on schedule is on schedule, and what was
    /// tried before is still the start of what is tried then.
    pub proof fn lemma_run_keeps_schedule(&self, from: Search<F>, steps: nat, end: Step<F>)
        requires
            from@.on_schedule(self.domain@, self.free_variables@.len()),
            self.reaches(from, steps, end),
        ensures
            end@.on_schedule(self.domain@, self.free_variables@.len()),
            match end@ {
                StepView::Running(last) => from@.tried.is_prefix_of(last.tried),
                StepView::Refuted(tried) => from@.tried.is_prefix_of(tried),
            },
        decreases steps,
    {
        if steps > 0 {
            let before = choose|before: Search<F>|
                #![trigger self.may_follow(before, end)]
                self.reaches(from, (steps - 1) as nat, Step::Running(before)) && self.may_follow(
                    before,
                    end,
                );
            self.lemma_run_keeps_schedule(from, (steps - 1) as nat, Step::Running(before));
            self.lemma_step_keeps_schedule(before, end);
        }
    }

    /// One transition of the loop.
    pub fn step(&self, search: Search<F>) -> (step: Step<F>)
        requires
            self.total(),
            search@.remaining.len() == 0 ==> search.n < usize::MAX,
        ensures
            self.may_follow(search, step),
    {
        let subst = match search.next_tuple() {
            Some(tuple) => Some(Substitution::new(&self.free_variables, tuple)),
            None => None,
        };
        match subst {
            None => {
                let batch = self.domain.ground_tuples(search.n, self.free_variables.len());
                Step::Running(search.refill(batch))
            },
            Some(substitution) => {
                let formula = (self.modification_fn)(
                    &self.initial_formula,
                    &substitution,
                    &search.formula,
                );
                let passed = (self.testing_fn)(&formula);
                search.commit(formula, passed)
            },
        }
    }

    /// Goes on from `search` until the test fails, for `max_steps` transitions at most.
    /// Returns the refutation, or the state reached after `max_steps` transitions. A search
    /// that was on schedule stays on schedule.
    pub fn run(&self, search: Search<F>, max_steps: usize) -> (end: Step<F>)
        requires
            self.total(),
            search.n + max_steps <= usize::MAX,
        ensures
            exists|steps: nat|
                {
                    &&& steps <= max_steps
                    &&& #[trigger] self.reaches(search, steps, end)
                    &&& end is Running ==> steps == max_steps
                },
            search@.on_schedule(self.domain@, self.free_variables@.len()) ==> end@.on_schedule(
                self.domain@,
                self.free_variables@.len(),
            ),
    {
        let mut current = search;
        let mut steps: usize = 0;
        while steps < max_steps
            invariant
                self.total(),
                steps <= max_steps,
                search.n + max_steps <= usize::MAX,
                current.n <= search.n + steps,
                self.reaches(search, steps as nat, Step::Running(current)),
            decreases max_steps - steps,
        {
            let ghost before = current;
            let step = self.step(current);
            steps += 1;
            proof {
                self.lemma_reaches_one_more(search, (steps - 1) as nat, before, step);
            }
            match step {
                Step::Running(next) => {
                    current = next;
                },
                Step::Refuted(tried) => {
                    let end = Step::Refuted(tried);
                    proof {
                        if search@.on_schedule(self.domain@, self.free_variables@.len()) {
                            self.lemma_run_keeps_schedule(search, steps as nat, end);
                        }
                    }
                    return end;
                },
            }
        }
        let end = Step::Running(current);
        proof {
            if search@.on_schedule(self.domain@, self.free_variables@.len()) {
                self.lemma_run_keeps_schedule(search, steps as nat, end);
            }
        }
        end
    }

    /// Searches for a refutation, starting from the accumulated state `formula`, for
    /// `max_steps` transitions at most. Returns the refutation, or the state reached after
    /// `max_steps` transitions. The tuples are tried on schedule: size by size, and within a
    /// size in the order in which the domain lists them.
    pub fn execute(&self, formula: Vec<F>, max_steps: usize) -> (end: Step<F>)
        requires
            self.total(),
        ensures
            exists|start: Search<F>, steps: nat|
                {
                    &&& start@ == SearchView::initial(formula@)
                    &&& start.formula == formula
                    &&& steps <= max_steps
                    &&& #[trigger] self.reaches(start, steps, end)
                    &&& end is Running ==> steps == max_steps
                },
            end@.on_schedule(self.domain@, self.free_variables@.len()),
    {
        proof {
            self.lemma_starts_on_schedule(formula@);
        }
        self.run(Search::start(formula), max_steps)
    }
}

} // verus!
