//! Book-keeping of the consensus rounds by which the federation places a
//! request: which nodes have reported their local sum in the running
//! iteration, what they reported, and how many iterations have been made.
//!
//! The arithmetic on the reported sums is not done here. When every node has
//! reported, `global_z_updater` hands the sums out and counts the iteration;
//! whoever computed the new global variables says whether they have
//! converged, and `terminated` adds the cap on the iterations.

use crate::scalar::{literal_zero, Scalar};
use std::collections::HashSet;
use vstd::prelude::*;

verus! {

broadcast use vstd::std_specs::hash::group_hash_axioms;

/// `n` times the literal `0`.
pub open spec fn zeros(n: nat) -> Seq<Seq<u8>> {
    Seq::new(n, |i: int| literal_zero())
}

/// Mathematical state of a `GlobalSolver`.
pub struct SolverState {
    /// For each node, the sum it reported in the running iteration, and `0`
    /// if it has not reported.
    pub locals: Seq<Seq<u8>>,
    /// The nodes that have reported in the running iteration.
    pub received: Set<usize>,
    /// Number of nodes in the federation.
    pub number_of_nodes: usize,
    /// Number of iterations after which a round ends, converged or not.
    pub iteration_limit: usize,
    /// Number of iterations made in the running round.
    pub iteration: usize,
}

impl SolverState {
    /// There is a sum for each node, and only nodes have reported.
    pub open spec fn wf(self) -> bool {
        &&& self.locals.len() == self.number_of_nodes
        &&& self.received.finite()
        &&& forall|k: usize| self.received.contains(k) ==> k < self.number_of_nodes
    }

    /// The state of a solver for `number_of_nodes` nodes before its first
    /// round.
    pub open spec fn fresh(number_of_nodes: usize, iteration_limit: usize) -> SolverState {
        SolverState {
            locals: zeros(number_of_nodes as nat),
            received: Set::empty(),
            number_of_nodes,
            iteration_limit,
            iteration: 0,
        }
    }

    /// The state at the start of a round: no sum, no iteration. The record
    /// of who has reported is kept.
    pub open spec fn cleared(self) -> SolverState {
        SolverState { locals: zeros(self.number_of_nodes as nat), iteration: 0, ..self }
    }

    /// The state without the reported sums.
    pub open spec fn without_locals(self) -> SolverState {
        SolverState { locals: zeros(self.number_of_nodes as nat), ..self }
    }

    /// The state once the node `src` has reported `sum`.
    pub open spec fn with_local(self, sum: Seq<u8>, src: usize) -> SolverState {
        SolverState {
            locals: self.locals.update(src as int, sum),
            received: self.received.insert(src),
            ..self
        }
    }

    /// Whether as many nodes have reported as there are.
    pub open spec fn collected(self) -> bool {
        self.received.len() == self.number_of_nodes
    }

    /// The state once an iteration has been counted: nobody has reported in
    /// the next one.
    pub open spec fn after_update(self) -> SolverState {
        SolverState {
            locals: zeros(self.number_of_nodes as nat),
            received: Set::empty(),
            iteration: (self.iteration + 1) as usize,
            ..self
        }
    }

    /// The state after `n` more iterations.
    pub open spec fn after_updates(self, n: nat) -> SolverState
        decreases n,
    {
        if n == 0 {
            self
        } else {
            self.after_updates((n - 1) as nat).after_update()
        }
    }

    /// Whether the round is over: the iterations made exceed the limit, or
    /// the global variables have converged.
    pub open spec fn terminated(self, has_converged: bool) -> bool {
        self.iteration > self.iteration_limit || has_converged
    }
}

/// The texts of a vector of scalars.
pub open spec fn literals(v: Seq<Scalar>) -> Seq<Seq<u8>> {
    Seq::new(v.len(), |i: int| v[i]@)
}

/// `n` scalars, each zero.
fn zero_vector(n: usize) -> (v: Vec<Scalar>)
    ensures
        literals(v@) == zeros(n as nat),
{
    let mut v: Vec<Scalar> = Vec::new();
    let mut i: usize = 0;
    while i < n
        invariant
            i <= n,
            v@.len() == i,
            literals(v@) == zeros(i as nat),
        decreases n - i,
    {
        let ghost before = v@;
        v.push(Scalar::zero());
        i += 1;
        assert forall|j: int| 0 <= j < i implies literals(v@)[j] == zeros(i as nat)[j] by {
            if j < i - 1 {
                assert(v@[j] == before[j]);
                assert(literals(before)[j] == zeros((i - 1) as nat)[j]);
            }
        }
        assert(literals(v@) =~= zeros(i as nat));
    }
    v
}

/// The global side of the consensus: the sums that the nodes report, and the
/// count of the iterations.
pub struct GlobalSolver {
    locals: Vec<Scalar>,
    received_locals: HashSet<usize>,
    number_of_nodes: usize,
    iteration_limit: usize,
    iteration: usize,
}

impl View for GlobalSolver {
    type V = SolverState;

    closed spec fn view(&self) -> SolverState {
        SolverState {
            locals: literals(self.locals@),
            received: self.received_locals@,
            number_of_nodes: self.number_of_nodes,
            iteration_limit: self.iteration_limit,
            iteration: self.iteration,
        }
    }
}

impl GlobalSolver {
    /// A solver for `number_of_nodes` nodes that ends a round once more than
    /// `iteration_limit` iterations have been made.
    pub fn new(number_of_nodes: usize, iteration_limit: usize) -> (solver: GlobalSolver)
        ensures
            solver@ == SolverState::fresh(number_of_nodes, iteration_limit),
            solver@.wf(),
    {
        GlobalSolver {
            locals: zero_vector(number_of_nodes),
            received_locals: HashSet::new(),
            number_of_nodes,
            iteration_limit,
            iteration: 0,
        }
    }

    /// Starts a round.
    pub fn clear(&mut self)
        ensures
            final(self)@ == old(self)@.cleared(),
            old(self)@.wf() ==> final(self)@.wf(),
    {
        self.locals = zero_vector(self.number_of_nodes);
        self.iteration = 0;
    }

    /// Forgets the reported sums.
    pub fn clear_locals(&mut self)
        ensures
            final(self)@ == old(self)@.without_locals(),
            old(self)@.wf() ==> final(self)@.wf(),
    {
        self.locals = zero_vector(self.number_of_nodes);
    }

    /// Records that the node `src` reports `sum`.
    pub fn add_local_sum(&mut self, sum: Scalar, src: usize)
        requires
            old(self)@.wf(),
            src < old(self)@.number_of_nodes,
        ensures
            final(self)@ == old(self)@.with_local(sum@, src),
            final(self)@.wf(),
    {
        self.locals[src] = sum;
        self.received_locals.insert(src);
        assert(literals(self.locals@) =~= literals(old(self).locals@).update(src as int, sum@));
    }

    /// How many nodes have reported in the running iteration.
    pub fn locals_len(&self) -> (count: usize)
        ensures
            count == self@.received.len(),
    {
        self.received_locals.len()
    }

    /// How many iterations have been made in the running round.
    pub fn get_iterations(&self) -> (iterations: usize)
        ensures
            iterations == self@.iteration,
    {
        self.iteration
    }

    /// How many nodes the federation has.
    pub fn get_number_of_nodes(&self) -> (nodes: usize)
        ensures
            nodes == self@.number_of_nodes,
    {
        self.number_of_nodes
    }

    /// Closes the running iteration: hands out the sum of each node, counts
    /// the iteration, and forgets who has reported and what.
    pub fn global_z_updater(&mut self) -> (sums: Vec<Scalar>)
        requires
            old(self)@.wf(),
            old(self)@.iteration < usize::MAX,
        ensures
            literals(sums@) == old(self)@.locals,
            final(self)@ == old(self)@.after_update(),
            final(self)@.wf(),
    {
        let mut sums: Vec<Scalar> = zero_vector(self.number_of_nodes);
        std::mem::swap(&mut self.locals, &mut sums);
        self.iteration = self.iteration + 1;
        self.received_locals.clear();
        sums
    }

    /// Whether the round is over, given whether the global variables have
    /// converged.
    pub fn terminated(&self, has_converged: bool) -> (over: bool)
        ensures
            over == self@.terminated(has_converged),
    {
        self.iteration > self.iteration_limit || has_converged
    }
}

/// A node that reports the same sum twice in one iteration changes nothing
/// by the second report.
pub proof fn lemma_duplicate_local(state: SolverState, sum: Seq<u8>, src: usize)
    requires
        state.wf(),
        src < state.number_of_nodes,
    ensures
        state.with_local(sum, src).with_local(sum, src) == state.with_local(sum, src),
{
    let once = state.with_local(sum, src);
    let twice = once.with_local(sum, src);
    assert(twice.locals =~= once.locals);
    assert(twice.received =~= once.received);
}

/// The reports of two nodes can come in either order: what has been
/// collected is the same.
pub proof fn lemma_reports_commute(
    state: SolverState,
    sum1: Seq<u8>,
    src1: usize,
    sum2: Seq<u8>,
    src2: usize,
)
    requires
        state.wf(),
        src1 < state.number_of_nodes,
        src2 < state.number_of_nodes,
        src1 != src2,
    ensures
        state.with_local(sum1, src1).with_local(sum2, src2) == state.with_local(
            sum2,
            src2,
        ).with_local(sum1, src1),
{
    let a = state.with_local(sum1, src1).with_local(sum2, src2);
    let b = state.with_local(sum2, src2).with_local(sum1, src1);
    assert(a.locals =~= b.locals);
    assert(a.received =~= b.received);
}

/// Once more iterations have been made than the limit allows, the round is
/// over whether the global variables have converged or not.
pub proof fn lemma_terminates_after_limit(state: SolverState, n: nat, has_converged: bool)
    requires
        state.iteration == 0,
        n > state.iteration_limit,
        n <= usize::MAX,
    ensures
        state.after_updates(n).iteration == n,
        state.after_updates(n).terminated(has_converged),
{
    lemma_iterations_counted(state, n);
}

proof fn lemma_iterations_counted(state: SolverState, n: nat)
    requires
        state.iteration + n <= usize::MAX,
    ensures
        state.after_updates(n).iteration == state.iteration + n,
        state.after_updates(n).iteration_limit == state.iteration_limit,
    decreases n,
{
    if n > 0 {
        lemma_iterations_counted(state, (n - 1) as nat);
    }
}

} // verus!
