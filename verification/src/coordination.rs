//! One node's part in the rounds by which the federation decides where a
//! request goes, and in the hand-off that follows.
//!
//! The coordinator reacts to the messages of the federation's topics. It
//! neither publishes nor computes with real numbers: each reaction changes
//! its state and tells the caller what is to be done next.

use crate::admm_solver::{literals, GlobalSolver, SolverState};
use crate::scalar::Scalar;
use crate::state::{ApplicationState, MessageRequest, Request};
use crate::topics::Topic;
use crate::wire::MessageLocal;
use vstd::prelude::*;

verus! {

/// How the federation reaches consensus, and this node's part in it.
#[derive(Clone, Copy, Debug, PartialEq, Eq, Structural)]
pub enum Mode {
    /// Every node collects the local sums and updates the global variables.
    Distributed,
    /// This node collects the local sums of all nodes and tells each its
    /// global variable. It is itself one of the nodes, and is told its own
    /// like any other.
    Controller,
    /// This node reports its local sum and is told its global variable.
    Worker,
}

impl Mode {
    /// Whether a node in this mode collects local sums.
    pub open spec fn aggregates(self) -> bool {
        self != Mode::Worker
    }
}

/// Mathematical state of a `Coordinator`.
pub struct RoundState {
    /// Index of this node.
    pub node_index: usize,
    /// This node's part in the consensus.
    pub mode: Mode,
    /// The request whose placement is being decided, if a round is running.
    pub incoming_request: Option<Request>,
    /// The node that put the request of the latest round up.
    pub src_node: Option<usize>,
    /// Whether this node had the memory for the request when the round
    /// started.
    pub could_host_request: bool,
    /// The collection of the local sums.
    pub solver: SolverState,
}

/// The reaction to a migration notice.
#[derive(Clone, Copy, Debug, PartialEq, Eq, Structural)]
pub enum NoticeReply {
    /// A round is running: the notice changes nothing.
    Ignored,
    /// A round starts. The caller makes its first local update, which is 0
    /// without any computation if `could_host` is false, and reports the sum.
    Started { could_host: bool },
}

/// The reaction to a node's local sum.
#[derive(Debug)]
pub enum LocalReply {
    /// The sender is no node of the federation, or this node does not
    /// collect local sums: the message changes nothing.
    Rejected,
    /// The sum is recorded; other nodes have yet to report.
    Waiting,
    /// Every node has reported and the iteration is counted. The caller
    /// updates the global variables from the sums, one for each node.
    Collected(Vec<Scalar>),
}

/// What the node does once the destination is known.
#[derive(Clone, Copy, Debug, PartialEq, Eq, Structural)]
pub enum HandOff {
    /// No round has run: there is nothing to hand off.
    NoRound,
    /// Another node put the request up. If this node is the destination, the
    /// source will announce itself.
    Bystander,
    /// This node put the request up and is its best host: the request stays,
    /// and the node is free for the next round.
    Stay,
    /// This node put the request up: it announces its address to `dest`.
    Announce { dest: usize },
}

/// What a node does once the sums of an iteration are collected and the
/// global variables updated from them.
#[derive(Clone, Copy, Debug, PartialEq, Eq, Structural)]
pub enum CollectAction {
    /// The round is over and this node is the controller: it tells every
    /// node the destination.
    TellDestination { dest: usize },
    /// The round goes on and this node is the controller: it tells every
    /// node its new global variable.
    TellUpdates,
    /// The round is over and every node has found the destination itself:
    /// this node acts on it, by `on_destination`.
    ActOnDestination { dest: usize },
    /// The round goes on and every node has updated the global variables
    /// itself: this node makes its next local update and reports it.
    NextLocalUpdate,
}

/// A request that enters this node.
#[derive(Clone, Copy, Debug, PartialEq, Eq, Structural)]
pub struct Arrival {
    /// Index of the request.
    pub request_index: usize,
    /// The node that sends it and waits to be told that this node listens.
    pub src: usize,
}

/// What a message is to the coordinator, by the topic it came on.
#[derive(Clone, Copy, Debug, PartialEq, Eq, Structural)]
pub enum Route {
    /// A node puts a request up: `on_migration`.
    Notice,
    /// A node reports its local sum: `on_local_update`.
    LocalSum,
    /// The controller tells this node its global variable or the
    /// destination.
    GlobalUpdate,
    /// The destination listens: `on_src_ready`.
    SrcReady,
    /// The source announces itself: `on_dst_ready`.
    DstReady,
    /// Nothing that the coordinator reacts to.
    Other,
}

impl RoundState {
    /// The collection of the sums is in order, and a running round has a
    /// source.
    pub open spec fn wf(self) -> bool {
        &&& self.solver.wf()
        &&& self.busy() ==> self.src_node is Some
    }

    /// What a message on `topic` is to the coordinator.
    pub open spec fn route(self, topic: Topic) -> Route {
        match topic {
            Topic::Migration => Route::Notice,
            Topic::LocalUpdate => if self.mode.aggregates() {
                Route::LocalSum
            } else {
                Route::Other
            },
            Topic::GlobalUpdate(i) => if self.mode != Mode::Distributed && i == self.node_index {
                Route::GlobalUpdate
            } else {
                Route::Other
            },
            Topic::Src(i) => if i == self.node_index {
                Route::SrcReady
            } else {
                Route::Other
            },
            Topic::Dst(i) => if i == self.node_index {
                Route::DstReady
            } else {
                Route::Other
            },
            _ => Route::Other,
        }
    }

    /// The topics that the coordinator subscribes to. The last one is that
    /// of its last will.
    pub open spec fn subscriptions(self) -> Seq<Topic> {
        (if self.mode.aggregates() {
            seq![Topic::Migration, Topic::LocalUpdate]
        } else {
            seq![Topic::Migration]
        }) + (if self.mode != Mode::Distributed {
            seq![Topic::GlobalUpdate(self.node_index)]
        } else {
            Seq::empty()
        }) + seq![Topic::Src(self.node_index), Topic::Dst(self.node_index), Topic::Disconnect]
    }

    /// Whether a round is running.
    pub open spec fn busy(self) -> bool {
        self.incoming_request is Some
    }

    /// The reply to the notice `message`.
    pub open spec fn notice_reply(self, could_host: bool) -> NoticeReply {
        if self.busy() {
            NoticeReply::Ignored
        } else {
            NoticeReply::Started { could_host }
        }
    }

    /// The state after the notice `message`, where `could_host` says whether
    /// this node has the memory for the request.
    pub open spec fn after_notice(self, message: MessageRequest, could_host: bool) -> RoundState {
        if self.busy() {
            self
        } else {
            RoundState {
                incoming_request: Some(message.request),
                src_node: Some(message.src),
                could_host_request: could_host,
                solver: if self.mode.aggregates() {
                    self.solver.cleared()
                } else {
                    self.solver
                },
                ..self
            }
        }
    }

    /// Whether a local sum from `src` is taken.
    pub open spec fn takes_local(self, src: usize) -> bool {
        self.mode.aggregates() && src < self.solver.number_of_nodes
    }

    /// Whether the local sum from `src` is the last one outstanding.
    pub open spec fn completes(self, sum: Seq<u8>, src: usize) -> bool {
        self.takes_local(src) && self.solver.with_local(sum, src).collected()
    }

    /// The state after the local sum `sum` from `src`.
    pub open spec fn after_local(self, sum: Seq<u8>, src: usize) -> RoundState {
        if !self.takes_local(src) {
            self
        } else if self.completes(sum, src) {
            RoundState { solver: self.solver.with_local(sum, src).after_update(), ..self }
        } else {
            RoundState { solver: self.solver.with_local(sum, src), ..self }
        }
    }

    /// The state after the local sums of `reports`, each a sum and its
    /// sender, received in their order.
    pub open spec fn after_locals(self, reports: Seq<(Seq<u8>, usize)>) -> RoundState
        decreases reports.len(),
    {
        if reports.len() == 0 {
            self
        } else {
            self.after_locals(reports.drop_last()).after_local(reports.last().0, reports.last().1)
        }
    }

    /// What the node does once the sums are collected, where
    /// `has_converged` says whether the global variables updated from them
    /// have converged and `dest` is the node whose global variable is
    /// largest. The round is over if they have converged or the iterations
    /// made exceed the limit.
    pub open spec fn collect_action(self, has_converged: bool, dest: usize) -> CollectAction {
        if self.mode == Mode::Controller {
            if self.solver.terminated(has_converged) {
                CollectAction::TellDestination { dest }
            } else {
                CollectAction::TellUpdates
            }
        } else {
            if self.solver.terminated(has_converged) {
                CollectAction::ActOnDestination { dest }
            } else {
                CollectAction::NextLocalUpdate
            }
        }
    }

    /// The topics on which the controller tells the nodes their global
    /// variables or the destination: one for each node, in the order of the
    /// nodes.
    pub open spec fn broadcast(self) -> Seq<Topic> {
        Seq::new(self.solver.number_of_nodes as nat, |i: int| Topic::GlobalUpdate(i as usize))
    }

    /// What the node does once `dest` is known to be the destination.
    pub open spec fn hand_off(self, dest: usize) -> HandOff {
        match self.src_node {
            None => HandOff::NoRound,
            Some(src) => if src != self.node_index {
                HandOff::Bystander
            } else if dest == self.node_index {
                HandOff::Stay
            } else {
                HandOff::Announce { dest }
            },
        }
    }

    /// The state once `dest` is known to be the destination.
    pub open spec fn after_destination(self, dest: usize) -> RoundState {
        if self.hand_off(dest) == HandOff::Stay {
            RoundState { incoming_request: None, ..self }
        } else {
            self
        }
    }

    /// The state once the request has left or entered the node.
    pub open spec fn idle(self) -> RoundState {
        RoundState { incoming_request: None, ..self }
    }
}

/// One node's part in the placement rounds.
pub struct Coordinator {
    node_index: usize,
    mode: Mode,
    incoming_request: Option<Request>,
    src_node: Option<usize>,
    could_host_request: bool,
    global_solver: GlobalSolver,
}

impl View for Coordinator {
    type V = RoundState;

    closed spec fn view(&self) -> RoundState {
        RoundState {
            node_index: self.node_index,
            mode: self.mode,
            incoming_request: self.incoming_request,
            src_node: self.src_node,
            could_host_request: self.could_host_request,
            solver: self.global_solver@,
        }
    }
}

impl Coordinator {
    /// The coordinator of the node `node_index` in a federation of
    /// `node_number` nodes, whose rounds end once more than `iteration_limit`
    /// iterations have been made.
    pub fn new(node_number: usize, node_index: usize, mode: Mode, iteration_limit: usize) -> (c:
        Coordinator)
        ensures
            c@ == (RoundState {
                node_index,
                mode,
                incoming_request: None,
                src_node: None,
                could_host_request: false,
                solver: SolverState::fresh(node_number, iteration_limit),
            }),
            c@.wf(),
    {
        Coordinator {
            node_index,
            mode,
            incoming_request: None,
            src_node: None,
            could_host_request: false,
            global_solver: GlobalSolver::new(node_number, iteration_limit),
        }
    }

    /// What a message on `topic` is to the coordinator.
    pub fn route(&self, topic: &Topic) -> (route: Route)
        ensures
            route == self@.route(*topic),
    {
        match topic {
            Topic::Migration => Route::Notice,
            Topic::LocalUpdate => match self.mode {
                Mode::Worker => Route::Other,
                _ => Route::LocalSum,
            },
            Topic::GlobalUpdate(i) => match self.mode {
                Mode::Distributed => Route::Other,
                _ => if *i == self.node_index {
                    Route::GlobalUpdate
                } else {
                    Route::Other
                },
            },
            Topic::Src(i) => if *i == self.node_index {
                Route::SrcReady
            } else {
                Route::Other
            },
            Topic::Dst(i) => if *i == self.node_index {
                Route::DstReady
            } else {
                Route::Other
            },
            _ => Route::Other,
        }
    }

    /// The topics that the coordinator subscribes to.
    pub fn subscriptions(&self) -> (topics: Vec<Topic>)
        ensures
            topics@ == self@.subscriptions(),
    {
        let mut topics: Vec<Topic> = Vec::new();
        topics.push(Topic::Migration);
        match self.mode {
            Mode::Worker => {},
            _ => {
                topics.push(Topic::LocalUpdate);
            },
        }
        match self.mode {
            Mode::Distributed => {},
            _ => {
                topics.push(Topic::GlobalUpdate(self.node_index));
            },
        }
        topics.push(Topic::Src(self.node_index));
        topics.push(Topic::Dst(self.node_index));
        topics.push(Topic::Disconnect);
        assert(topics@ =~= self@.subscriptions());
        topics
    }

    /// Whether a round is running.
    pub fn is_busy(&self) -> (busy: bool)
        ensures
            busy == self@.busy(),
    {
        self.incoming_request.is_some()
    }

    /// The request whose placement is being decided.
    pub fn get_incoming_request(&self) -> (request: Option<&Request>)
        ensures
            match request {
                Some(r) => self@.incoming_request == Some(*r),
                None => self@.incoming_request is None,
            },
    {
        self.incoming_request.as_ref()
    }

    /// Whether this node had the memory for the request when the round
    /// started. Where it had not, its local variable is 0 in every iteration,
    /// without any computation.
    pub fn could_host(&self) -> (could_host: bool)
        ensures
            could_host == self@.could_host_request,
    {
        self.could_host_request
    }

    /// How many iterations the running round has made.
    pub fn get_iterations(&self) -> (iterations: usize)
        ensures
            iterations == self@.solver.iteration,
    {
        self.global_solver.get_iterations()
    }

    /// Reacts to the notice that a node puts a request up for migration.
    /// While a round is running the notice is ignored and nothing changes.
    /// Otherwise a round starts for the request: the node remembers who put
    /// it up and whether `state` has the memory for it, and, if it collects
    /// local sums, starts collecting afresh.
    pub fn on_migration(&mut self, message: MessageRequest, state: &ApplicationState) -> (reply:
        NoticeReply)
        requires
            old(self)@.wf(),
        ensures
            final(self)@.wf(),
            final(self)@ == old(self)@.after_notice(
                message,
                message.request.required_memory < state.available_memory,
            ),
            reply == old(self)@.notice_reply(
                message.request.required_memory < state.available_memory,
            ),
    {
        if self.incoming_request.is_some() {
            return NoticeReply::Ignored;
        }
        let could_host: bool = state.could_host_computation(&message.request);
        self.src_node = Some(message.src);
        self.incoming_request = Some(message.request);
        self.could_host_request = could_host;
        match self.mode {
            Mode::Worker => {},
            _ => {
                self.global_solver.clear();
            },
        }
        NoticeReply::Started { could_host }
    }

    /// Reacts to the local sum of a node. A sum from a sender that is no
    /// node, or to a node that does not collect, is rejected. Otherwise it is
    /// recorded; and if as many nodes have then reported as there are, their
    /// sums are handed out, the iteration is counted and the next one starts
    /// with no report.
    pub fn on_local_update(&mut self, message: MessageLocal) -> (reply: LocalReply)
        requires
            old(self)@.wf(),
            old(self)@.solver.iteration < usize::MAX,
        ensures
            final(self)@.wf(),
            final(self)@ == old(self)@.after_local(message.local_sum@, message.src),
            match reply {
                LocalReply::Rejected => !old(self)@.takes_local(message.src),
                LocalReply::Waiting => old(self)@.takes_local(message.src) && !old(self)@.completes(message.local_sum@, message.src),
                LocalReply::Collected(sums) => old(self)@.completes(
                    message.local_sum@,
                    message.src,
                ) && literals(sums@) == old(self)@.solver.with_local(
                    message.local_sum@,
                    message.src,
                ).locals,
            },
    {
        let aggregates: bool = match self.mode {
            Mode::Worker => false,
            _ => true,
        };
        if !aggregates || message.src >= self.global_solver.get_number_of_nodes() {
            return LocalReply::Rejected;
        }
        self.global_solver.add_local_sum(message.local_sum, message.src);
        if self.global_solver.locals_len() == self.global_solver.get_number_of_nodes() {
            LocalReply::Collected(self.global_solver.global_z_updater())
        } else {
            LocalReply::Waiting
        }
    }

    /// Whether the running round is over, given whether the global variables
    /// have converged: it is once they have, and in any case once more
    /// iterations have been made than the limit allows.
    pub fn round_over(&self, has_converged: bool) -> (over: bool)
        ensures
            over == self@.solver.terminated(has_converged),
    {
        self.global_solver.terminated(has_converged)
    }

    /// What the node does once the sums of an iteration are collected and
    /// the global variables updated from them: the controller tells the
    /// nodes, any other node acts for itself; and either ends the round, if
    /// the variables have converged or the iterations made exceed the limit,
    /// or goes on with it.
    pub fn after_collection(&self, has_converged: bool, dest: usize) -> (action: CollectAction)
        ensures
            action == self@.collect_action(has_converged, dest),
    {
        let over: bool = self.global_solver.terminated(has_converged);
        match self.mode {
            Mode::Controller => if over {
                CollectAction::TellDestination { dest }
            } else {
                CollectAction::TellUpdates
            },
            _ => if over {
                CollectAction::ActOnDestination { dest }
            } else {
                CollectAction::NextLocalUpdate
            },
        }
    }

    /// The topics on which the controller tells the nodes their global
    /// variables or the destination.
    pub fn broadcast_topics(&self) -> (topics: Vec<Topic>)
        ensures
            topics@ == self@.broadcast(),
    {
        let nodes: usize = self.global_solver.get_number_of_nodes();
        let mut topics: Vec<Topic> = Vec::new();
        let mut i: usize = 0;
        while i < nodes
            invariant
                i <= nodes,
                nodes == self@.solver.number_of_nodes,
                topics@ == Seq::new(i as nat, |j: int| Topic::GlobalUpdate(j as usize)),
            decreases nodes - i,
        {
            topics.push(Topic::GlobalUpdate(i));
            i += 1;
            assert(topics@ =~= Seq::new(i as nat, |j: int| Topic::GlobalUpdate(j as usize)));
        }
        topics
    }

    /// Reacts to the outcome of a round: `dest` is the node that the request
    /// goes to. Only the node that put the request up acts: it announces
    /// itself to the destination, or, being the destination itself, keeps the
    /// request and is free for the next round.
    pub fn on_destination(&mut self, dest: usize) -> (hand_off: HandOff)
        requires
            old(self)@.wf(),
        ensures
            final(self)@.wf(),
            hand_off == old(self)@.hand_off(dest),
            final(self)@ == old(self)@.after_destination(dest),
    {
        match self.src_node {
            None => HandOff::NoRound,
            Some(src) => {
                if src != self.node_index {
                    HandOff::Bystander
                } else if dest == self.node_index {
                    self.incoming_request = None;
                    HandOff::Stay
                } else {
                    HandOff::Announce { dest }
                }
            },
        }
    }

    /// Reacts, on the node that put the request up, to the destination's
    /// word that it listens: the request leaves `state`, if it is still
    /// there, and the node is free for the next round. Returns the index of the request, whose files the
    /// caller sends and then removes, counting one pending request less.
    /// Without a running round nothing happens.
    pub fn on_src_ready(&mut self, state: &mut ApplicationState) -> (departure: Option<usize>)
        requires
            old(self)@.wf(),
            old(self)@.busy() ==> old(state).wf(),
        ensures
            final(self)@.wf(),
            final(self)@ == old(self)@.idle(),
            match old(self)@.incoming_request {
                Some(request) => departure == Some(request.index) && final(state).wf() && final(state).is_removal(old(state), request.index),
                None => departure is None && *final(state) == *old(state),
            },
    {
        match self.incoming_request.take() {
            Some(request) => {
                state.remove_request(request.index);
                Some(request.index)
            },
            None => None,
        }
    }

    /// Whether `state` can take the request of the running round in.
    pub fn can_accept(&self, state: &ApplicationState) -> (ok: bool)
        ensures
            ok == (self@.incoming_request matches Some(request) ==> state.admits(&request)),
    {
        match &self.incoming_request {
            Some(request) => state.can_admit(request),
            None => true,
        }
    }

    /// Reacts, on the destination, to the source's announcement: the request
    /// enters `state` at `now` and the node is free for the next round.
    /// Returns what the caller needs to receive the files: it listens, tells
    /// the source so, and counts one pending request more once the files are
    /// there. Without a running round nothing happens.
    pub fn on_dst_ready(&mut self, state: &mut ApplicationState, now: u64) -> (arrival: Option<
        Arrival,
    >)
        requires
            old(self)@.wf(),
            old(self)@.busy() ==> old(state).wf() && old(state).admits(
                &old(self)@.incoming_request.unwrap(),
            ),
        ensures
            final(self)@.wf(),
            final(self)@ == old(self)@.idle(),
            match old(self)@.incoming_request {
                Some(request) => arrival == Some(
                    Arrival { request_index: request.index, src: old(self)@.src_node.unwrap() },
                ) && final(state).wf() && final(state).is_addition(old(state), request, now),
                None => arrival is None && *final(state) == *old(state),
            },
    {
        match self.incoming_request.take() {
            Some(request) => {
                let arrival = Arrival { request_index: request.index, src: self.src_node.unwrap() };
                state.add_request(request, now);
                Some(arrival)
            },
            None => None,
        }
    }
}

/// A migration notice that arrives while a round is running leaves the
/// coordinator as it was.
pub proof fn lemma_busy_ignores_notice(state: RoundState, message: MessageRequest, could_host: bool)
    requires
        state.busy(),
    ensures
        state.after_notice(message, could_host) == state,
        state.notice_reply(could_host) == NoticeReply::Ignored,
{
}

/// The same local sum received twice while other nodes have yet to report
/// changes nothing the second time.
pub proof fn lemma_duplicate_local_ignored(state: RoundState, sum: Seq<u8>, src: usize)
    requires
        state.wf(),
        !state.completes(sum, src),
    ensures
        state.after_local(sum, src).after_local(sum, src) == state.after_local(sum, src),
{
    if state.takes_local(src) {
        crate::admm_solver::lemma_duplicate_local(state.solver, sum, src);
    }
}

/// Two nodes that collect, and agree on what has been collected, agree on
/// it after the same local sums received in the same order: each hands the
/// same sums out at the same iterations, whichever node it is and whatever
/// else it knows.
pub proof fn lemma_same_reports_same_sums(
    a: RoundState,
    b: RoundState,
    reports: Seq<(Seq<u8>, usize)>,
)
    requires
        a.mode.aggregates(),
        b.mode.aggregates(),
        a.solver == b.solver,
    ensures
        a.after_locals(reports).solver == b.after_locals(reports).solver,
        a.after_locals(reports).mode == a.mode,
        b.after_locals(reports).mode == b.mode,
    decreases reports.len(),
{
    if reports.len() > 0 {
        lemma_same_reports_same_sums(a, b, reports.drop_last());
    }
}

/// A round ends once more iterations have been made in it than the limit
/// allows, whether the global variables have converged or not: a node that
/// starts a round and then hands the sums out `n` times, `n` above the
/// limit, finds the round over.
pub proof fn lemma_round_ends(
    state: RoundState,
    message: MessageRequest,
    could_host: bool,
    n: nat,
    has_converged: bool,
)
    requires
        !state.busy(),
        state.mode.aggregates(),
        n > state.solver.iteration_limit,
        n <= usize::MAX,
    ensures
        state.after_notice(message, could_host).solver.after_updates(n).terminated(has_converged),
{
    crate::admm_solver::lemma_terminates_after_limit(
        state.after_notice(message, could_host).solver,
        n,
        has_converged,
    );
}

/// What the controller tells the nodes reaches each node once: every node
/// has its topic in the broadcast, at its own place and nowhere else, and a
/// node of a centralised federation takes a message on that topic as its
/// global update.
pub proof fn lemma_broadcast_reaches_each_once(controller: RoundState, node: RoundState, i: int)
    requires
        0 <= i < controller.broadcast().len(),
        node.mode != Mode::Distributed,
    ensures
        controller.broadcast().len() == controller.solver.number_of_nodes,
        (node.route(controller.broadcast()[i]) == Route::GlobalUpdate) == (node.node_index == i),
{
}

/// The coordinator reacts to every topic that it subscribes to, but for
/// that of its last will.
pub proof fn lemma_subscriptions_routed(state: RoundState, i: int)
    requires
        0 <= i < state.subscriptions().len() - 1,
    ensures
        state.route(state.subscriptions()[i]) != Route::Other,
{
}

} // verus!
