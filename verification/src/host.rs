//! What the host of a computation answers and does on its behalf: which
//! request runs next, whether a running request should migrate, and what
//! becomes of a request once its run has ended.

use crate::state::{holds_index, slot_of, with_region_advanced, ApplicationState, Request};
use vstd::prelude::*;

verus! {

/// How the run of a computation ended.
#[derive(Clone, Copy, Debug, PartialEq, Eq, Structural)]
pub enum Outcome {
    /// The computation returned.
    Completed,
    /// The computation stopped at a checkpoint, by the trap that it raises
    /// to say so: its memory is saved and it can move.
    Checkpoint,
    /// The computation was stopped by any other trap.
    Failed,
}

/// The answer of the host to a computation that asks, at the start of a
/// checkpoint region, whether it should migrate. The request moves on to its
/// next region; the answer is 1 if it is then up for migration and has not
/// passed the last region from which migrating pays, and 0 otherwise.
pub open spec fn migration_answer(rs: Seq<Request>, request_index: usize) -> i32 {
    let after = with_region_advanced(rs, request_index);
    if holds_index(rs, request_index) && after[slot_of(rs, request_index)].should_migrate
        && after[slot_of(rs, request_index)].current_region <= after[slot_of(
        rs,
        request_index,
    )].migratable_up_to {
        1
    } else {
        0
    }
}

/// Answers the computation of the request `request_index`, which asks
/// whether it should migrate.
pub fn host_should_migrate(state: &mut ApplicationState, request_index: usize) -> (answer: i32)
    requires
        old(state).wf(),
        holds_index(old(state).requests@, request_index) ==> old(state).requests@[slot_of(
            old(state).requests@,
            request_index,
        )].current_region < usize::MAX,
    ensures
        final(state).wf(),
        final(state).requests@ == with_region_advanced(old(state).requests@, request_index),
        final(state).same_accounts(old(state)),
        answer == migration_answer(old(state).requests@, request_index),
{
    state.advance_cur_region_of_request(request_index);
    proof {
        if holds_index(old(state).requests@, request_index) {
            let rs = old(state).requests@;
            let i = slot_of(rs, request_index);
            crate::state::lemma_slot_exists(rs, request_index);
            assert(crate::state::is_first_slot(state.requests@, request_index, i)) by {
                assert forall|j: int| 0 <= j < i implies (#[trigger] state.requests@[j]).index
                    != request_index by {
                    assert(state.requests@[j] == rs[j]);
                }
            }
            crate::state::lemma_first_slot_unique(state.requests@, request_index, i);
        } else {
            assert(!holds_index(state.requests@, request_index));
        }
    }
    match state.get_request(request_index) {
        Some(request) => if request.should_migrate && request.current_region
            <= request.migratable_up_to {
            1
        } else {
            0
        },
        None => 0,
    }
}

/// The request that the server runs next: the oldest one.
pub fn first_request(state: &ApplicationState) -> (request: Option<&Request>)
    ensures
        match request {
            Some(r) => state.requests@.len() > 0 && *r == state.requests@[0],
            None => state.requests@.len() == 0,
        },
{
    if state.requests.len() > 0 {
        Some(&state.requests[0])
    } else {
        None
    }
}

/// Whether the directory of the request is to be removed after `outcome`:
/// it is kept at a checkpoint, for the files to be sent.
pub open spec fn removes_directory(outcome: Outcome) -> bool {
    outcome != Outcome::Checkpoint
}

/// Takes note of how the run of the request `request_index` ended. At a
/// checkpoint the state says that a checkpoint is ready, and nothing else
/// changes. After any other end the request is taken out, if it is still
/// there. Returns whether the caller is to remove the directory of the
/// request.
pub fn conclude(state: &mut ApplicationState, request_index: usize, outcome: Outcome) -> (remove:
    bool)
    requires
        old(state).wf(),
    ensures
        final(state).wf(),
        remove == removes_directory(outcome),
        outcome == Outcome::Checkpoint ==> *final(state) == (ApplicationState {
            checkpoint_is_ready: true,
            ..*old(state)
        }),
        outcome != Outcome::Checkpoint ==> final(state).is_removal(old(state), request_index),
{
    match outcome {
        Outcome::Checkpoint => {
            state.checkpoint_is_ready = true;
            false
        },
        _ => {
            state.remove_request(request_index);
            true
        },
    }
}

} // verus!
