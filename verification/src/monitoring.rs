//! The two monitors of a node: the one that follows the node's position,
//! and the one that puts requests up for migration.
//!
//! Whether a request is close enough to where it would best run is a matter
//! of distances between real positions, which the caller judges. The monitor
//! lists the requests to judge and puts up those that the caller names.

use crate::state::{
    holds_index, slot_of, with_flag, ApplicationState, MessageRequestView, NodeState,
    NodeStateView, Request,
};
use crate::wire::{message_request_text, notice_text, parse_node_state, ParseError};
use vstd::prelude::*;

verus! {

/// Reacts to a word on the node's state topic: if `payload` reads as a node
/// state, it replaces the node state of `state`; if not, nothing changes.
pub fn on_node_state(state: &mut ApplicationState, payload: &[u8]) -> (r: Result<(), ParseError>)
    ensures
        match r {
            Ok(_) => parse_node_state(payload@) is Ok && final(state).node_state@
                == parse_node_state(payload@).unwrap() && final(state).same_books(old(state)),
            Err(e) => parse_node_state(payload@) == Err::<NodeStateView, ParseError>(e) && *final(state)
                == *old(state),
        },
{
    match NodeState::from_bytes(payload) {
        Ok(node_state) => {
            state.node_state = node_state;
            Ok(())
        },
        Err(e) => Err(e),
    }
}

/// The indices of the requests of `rs` that are not up for migration, in
/// the order of the requests.
pub open spec fn unflagged(rs: Seq<Request>) -> Seq<usize>
    decreases rs.len(),
{
    if rs.len() == 0 {
        Seq::empty()
    } else if rs.last().should_migrate {
        unflagged(rs.drop_last())
    } else {
        unflagged(rs.drop_last()).push(rs.last().index)
    }
}

/// The indices of the requests that an activation of the request monitor
/// has to judge: those that are not yet up for migration.
pub fn candidates(state: &ApplicationState) -> (indices: Vec<usize>)
    ensures
        indices@ == unflagged(state.requests@),
{
    let mut indices: Vec<usize> = Vec::new();
    let mut i: usize = 0;
    while i < state.requests.len()
        invariant
            i <= state.requests@.len(),
            indices@ == unflagged(state.requests@.take(i as int)),
        decreases state.requests@.len() - i,
    {
        proof {
            assert(state.requests@.take(i + 1).drop_last() =~= state.requests@.take(i as int));
            assert(state.requests@.take(i + 1).last() == state.requests@[i as int]);
        }
        if !state.requests[i].should_migrate {
            indices.push(state.requests[i].index);
        }
        i += 1;
    }
    assert(state.requests@.take(i as int) =~= state.requests@);
    indices
}

/// Puts the request with the index `request_index` up for migration: its
/// flag is set, and the notice that the node `node_index` publishes for it
/// is returned. Without such a request nothing changes and there is no
/// notice.
pub fn put_up(state: &mut ApplicationState, node_index: usize, request_index: usize) -> (notice:
    Option<Vec<u8>>)
    requires
        old(state).wf(),
    ensures
        final(state).wf(),
        final(state).requests@ == with_flag(old(state).requests@, request_index, true),
        final(state).same_accounts(old(state)),
        match notice {
            Some(text) => holds_index(old(state).requests@, request_index) && text@
                == message_request_text(
                MessageRequestView {
                    src: node_index,
                    request: old(state).requests@[slot_of(old(state).requests@, request_index)]@,
                },
            ),
            None => !holds_index(old(state).requests@, request_index),
        },
{
    let notice: Option<Vec<u8>> = match state.get_request(request_index) {
        Some(request) => Some(notice_text(node_index, request)),
        None => None,
    };
    state.set_should_migrate_of_request(request_index, true);
    notice
}

} // verus!
