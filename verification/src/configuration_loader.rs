//! What a node is told when it starts: who it is, where the bus is, and
//! which requests it serves at first.

use crate::state::{dct_slot, ApplicationState, NodeState, NodeStateView, Request, RequestView};
use crate::text::{parse_unsigned, read_unsigned, same_bytes, write_bytes};
use crate::wire::{parse_node_state, parse_request, ParseError};
use vstd::prelude::*;
use vstd::string::StringSliceAdditionalSpecFns;

verus! {

/// The configuration of a node, as its file gives it: one value on each
/// line, in the order of the fields.
#[derive(Debug)]
pub struct Configuration {
    /// Index of the node in the federation.
    pub node_index: usize,
    /// Index of the application.
    pub application_index: usize,
    /// Address and port at which the node listens for the files of a
    /// request.
    pub node_address: Vec<u8>,
    /// Position and speed of the node.
    pub node_state: NodeState,
    /// The core that the node's tasks run on.
    pub affinity: usize,
    /// Number of nodes in the federation.
    pub node_number: usize,
    /// Address of the message bus.
    pub broker_address: Vec<u8>,
    /// Whether the node is the controller of a centralised federation. A
    /// file without this line says that it is not.
    pub is_controller: bool,
}

/// Mathematical value of a `Configuration`.
pub struct ConfigurationView {
    pub node_index: usize,
    pub application_index: usize,
    pub node_address: Seq<u8>,
    pub node_state: NodeStateView,
    pub affinity: usize,
    pub node_number: usize,
    pub broker_address: Seq<u8>,
    pub is_controller: bool,
}

impl View for Configuration {
    type V = ConfigurationView;

    open spec fn view(&self) -> ConfigurationView {
        ConfigurationView {
            node_index: self.node_index,
            application_index: self.application_index,
            node_address: self.node_address@,
            node_state: self.node_state@,
            affinity: self.affinity,
            node_number: self.node_number,
            broker_address: self.broker_address@,
            is_controller: self.is_controller,
        }
    }
}

/// Why a configuration was not read. Lines are counted from 0.
#[derive(Clone, Copy, Debug, PartialEq, Eq, Structural)]
pub enum ConfigError {
    /// The file ends before this line.
    Missing { line: usize },
    /// This line does not read as the value that stands there.
    Malformed { line: usize },
}

/// The truth value that `s` denotes: `true` or `false`.
pub open spec fn parse_bool(s: Seq<u8>) -> Option<bool> {
    if s == "true".spec_bytes() {
        Some(true)
    } else if s == "false".spec_bytes() {
        Some(false)
    } else {
        None
    }
}

/// Behind which line the reading of `lines` stops, and why, if it does.
pub open spec fn configuration_error(lines: Seq<Seq<u8>>) -> Option<ConfigError> {
    if lines.len() < 1 {
        Some(ConfigError::Missing { line: 0 })
    } else if parse_unsigned(lines[0], usize::MAX as nat) is None {
        Some(ConfigError::Malformed { line: 0 })
    } else if lines.len() < 2 {
        Some(ConfigError::Missing { line: 1 })
    } else if parse_unsigned(lines[1], usize::MAX as nat) is None {
        Some(ConfigError::Malformed { line: 1 })
    } else if lines.len() < 3 {
        Some(ConfigError::Missing { line: 2 })
    } else if lines.len() < 4 {
        Some(ConfigError::Missing { line: 3 })
    } else if parse_node_state(lines[3]) is Err {
        Some(ConfigError::Malformed { line: 3 })
    } else if lines.len() < 5 {
        Some(ConfigError::Missing { line: 4 })
    } else if parse_unsigned(lines[4], usize::MAX as nat) is None {
        Some(ConfigError::Malformed { line: 4 })
    } else if lines.len() < 6 {
        Some(ConfigError::Missing { line: 5 })
    } else if parse_unsigned(lines[5], usize::MAX as nat) is None {
        Some(ConfigError::Malformed { line: 5 })
    } else if lines.len() < 7 {
        Some(ConfigError::Missing { line: 6 })
    } else if lines.len() >= 8 && parse_bool(lines[7]) is None {
        Some(ConfigError::Malformed { line: 7 })
    } else {
        None
    }
}

/// The configuration that `lines` give.
pub open spec fn parse_configuration(lines: Seq<Seq<u8>>) -> Result<
    ConfigurationView,
    ConfigError,
> {
    match configuration_error(lines) {
        Some(e) => Err(e),
        None => Ok(
            ConfigurationView {
                node_index: parse_unsigned(lines[0], usize::MAX as nat).unwrap() as usize,
                application_index: parse_unsigned(lines[1], usize::MAX as nat).unwrap() as usize,
                node_address: lines[2],
                node_state: parse_node_state(lines[3]).unwrap(),
                affinity: parse_unsigned(lines[4], usize::MAX as nat).unwrap() as usize,
                node_number: parse_unsigned(lines[5], usize::MAX as nat).unwrap() as usize,
                broker_address: lines[6],
                is_controller: lines.len() >= 8 && parse_bool(lines[7]).unwrap(),
            },
        ),
    }
}

/// The index or count on the line `line`.
fn read_count(lines: &Vec<Vec<u8>>, line: usize) -> (r: Result<usize, ConfigError>)
    ensures
        match r {
            Ok(v) => line < lines@.len() && parse_unsigned(lines@[line as int]@, usize::MAX as nat)
                == Some(v as nat),
            Err(e) => if line < lines@.len() {
                parse_unsigned(lines@[line as int]@, usize::MAX as nat) is None && e
                    == (ConfigError::Malformed { line })
            } else {
                e == (ConfigError::Missing { line })
            },
        },
{
    if line >= lines.len() {
        return Err(ConfigError::Missing { line });
    }
    match read_unsigned(lines[line].as_slice(), usize::MAX as u64) {
        Some(v) => Ok(v as usize),
        None => Err(ConfigError::Malformed { line }),
    }
}

/// A copy of the line `line`.
fn read_text(lines: &Vec<Vec<u8>>, line: usize) -> (r: Result<Vec<u8>, ConfigError>)
    ensures
        match r {
            Ok(v) => line < lines@.len() && v@ == lines@[line as int]@,
            Err(e) => line >= lines@.len() && e == (ConfigError::Missing { line }),
        },
{
    if line >= lines.len() {
        return Err(ConfigError::Missing { line });
    }
    let mut text: Vec<u8> = Vec::new();
    write_bytes(lines[line].as_slice(), &mut text);
    assert(text@ =~= lines@[line as int]@);
    Ok(text)
}

impl Configuration {
    /// Reads a configuration from the lines of its file.
    pub fn from_lines(lines: &Vec<Vec<u8>>) -> (r: Result<Configuration, ConfigError>)
        ensures
            match r {
                Ok(c) => parse_configuration(crate::text::texts(lines@)) == Ok::<
                    ConfigurationView,
                    ConfigError,
                >(c@),
                Err(e) => parse_configuration(crate::text::texts(lines@)) == Err::<
                    ConfigurationView,
                    ConfigError,
                >(e),
            },
    {
        let ghost l = crate::text::texts(lines@);
        assert(forall|i: int| 0 <= i < lines@.len() ==> l[i] == (#[trigger] lines@[i])@);
        let node_index: usize = match read_count(lines, 0) {
            Ok(v) => v,
            Err(e) => {
                return Err(e);
            },
        };
        let application_index: usize = match read_count(lines, 1) {
            Ok(v) => v,
            Err(e) => {
                return Err(e);
            },
        };
        let node_address: Vec<u8> = match read_text(lines, 2) {
            Ok(v) => v,
            Err(e) => {
                return Err(e);
            },
        };
        if lines.len() < 4 {
            return Err(ConfigError::Missing { line: 3 });
        }
        let node_state: NodeState = match NodeState::from_bytes(lines[3].as_slice()) {
            Ok(v) => v,
            Err(_) => {
                return Err(ConfigError::Malformed { line: 3 });
            },
        };
        let affinity: usize = match read_count(lines, 4) {
            Ok(v) => v,
            Err(e) => {
                return Err(e);
            },
        };
        let node_number: usize = match read_count(lines, 5) {
            Ok(v) => v,
            Err(e) => {
                return Err(e);
            },
        };
        let broker_address: Vec<u8> = match read_text(lines, 6) {
            Ok(v) => v,
            Err(e) => {
                return Err(e);
            },
        };
        let is_controller: bool = if lines.len() >= 8 {
            if same_bytes(lines[7].as_slice(), "true".as_bytes()) {
                true
            } else if same_bytes(lines[7].as_slice(), "false".as_bytes()) {
                false
            } else {
                return Err(ConfigError::Malformed { line: 7 });
            }
        } else {
            false
        };
        Ok(
            Configuration {
                node_index,
                application_index,
                node_address,
                node_state,
                affinity,
                node_number,
                broker_address,
                is_controller,
            },
        )
    }
}

/// Why the requests of a node were not all loaded. Lines are counted from 0.
#[derive(Clone, Copy, Debug, PartialEq, Eq, Structural)]
pub enum LoadError {
    /// This line does not read as a request.
    Unreadable { line: usize, error: ParseError },
    /// The request on this line cannot be added: its index is taken, or it
    /// needs more memory than is available, or the books would overflow.
    Rejected { line: usize },
}

/// The order by completion time once the requests of `added` have been
/// taken in, one after the other at `now`, behind the requests `rs` that
/// `order` lists.
pub open spec fn order_after(
    rs: Seq<Request>,
    order: Seq<usize>,
    added: Seq<Request>,
    now: u64,
) -> Seq<usize>
    decreases added.len(),
{
    if added.len() == 0 {
        order
    } else {
        let before = order_after(rs, order, added.drop_last(), now);
        before.insert(
            dct_slot(rs + added.drop_last(), before, added.last(), now),
            added.last().index,
        )
    }
}

/// Whether `after` is `before` with the requests that the first `count` of
/// `lines` denote taken in, one after the other at `now`.
pub open spec fn holds_loaded(
    after: &ApplicationState,
    before: &ApplicationState,
    lines: Seq<Seq<u8>>,
    count: int,
    now: u64,
) -> bool {
    let added = after.requests@.skip(before.requests@.len() as int);
    &&& after.requests@.len() == before.requests@.len() + count
    &&& after.requests@ == before.requests@ + added
    &&& forall|i: int|
        0 <= i < count ==> parse_request(#[trigger] lines[i], now) == Ok::<
            RequestView,
            ParseError,
        >(added[i]@)
    &&& after.requests_by_dct@ == order_after(
        before.requests@,
        before.requests_by_dct@,
        added,
        now,
    )
    &&& after.node_state == before.node_state
    &&& after.sporadic_server_t == before.sporadic_server_t
    &&& after.sporadic_server_c == before.sporadic_server_c
    &&& after.assigned_memory == before.assigned_memory
    &&& after.checkpoint_is_ready == before.checkpoint_is_ready
}

/// Adds the requests that `lines` denote to `state`, in their order, each as
/// arrived at `now`. Stops at the first line that does not read as a request
/// or whose request cannot be added; the requests of the lines before it
/// stay.
pub fn load_requests(state: &mut ApplicationState, lines: &Vec<Vec<u8>>, now: u64) -> (r: Result<
    (),
    LoadError,
>)
    requires
        old(state).wf(),
    ensures
        final(state).wf(),
        match r {
            Ok(_) => holds_loaded(
                final(state),
                old(state),
                crate::text::texts(lines@),
                lines@.len() as int,
                now,
            ),
            Err(LoadError::Unreadable { line, error }) => line < lines@.len() && holds_loaded(
                final(state),
                old(state),
                crate::text::texts(lines@),
                line as int,
                now,
            ) && parse_request(lines@[line as int]@, now) == Err::<RequestView, ParseError>(error),
            Err(LoadError::Rejected { line }) => line < lines@.len() && holds_loaded(
                final(state),
                old(state),
                crate::text::texts(lines@),
                line as int,
                now,
            ) && (parse_request(lines@[line as int]@, now) matches Ok(request) && !final(state).has_room(request.index, request.required_memory, request.execution_time)),
        },
{
    let ghost l = crate::text::texts(lines@);
    assert(forall|i: int| 0 <= i < lines@.len() ==> l[i] == (#[trigger] lines@[i])@);
    assert(state.requests@.skip(state.requests@.len() as int) =~= Seq::<Request>::empty());
    assert(state.requests@ + Seq::<Request>::empty() =~= state.requests@);
    let mut line: usize = 0;
    while line < lines.len()
        invariant
            line <= lines@.len(),
            state.wf(),
            l == crate::text::texts(lines@),
            forall|i: int| 0 <= i < lines@.len() ==> l[i] == (#[trigger] lines@[i])@,
            holds_loaded(state, old(state), l, line as int, now),
        decreases lines@.len() - line,
    {
        let request: Request = match Request::from_bytes(lines[line].as_slice(), now) {
            Ok(request) => request,
            Err(error) => {
                return Err(LoadError::Unreadable { line, error });
            },
        };
        if !state.can_admit(&request) {
            return Err(LoadError::Rejected { line });
        }
        let ghost before = state.requests@;
        let ghost first = old(state).requests@.len() as int;
        let ghost added = before.skip(first);
        state.add_request(request, now);
        proof {
            let added2 = state.requests@.skip(first);
            assert(added2 =~= added.push(request));
            assert(added2.drop_last() =~= added);
            assert(added2.last() == request);
            assert(state.requests@ =~= old(state).requests@ + added2);
            assert forall|i: int| 0 <= i < line + 1 implies parse_request(#[trigger] l[i], now)
                == Ok::<RequestView, ParseError>(added2[i]@) by {
                if i < line {
                    assert(added2[i] == added[i]);
                }
            }
        }
        line += 1;
    }
    Ok(())
}

} // verus!
