//! The topics of the federation's message bus.

use crate::text::{
    decimal_digits, has_prefix, lemma_decimal_roundtrip, lemma_unsigned_roundtrip, parse_unsigned,
    read_unsigned, same_bytes, starts_with, tail, write_bytes, write_unsigned,
};
use vstd::prelude::*;
use vstd::string::StringSliceAdditionalSpecFns;

verus! {

/// A topic of the message bus.
#[derive(Clone, Copy, Debug, PartialEq, Eq, Structural)]
pub enum Topic {
    /// `federation/migration`: a node puts a request up.
    Migration,
    /// `federation/local_update`: a node reports its local sum.
    LocalUpdate,
    /// `federation/global_update/<i>`: the controller tells node `i` its
    /// global variable, or the destination.
    GlobalUpdate(usize),
    /// `federation/src/<i>`: the destination tells the source `i` where it
    /// listens.
    Src(usize),
    /// `federation/dst/<i>`: the source tells the destination `i` that it
    /// is about to send.
    Dst(usize),
    /// `node_state_<i>`: the position and speed of node `i`.
    NodeState(usize),
    /// `disconnect`: the last will of a node that lost the bus.
    Disconnect,
}

pub open spec fn text_migration() -> Seq<u8> {
    "federation/migration".spec_bytes()
}

pub open spec fn text_local_update() -> Seq<u8> {
    "federation/local_update".spec_bytes()
}

pub open spec fn text_global_update() -> Seq<u8> {
    "federation/global_update/".spec_bytes()
}

pub open spec fn text_src() -> Seq<u8> {
    "federation/src/".spec_bytes()
}

pub open spec fn text_dst() -> Seq<u8> {
    "federation/dst/".spec_bytes()
}

pub open spec fn text_node_state() -> Seq<u8> {
    "node_state_".spec_bytes()
}

pub open spec fn text_disconnect() -> Seq<u8> {
    "disconnect".spec_bytes()
}

/// The name of a topic.
pub open spec fn topic_text(t: Topic) -> Seq<u8> {
    match t {
        Topic::Migration => text_migration(),
        Topic::LocalUpdate => text_local_update(),
        Topic::GlobalUpdate(i) => text_global_update() + decimal_digits(i as nat),
        Topic::Src(i) => text_src() + decimal_digits(i as nat),
        Topic::Dst(i) => text_dst() + decimal_digits(i as nat),
        Topic::NodeState(i) => text_node_state() + decimal_digits(i as nat),
        Topic::Disconnect => text_disconnect(),
    }
}

/// The index that stands in `s` behind the first `prefix` bytes.
pub open spec fn index_behind(s: Seq<u8>, prefix: Seq<u8>) -> Option<nat> {
    parse_unsigned(s.skip(prefix.len() as int), usize::MAX as nat)
}

/// The topic that `s` names.
pub open spec fn parse_topic(s: Seq<u8>) -> Option<Topic> {
    if s == text_migration() {
        Some(Topic::Migration)
    } else if s == text_local_update() {
        Some(Topic::LocalUpdate)
    } else if starts_with(s, text_global_update()) {
        match index_behind(s, text_global_update()) {
            Some(i) => Some(Topic::GlobalUpdate(i as usize)),
            None => None,
        }
    } else if starts_with(s, text_src()) {
        match index_behind(s, text_src()) {
            Some(i) => Some(Topic::Src(i as usize)),
            None => None,
        }
    } else if starts_with(s, text_dst()) {
        match index_behind(s, text_dst()) {
            Some(i) => Some(Topic::Dst(i as usize)),
            None => None,
        }
    } else if starts_with(s, text_node_state()) {
        match index_behind(s, text_node_state()) {
            Some(i) => Some(Topic::NodeState(i as usize)),
            None => None,
        }
    } else if s == text_disconnect() {
        Some(Topic::Disconnect)
    } else {
        None
    }
}

/// The index that stands in `s` behind the first `from` bytes.
fn read_index(s: &[u8], from: usize) -> (index: Option<usize>)
    requires
        from <= s.len(),
    ensures
        match index {
            Some(i) => parse_unsigned(s@.skip(from as int), usize::MAX as nat) == Some(i as nat),
            None => parse_unsigned(s@.skip(from as int), usize::MAX as nat) is None,
        },
{
    let rest: Vec<u8> = tail(s, from);
    match read_unsigned(rest.as_slice(), usize::MAX as u64) {
        Some(i) => Some(i as usize),
        None => None,
    }
}

impl Topic {
    /// The name of the topic.
    pub fn to_bytes(&self) -> (text: Vec<u8>)
        ensures
            text@ == topic_text(*self),
    {
        let mut text: Vec<u8> = Vec::new();
        match self {
            Topic::Migration => {
                write_bytes("federation/migration".as_bytes(), &mut text);
            },
            Topic::LocalUpdate => {
                write_bytes("federation/local_update".as_bytes(), &mut text);
            },
            Topic::GlobalUpdate(i) => {
                write_bytes("federation/global_update/".as_bytes(), &mut text);
                write_unsigned(*i as u64, &mut text);
            },
            Topic::Src(i) => {
                write_bytes("federation/src/".as_bytes(), &mut text);
                write_unsigned(*i as u64, &mut text);
            },
            Topic::Dst(i) => {
                write_bytes("federation/dst/".as_bytes(), &mut text);
                write_unsigned(*i as u64, &mut text);
            },
            Topic::NodeState(i) => {
                write_bytes("node_state_".as_bytes(), &mut text);
                write_unsigned(*i as u64, &mut text);
            },
            Topic::Disconnect => {
                write_bytes("disconnect".as_bytes(), &mut text);
            },
        }
        assert(text@ =~= topic_text(*self));
        text
    }

    /// The topic that `text` names.
    pub fn from_bytes(text: &[u8]) -> (topic: Option<Topic>)
        ensures
            topic == parse_topic(text@),
    {
        let global: &[u8] = "federation/global_update/".as_bytes();
        let src: &[u8] = "federation/src/".as_bytes();
        let dst: &[u8] = "federation/dst/".as_bytes();
        let node_state: &[u8] = "node_state_".as_bytes();
        if same_bytes(text, "federation/migration".as_bytes()) {
            Some(Topic::Migration)
        } else if same_bytes(text, "federation/local_update".as_bytes()) {
            Some(Topic::LocalUpdate)
        } else if has_prefix(text, global) {
            match read_index(text, global.len()) {
                Some(i) => Some(Topic::GlobalUpdate(i)),
                None => None,
            }
        } else if has_prefix(text, src) {
            match read_index(text, src.len()) {
                Some(i) => Some(Topic::Src(i)),
                None => None,
            }
        } else if has_prefix(text, dst) {
            match read_index(text, dst.len()) {
                Some(i) => Some(Topic::Dst(i)),
                None => None,
            }
        } else if has_prefix(text, node_state) {
            match read_index(text, node_state.len()) {
                Some(i) => Some(Topic::NodeState(i)),
                None => None,
            }
        } else if same_bytes(text, "disconnect".as_bytes()) {
            Some(Topic::Disconnect)
        } else {
            None
        }
    }
}

/// The bytes of the fixed parts of the topic names.
proof fn lemma_topic_texts()
    ensures
        text_migration().len() == 20,
        text_migration()[0] == 102,
        text_migration()[11] == 109,
        text_local_update().len() == 23,
        text_local_update()[0] == 102,
        text_local_update()[11] == 108,
        text_global_update().len() == 25,
        text_global_update()[0] == 102,
        text_global_update()[11] == 103,
        text_src().len() == 15,
        text_src()[0] == 102,
        text_src()[11] == 115,
        text_dst().len() == 15,
        text_dst()[0] == 102,
        text_dst()[11] == 100,
        text_node_state().len() == 11,
        text_node_state()[0] == 110,
        text_disconnect().len() == 10,
        text_disconnect()[0] == 100,
{
    reveal_strlit("federation/migration");
    reveal_strlit("federation/local_update");
    reveal_strlit("federation/global_update/");
    reveal_strlit("federation/src/");
    reveal_strlit("federation/dst/");
    reveal_strlit("node_state_");
    reveal_strlit("disconnect");
    vstd::string::is_ascii_spec_bytes("federation/migration");
    vstd::string::is_ascii_spec_bytes("federation/local_update");
    vstd::string::is_ascii_spec_bytes("federation/global_update/");
    vstd::string::is_ascii_spec_bytes("federation/src/");
    vstd::string::is_ascii_spec_bytes("federation/dst/");
    vstd::string::is_ascii_spec_bytes("node_state_");
    vstd::string::is_ascii_spec_bytes("disconnect");
}

/// A text that starts with `prefix` has the bytes of `prefix` at its start.
proof fn lemma_prefix_byte(s: Seq<u8>, prefix: Seq<u8>, i: int)
    requires
        starts_with(s, prefix),
        0 <= i < prefix.len(),
    ensures
        s[i] == prefix[i],
{
    assert(s.take(prefix.len() as int)[i] == s[i]);
}

/// A prefix and an index behind it: the text starts with the prefix, and
/// the index is read back from behind it.
proof fn lemma_indexed(prefix: Seq<u8>, i: usize)
    ensures
        starts_with(prefix + decimal_digits(i as nat), prefix),
        index_behind(prefix + decimal_digits(i as nat), prefix) == Some(i as nat),
{
    let s = prefix + decimal_digits(i as nat);
    assert(s.take(prefix.len() as int) =~= prefix);
    assert(s.skip(prefix.len() as int) =~= decimal_digits(i as nat));
    lemma_unsigned_roundtrip(i as nat, usize::MAX as nat);
}

/// The name of a topic names that topic.
pub proof fn lemma_topic_roundtrip(t: Topic)
    ensures
        parse_topic(topic_text(t)) == Some(t),
{
    lemma_topic_texts();
    let s = topic_text(t);
    match t {
        Topic::Migration => {},
        Topic::LocalUpdate => {},
        Topic::GlobalUpdate(i) => {
            lemma_indexed(text_global_update(), i);
            lemma_decimal_roundtrip(i as nat);
            assert(s[11] == text_global_update()[11]);
        },
        Topic::Src(i) => {
            lemma_indexed(text_src(), i);
            lemma_decimal_roundtrip(i as nat);
            assert(s[11] == text_src()[11]);
            if starts_with(s, text_global_update()) {
                lemma_prefix_byte(s, text_global_update(), 11);
            }
        },
        Topic::Dst(i) => {
            lemma_indexed(text_dst(), i);
            lemma_decimal_roundtrip(i as nat);
            assert(s[11] == text_dst()[11]);
            if starts_with(s, text_global_update()) {
                lemma_prefix_byte(s, text_global_update(), 11);
            }
            if starts_with(s, text_src()) {
                lemma_prefix_byte(s, text_src(), 11);
            }
        },
        Topic::NodeState(i) => {
            lemma_indexed(text_node_state(), i);
            lemma_decimal_roundtrip(i as nat);
            assert(s[0] == text_node_state()[0]);
            if starts_with(s, text_global_update()) {
                lemma_prefix_byte(s, text_global_update(), 0);
            }
            if starts_with(s, text_src()) {
                lemma_prefix_byte(s, text_src(), 0);
            }
            if starts_with(s, text_dst()) {
                lemma_prefix_byte(s, text_dst(), 0);
            }
        },
        Topic::Disconnect => {
            if starts_with(s, text_global_update()) {
                lemma_prefix_byte(s, text_global_update(), 0);
            }
            if starts_with(s, text_src()) {
                lemma_prefix_byte(s, text_src(), 0);
            }
            if starts_with(s, text_dst()) {
                lemma_prefix_byte(s, text_dst(), 0);
            }
            if starts_with(s, text_node_state()) {
                lemma_prefix_byte(s, text_node_state(), 0);
            }
        },
    }
}

} // verus!
