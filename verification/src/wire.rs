//! The texts in which positions, requests and solver updates travel between
//! nodes, and the reading of such texts.
//!
//! | value            | text                                                  |
//! |------------------|-------------------------------------------------------|
//! | `Coord`          | `(x,y)`                                               |
//! | `NodeState`      | `[(x,y);speedup]`                                     |
//! | `Request`        | `[index;exec;dct;mig_up_to;memkb;(x,y);thr;region]`   |
//! | `MessageRequest` | `src#` and the text of the request                    |
//! | `MessageLocal`   | `src#value`                                           |
//! | `GlobalUpdate`   | `update-value` or `dest-node`                         |
//!
//! Reading is strict: a text that is not of the form of its row is refused.

use crate::ascii::{
    CLOSE_BRACKET, CLOSE_PAREN, COMMA, HASH, LOWER_A, LOWER_D, LOWER_E, LOWER_P, LOWER_S, LOWER_T,
    LOWER_U, MINUS, OPEN_BRACKET, OPEN_PAREN, SEMICOLON,
};
use crate::scalar::{is_literal_byte, is_real_literal, lemma_literal_bytes, Scalar};
use crate::state::{
    Coord, CoordView, MessageRequest, MessageRequestView, NodeState, NodeStateView, Request,
    RequestView,
};
use crate::text::{
    decimal_digits, has_prefix, holds, lemma_decimal_roundtrip, lemma_split_join,
    lemma_split_plain, lemma_unsigned_roundtrip, middle, parse_unsigned, read_unsigned, split,
    split_all, starts_with, tail, texts, write_bytes, write_unsigned,
};
use vstd::prelude::*;

verus! {

/// Why a text was not read.
#[derive(Clone, Copy, Debug, PartialEq, Eq, Structural)]
pub enum ParseError {
    /// A field is not an unsigned number, or one too large for its place.
    Unsigned,
    /// A field is not the literal of a real number.
    Real,
    /// The text lacks its brackets, or has more or fewer fields than it
    /// should.
    Layout,
    /// The text starts with no known keyword.
    Keyword,
}

/// `a`, the separator `d`, and `b`.
pub open spec fn joined(a: Seq<u8>, d: u8, b: Seq<u8>) -> Seq<u8> {
    a + seq![d] + b
}

/// `s` between the brackets `open` and `close`.
pub open spec fn enclosed(open: u8, s: Seq<u8>, close: u8) -> Seq<u8> {
    seq![open] + s + seq![close]
}

/// What stands in `s` between `open` at its start and `close` at its end.
pub open spec fn inside(s: Seq<u8>, open: u8, close: u8) -> Option<Seq<u8>> {
    if s.len() >= 2 && s[0] == open && s.last() == close {
        Some(s.subrange(1, s.len() - 1))
    } else {
        None
    }
}

pub open spec fn coord_text(c: CoordView) -> Seq<u8> {
    enclosed(OPEN_PAREN, joined(c.x, COMMA, c.y), CLOSE_PAREN)
}

/// The position that `s` denotes: two numbers with a comma between them,
/// in parentheses.
pub open spec fn parse_coord(s: Seq<u8>) -> Result<CoordView, ParseError> {
    match inside(s, OPEN_PAREN, CLOSE_PAREN) {
        None => Err(ParseError::Layout),
        Some(body) => {
            let fields = split(body, COMMA);
            if fields.len() != 2 {
                Err(ParseError::Layout)
            } else if !is_real_literal(fields[0]) || !is_real_literal(fields[1]) {
                Err(ParseError::Real)
            } else {
                Ok(CoordView { x: fields[0], y: fields[1] })
            }
        },
    }
}

pub open spec fn node_state_text(n: NodeStateView) -> Seq<u8> {
    enclosed(
        OPEN_BRACKET,
        joined(coord_text(n.node_coords), SEMICOLON, n.speedup_factor),
        CLOSE_BRACKET,
    )
}

/// The node state that `s` denotes: a position and a speedup with a
/// semicolon between them, in brackets.
pub open spec fn parse_node_state(s: Seq<u8>) -> Result<NodeStateView, ParseError> {
    match inside(s, OPEN_BRACKET, CLOSE_BRACKET) {
        None => Err(ParseError::Layout),
        Some(body) => {
            let fields = split(body, SEMICOLON);
            if fields.len() != 2 {
                Err(ParseError::Layout)
            } else {
                match parse_coord(fields[0]) {
                    Err(e) => Err(e),
                    Ok(node_coords) => if is_real_literal(fields[1]) {
                        Ok(NodeStateView { node_coords, speedup_factor: fields[1] })
                    } else {
                        Err(ParseError::Real)
                    },
                }
            }
        },
    }
}

/// The eight fields of a request, separated by semicolons.
pub open spec fn request_body(r: RequestView) -> Seq<u8> {
    joined(
        joined(
            joined(
                joined(
                    joined(
                        joined(
                            joined(
                                decimal_digits(r.index as nat),
                                SEMICOLON,
                                decimal_digits(r.execution_time as nat),
                            ),
                            SEMICOLON,
                            decimal_digits(r.desired_completion_time as nat),
                        ),
                        SEMICOLON,
                        decimal_digits(r.migratable_up_to as nat),
                    ),
                    SEMICOLON,
                    decimal_digits(r.required_memory as nat),
                ),
                SEMICOLON,
                coord_text(r.desired_coord),
            ),
            SEMICOLON,
            r.threshold,
        ),
        SEMICOLON,
        decimal_digits(r.current_region as nat),
    )
}

pub open spec fn request_text(r: RequestView) -> Seq<u8> {
    enclosed(OPEN_BRACKET, request_body(r), CLOSE_BRACKET)
}

/// The request that the eight fields `f` denote, arrived at `now` and not
/// up for migration; the error of the first field that cannot be read.
pub open spec fn request_of_fields(f: Seq<Seq<u8>>, now: u64) -> Result<RequestView, ParseError> {
    let index = parse_unsigned(f[0], usize::MAX as nat);
    let execution_time = parse_unsigned(f[1], u32::MAX as nat);
    let desired_completion_time = parse_unsigned(f[2], u32::MAX as nat);
    let migratable_up_to = parse_unsigned(f[3], usize::MAX as nat);
    let required_memory = parse_unsigned(f[4], u32::MAX as nat);
    let desired_coord = parse_coord(f[5]);
    let current_region = parse_unsigned(f[7], usize::MAX as nat);
    if index is None || execution_time is None || desired_completion_time is None
        || migratable_up_to is None || required_memory is None {
        Err(ParseError::Unsigned)
    } else if desired_coord is Err {
        Err(desired_coord->Err_0)
    } else if !is_real_literal(f[6]) {
        Err(ParseError::Real)
    } else if current_region is None {
        Err(ParseError::Unsigned)
    } else {
        Ok(
            RequestView {
                index: index.unwrap() as usize,
                execution_time: execution_time.unwrap() as u32,
                desired_completion_time: desired_completion_time.unwrap() as u32,
                migratable_up_to: migratable_up_to.unwrap() as usize,
                required_memory: required_memory.unwrap() as u32,
                desired_coord: desired_coord.unwrap(),
                threshold: f[6],
                should_migrate: false,
                current_region: current_region.unwrap() as usize,
                arrival_time: now,
            },
        )
    }
}

/// The request that `s` denotes, arrived at `now`: that of its eight
/// fields, which stand between semicolons, in brackets.
pub open spec fn parse_request(s: Seq<u8>, now: u64) -> Result<RequestView, ParseError> {
    match inside(s, OPEN_BRACKET, CLOSE_BRACKET) {
        None => Err(ParseError::Layout),
        Some(body) => {
            let fields = split(body, SEMICOLON);
            if fields.len() != 8 {
                Err(ParseError::Layout)
            } else {
                request_of_fields(fields, now)
            }
        },
    }
}

pub open spec fn message_request_text(m: MessageRequestView) -> Seq<u8> {
    joined(decimal_digits(m.src as nat), HASH, request_text(m.request))
}

/// The message that `s` denotes: the sender, a hash, and the request,
/// arrived at `now`.
pub open spec fn parse_message_request(s: Seq<u8>, now: u64) -> Result<
    MessageRequestView,
    ParseError,
> {
    let fields = split(s, HASH);
    if fields.len() != 2 {
        Err(ParseError::Layout)
    } else {
        match parse_unsigned(fields[0], usize::MAX as nat) {
            None => Err(ParseError::Unsigned),
            Some(src) => match parse_request(fields[1], now) {
                Err(e) => Err(e),
                Ok(request) => Ok(MessageRequestView { src: src as usize, request }),
            },
        }
    }
}

/// A node's contribution to a round of the placement: the sum of its local
/// and its dual variable.
#[derive(Debug)]
pub struct MessageLocal {
    pub src: usize,
    pub local_sum: Scalar,
}

/// Mathematical value of a `MessageLocal`.
pub struct MessageLocalView {
    pub src: usize,
    pub local_sum: Seq<u8>,
}

impl View for MessageLocal {
    type V = MessageLocalView;

    open spec fn view(&self) -> MessageLocalView {
        MessageLocalView { src: self.src, local_sum: self.local_sum@ }
    }
}

pub open spec fn message_local_text(m: MessageLocalView) -> Seq<u8> {
    joined(decimal_digits(m.src as nat), HASH, m.local_sum)
}

/// The message that `s` denotes: the sender, a hash, and the sum.
pub open spec fn parse_message_local(s: Seq<u8>) -> Result<MessageLocalView, ParseError> {
    let fields = split(s, HASH);
    if fields.len() != 2 {
        Err(ParseError::Layout)
    } else {
        match parse_unsigned(fields[0], usize::MAX as nat) {
            None => Err(ParseError::Unsigned),
            Some(src) => if is_real_literal(fields[1]) {
                Ok(MessageLocalView { src: src as usize, local_sum: fields[1] })
            } else {
                Err(ParseError::Real)
            },
        }
    }
}

/// What the controller of a centralised federation tells a node.
#[derive(Debug)]
pub enum GlobalUpdate {
    /// The node's new global variable; the round goes on.
    Update(Scalar),
    /// The node that the request goes to; the round is over.
    Dest(usize),
}

/// Mathematical value of a `GlobalUpdate`.
pub enum GlobalUpdateView {
    Update(Seq<u8>),
    Dest(usize),
}

impl View for GlobalUpdate {
    type V = GlobalUpdateView;

    open spec fn view(&self) -> GlobalUpdateView {
        match self {
            GlobalUpdate::Update(z) => GlobalUpdateView::Update(z@),
            GlobalUpdate::Dest(d) => GlobalUpdateView::Dest(*d),
        }
    }
}

/// `update-`
pub open spec fn keyword_update() -> Seq<u8> {
    seq![LOWER_U, LOWER_P, LOWER_D, LOWER_A, LOWER_T, LOWER_E, MINUS]
}

/// `dest-`
pub open spec fn keyword_dest() -> Seq<u8> {
    seq![LOWER_D, LOWER_E, LOWER_S, LOWER_T, MINUS]
}

pub open spec fn global_update_text(u: GlobalUpdateView) -> Seq<u8> {
    match u {
        GlobalUpdateView::Update(z) => keyword_update() + z,
        GlobalUpdateView::Dest(d) => keyword_dest() + decimal_digits(d as nat),
    }
}

/// The update that `s` denotes: behind `update-` a real number, behind
/// `dest-` the index of a node.
pub open spec fn parse_global_update(s: Seq<u8>) -> Result<GlobalUpdateView, ParseError> {
    if starts_with(s, keyword_update()) {
        let rest = s.skip(keyword_update().len() as int);
        if is_real_literal(rest) {
            Ok(GlobalUpdateView::Update(rest))
        } else {
            Err(ParseError::Real)
        }
    } else if starts_with(s, keyword_dest()) {
        match parse_unsigned(s.skip(keyword_dest().len() as int), usize::MAX as nat) {
            Some(d) => Ok(GlobalUpdateView::Dest(d as usize)),
            None => Err(ParseError::Unsigned),
        }
    } else {
        Err(ParseError::Keyword)
    }
}

/// Appends the text of `c` to `out`.
fn write_coord(c: &Coord, out: &mut Vec<u8>)
    ensures
        final(out)@ == old(out)@ + coord_text(c@),
{
    out.push(OPEN_PAREN);
    write_bytes(c.x.as_bytes(), out);
    out.push(COMMA);
    write_bytes(c.y.as_bytes(), out);
    out.push(CLOSE_PAREN);
    assert(final(out)@ =~= old(out)@ + coord_text(c@));
}

/// Appends the text of `r` to `out`.
fn write_request(r: &Request, out: &mut Vec<u8>)
    ensures
        final(out)@ == old(out)@ + request_text(r@),
{
    out.push(OPEN_BRACKET);
    write_unsigned(r.index as u64, out);
    out.push(SEMICOLON);
    write_unsigned(r.execution_time as u64, out);
    out.push(SEMICOLON);
    write_unsigned(r.desired_completion_time as u64, out);
    out.push(SEMICOLON);
    write_unsigned(r.migratable_up_to as u64, out);
    out.push(SEMICOLON);
    write_unsigned(r.required_memory as u64, out);
    out.push(SEMICOLON);
    write_coord(&r.desired_coord, out);
    out.push(SEMICOLON);
    write_bytes(r.threshold.as_bytes(), out);
    out.push(SEMICOLON);
    write_unsigned(r.current_region as u64, out);
    out.push(CLOSE_BRACKET);
    assert(final(out)@ =~= old(out)@ + request_text(r@));
}

/// The fields that stand in `text` between `open` and `close`, `d` between
/// them, if there are `count` of them.
fn read_fields(text: &[u8], open: u8, close: u8, d: u8, count: usize) -> (r: Result<
    Vec<Vec<u8>>,
    ParseError,
>)
    ensures
        match r {
            Ok(fields) => inside(text@, open, close) is Some && texts(fields@) == split(
                inside(text@, open, close).unwrap(),
                d,
            ) && fields@.len() == count,
            Err(e) => e == ParseError::Layout && (inside(text@, open, close) is None || split(
                inside(text@, open, close).unwrap(),
                d,
            ).len() != count),
        },
{
    let n: usize = text.len();
    if n < 2 || text[0] != open || text[n - 1] != close {
        return Err(ParseError::Layout);
    }
    let body: Vec<u8> = middle(text, 1, n - 1);
    let fields: Vec<Vec<u8>> = split_all(body.as_slice(), d);
    assert(texts(fields@).len() == fields@.len());
    if fields.len() != count {
        return Err(ParseError::Layout);
    }
    Ok(fields)
}

/// The two fields of `text`, which stand before and behind a hash.
fn read_pair(text: &[u8]) -> (r: Result<Vec<Vec<u8>>, ParseError>)
    ensures
        match r {
            Ok(fields) => texts(fields@) == split(text@, HASH) && fields@.len() == 2,
            Err(e) => e == ParseError::Layout && split(text@, HASH).len() != 2,
        },
{
    let fields: Vec<Vec<u8>> = split_all(text, HASH);
    assert(texts(fields@).len() == fields@.len());
    if fields.len() != 2 {
        return Err(ParseError::Layout);
    }
    Ok(fields)
}

/// The scalar that the field `field` denotes.
fn read_real(field: &Vec<u8>) -> (r: Result<Scalar, ParseError>)
    ensures
        match r {
            Ok(scalar) => is_real_literal(field@) && scalar@ == field@,
            Err(e) => !is_real_literal(field@) && e == ParseError::Real,
        },
{
    match Scalar::parse(field.as_slice()) {
        Some(scalar) => Ok(scalar),
        None => Err(ParseError::Real),
    }
}

/// The index or size that the field `field` denotes.
fn read_usize(field: &Vec<u8>) -> (r: Result<usize, ParseError>)
    ensures
        match r {
            Ok(v) => parse_unsigned(field@, usize::MAX as nat) == Some(v as nat),
            Err(e) => parse_unsigned(field@, usize::MAX as nat) is None && e
                == ParseError::Unsigned,
        },
{
    match read_unsigned(field.as_slice(), usize::MAX as u64) {
        Some(v) => Ok(v as usize),
        None => Err(ParseError::Unsigned),
    }
}

/// The 32-bit number that the field `field` denotes.
fn read_u32(field: &Vec<u8>) -> (r: Result<u32, ParseError>)
    ensures
        match r {
            Ok(v) => parse_unsigned(field@, u32::MAX as nat) == Some(v as nat),
            Err(e) => parse_unsigned(field@, u32::MAX as nat) is None && e == ParseError::Unsigned,
        },
{
    match read_unsigned(field.as_slice(), u32::MAX as u64) {
        Some(v) => Ok(v as u32),
        None => Err(ParseError::Unsigned),
    }
}

impl Coord {
    /// The text of the position.
    pub fn to_bytes(&self) -> (text: Vec<u8>)
        ensures
            text@ == coord_text(self@),
    {
        let mut text: Vec<u8> = Vec::new();
        write_coord(self, &mut text);
        assert(text@ =~= coord_text(self@));
        text
    }

    /// Reads a position.
    pub fn from_bytes(text: &[u8]) -> (r: Result<Coord, ParseError>)
        ensures
            match r {
                Ok(coord) => parse_coord(text@) == Ok::<CoordView, ParseError>(coord@)
                    && coord@.wf(),
                Err(e) => parse_coord(text@) == Err::<CoordView, ParseError>(e),
            },
    {
        let fields: Vec<Vec<u8>> = match read_fields(text, OPEN_PAREN, CLOSE_PAREN, COMMA, 2) {
            Ok(fields) => fields,
            Err(e) => {
                return Err(e);
            },
        };
        let ghost f = texts(fields@);
        assert(f[0] == fields@[0]@ && f[1] == fields@[1]@);
        let x: Scalar = match read_real(&fields[0]) {
            Ok(x) => x,
            Err(e) => {
                return Err(e);
            },
        };
        let y: Scalar = match read_real(&fields[1]) {
            Ok(y) => y,
            Err(e) => {
                return Err(e);
            },
        };
        Ok(Coord { x, y })
    }
}

impl NodeState {
    /// The text of the node state.
    pub fn to_bytes(&self) -> (text: Vec<u8>)
        ensures
            text@ == node_state_text(self@),
    {
        let mut text: Vec<u8> = Vec::new();
        text.push(OPEN_BRACKET);
        write_coord(&self.node_coords, &mut text);
        text.push(SEMICOLON);
        write_bytes(self.speedup_factor.as_bytes(), &mut text);
        text.push(CLOSE_BRACKET);
        assert(text@ =~= node_state_text(self@));
        text
    }

    /// Reads a node state.
    pub fn from_bytes(text: &[u8]) -> (r: Result<NodeState, ParseError>)
        ensures
            match r {
                Ok(state) => parse_node_state(text@) == Ok::<NodeStateView, ParseError>(state@)
                    && state@.wf(),
                Err(e) => parse_node_state(text@) == Err::<NodeStateView, ParseError>(e),
            },
    {
        let fields: Vec<Vec<u8>> = match read_fields(
            text,
            OPEN_BRACKET,
            CLOSE_BRACKET,
            SEMICOLON,
            2,
        ) {
            Ok(fields) => fields,
            Err(e) => {
                return Err(e);
            },
        };
        let ghost f = texts(fields@);
        assert(f[0] == fields@[0]@ && f[1] == fields@[1]@);
        let node_coords: Coord = match Coord::from_bytes(fields[0].as_slice()) {
            Ok(c) => c,
            Err(e) => {
                return Err(e);
            },
        };
        let speedup_factor: Scalar = match read_real(&fields[1]) {
            Ok(s) => s,
            Err(e) => {
                return Err(e);
            },
        };
        Ok(NodeState { node_coords, speedup_factor })
    }
}

impl Request {
    /// The text of the request. It neither says when the request arrived
    /// nor whether it is up for migration.
    pub fn to_bytes(&self) -> (text: Vec<u8>)
        ensures
            text@ == request_text(self@),
    {
        let mut text: Vec<u8> = Vec::new();
        write_request(self, &mut text);
        assert(text@ =~= request_text(self@));
        text
    }

    /// Reads a request that arrives at `now`.
    pub fn from_bytes(text: &[u8], now: u64) -> (r: Result<Request, ParseError>)
        ensures
            match r {
                Ok(request) => parse_request(text@, now) == Ok::<RequestView, ParseError>(
                    request@,
                ) && request@.wf(),
                Err(e) => parse_request(text@, now) == Err::<RequestView, ParseError>(e),
            },
    {
        let fields: Vec<Vec<u8>> = match read_fields(
            text,
            OPEN_BRACKET,
            CLOSE_BRACKET,
            SEMICOLON,
            8,
        ) {
            Ok(fields) => fields,
            Err(e) => {
                return Err(e);
            },
        };
        let ghost f = texts(fields@);
        assert(f[0] == fields@[0]@ && f[1] == fields@[1]@ && f[2] == fields@[2]@ && f[3]
            == fields@[3]@ && f[4] == fields@[4]@ && f[5] == fields@[5]@ && f[6] == fields@[6]@
            && f[7] == fields@[7]@);
        let index: Result<usize, ParseError> = read_usize(&fields[0]);
        let execution_time: Result<u32, ParseError> = read_u32(&fields[1]);
        let desired_completion_time: Result<u32, ParseError> = read_u32(&fields[2]);
        let migratable_up_to: Result<usize, ParseError> = read_usize(&fields[3]);
        let required_memory: Result<u32, ParseError> = read_u32(&fields[4]);
        match (index, execution_time, desired_completion_time, migratable_up_to, required_memory) {
            (
                Ok(index),
                Ok(execution_time),
                Ok(desired_completion_time),
                Ok(migratable_up_to),
                Ok(required_memory),
            ) => {
                let desired_coord: Coord = match Coord::from_bytes(fields[5].as_slice()) {
                    Ok(c) => c,
                    Err(e) => {
                        return Err(e);
                    },
                };
                let threshold: Scalar = match read_real(&fields[6]) {
                    Ok(t) => t,
                    Err(e) => {
                        return Err(e);
                    },
                };
                let current_region: usize = match read_usize(&fields[7]) {
                    Ok(region) => region,
                    Err(e) => {
                        return Err(e);
                    },
                };
                Ok(
                    Request {
                        index,
                        execution_time,
                        desired_completion_time,
                        migratable_up_to,
                        required_memory,
                        desired_coord,
                        threshold,
                        should_migrate: false,
                        current_region,
                        arrival_time: now,
                    },
                )
            },
            _ => Err(ParseError::Unsigned),
        }
    }
}

/// The notice by which the node `src` puts `request` up: the text of the
/// message that holds the two.
pub fn notice_text(src: usize, request: &Request) -> (text: Vec<u8>)
    ensures
        text@ == message_request_text(MessageRequestView { src, request: request@ }),
{
    let mut text: Vec<u8> = Vec::new();
    write_unsigned(src as u64, &mut text);
    text.push(HASH);
    write_request(request, &mut text);
    assert(text@ =~= message_request_text(MessageRequestView { src, request: request@ }));
    text
}

impl MessageRequest {
    /// The text of the message.
    pub fn to_bytes(&self) -> (text: Vec<u8>)
        ensures
            text@ == message_request_text(self@),
    {
        let mut text: Vec<u8> = Vec::new();
        write_unsigned(self.src as u64, &mut text);
        text.push(HASH);
        write_request(&self.request, &mut text);
        assert(text@ =~= message_request_text(self@));
        text
    }

    /// Reads a message whose request arrives at `now`.
    pub fn from_bytes(text: &[u8], now: u64) -> (r: Result<MessageRequest, ParseError>)
        ensures
            match r {
                Ok(message) => parse_message_request(text@, now) == Ok::<
                    MessageRequestView,
                    ParseError,
                >(message@) && message@.request.wf(),
                Err(e) => parse_message_request(text@, now) == Err::<
                    MessageRequestView,
                    ParseError,
                >(e),
            },
    {
        let fields: Vec<Vec<u8>> = match read_pair(text) {
            Ok(fields) => fields,
            Err(e) => {
                return Err(e);
            },
        };
        let ghost f = texts(fields@);
        assert(f[0] == fields@[0]@ && f[1] == fields@[1]@);
        let src: usize = match read_usize(&fields[0]) {
            Ok(src) => src,
            Err(e) => {
                return Err(e);
            },
        };
        let request: Request = match Request::from_bytes(fields[1].as_slice(), now) {
            Ok(request) => request,
            Err(e) => {
                return Err(e);
            },
        };
        Ok(MessageRequest { src, request })
    }
}

impl MessageLocal {
    /// The text of the message.
    pub fn to_bytes(&self) -> (text: Vec<u8>)
        ensures
            text@ == message_local_text(self@),
    {
        let mut text: Vec<u8> = Vec::new();
        write_unsigned(self.src as u64, &mut text);
        text.push(HASH);
        write_bytes(self.local_sum.as_bytes(), &mut text);
        assert(text@ =~= message_local_text(self@));
        text
    }

    /// Reads a message.
    pub fn from_bytes(text: &[u8]) -> (r: Result<MessageLocal, ParseError>)
        ensures
            match r {
                Ok(message) => parse_message_local(text@) == Ok::<MessageLocalView, ParseError>(
                    message@,
                ) && message.local_sum.wf(),
                Err(e) => parse_message_local(text@) == Err::<MessageLocalView, ParseError>(e),
            },
    {
        let fields: Vec<Vec<u8>> = match read_pair(text) {
            Ok(fields) => fields,
            Err(e) => {
                return Err(e);
            },
        };
        let ghost f = texts(fields@);
        assert(f[0] == fields@[0]@ && f[1] == fields@[1]@);
        let src: usize = match read_usize(&fields[0]) {
            Ok(src) => src,
            Err(e) => {
                return Err(e);
            },
        };
        let local_sum: Scalar = match read_real(&fields[1]) {
            Ok(sum) => sum,
            Err(e) => {
                return Err(e);
            },
        };
        Ok(MessageLocal { src, local_sum })
    }
}

impl GlobalUpdate {
    /// The text of the update.
    pub fn to_bytes(&self) -> (text: Vec<u8>)
        ensures
            text@ == global_update_text(self@),
    {
        let mut text: Vec<u8> = Vec::new();
        match self {
            GlobalUpdate::Update(z) => {
                let keyword: [u8; 7] = [LOWER_U, LOWER_P, LOWER_D, LOWER_A, LOWER_T, LOWER_E, MINUS];
                assert(keyword@ =~= keyword_update());
                write_bytes(keyword.as_slice(), &mut text);
                write_bytes(z.as_bytes(), &mut text);
                assert(text@ =~= global_update_text(self@));
            },
            GlobalUpdate::Dest(d) => {
                let keyword: [u8; 5] = [LOWER_D, LOWER_E, LOWER_S, LOWER_T, MINUS];
                assert(keyword@ =~= keyword_dest());
                write_bytes(keyword.as_slice(), &mut text);
                write_unsigned(*d as u64, &mut text);
                assert(text@ =~= global_update_text(self@));
            },
        }
        text
    }

    /// Reads an update.
    pub fn from_bytes(text: &[u8]) -> (r: Result<GlobalUpdate, ParseError>)
        ensures
            match r {
                Ok(update) => parse_global_update(text@) == Ok::<GlobalUpdateView, ParseError>(
                    update@,
                ) && (update matches GlobalUpdate::Update(z) ==> z.wf()),
                Err(e) => parse_global_update(text@) == Err::<GlobalUpdateView, ParseError>(e),
            },
    {
        let update: [u8; 7] = [LOWER_U, LOWER_P, LOWER_D, LOWER_A, LOWER_T, LOWER_E, MINUS];
        let dest: [u8; 5] = [LOWER_D, LOWER_E, LOWER_S, LOWER_T, MINUS];
        assert(update@ =~= keyword_update());
        assert(dest@ =~= keyword_dest());
        if has_prefix(text, update.as_slice()) {
            let rest: Vec<u8> = tail(text, 7);
            match read_real(&rest) {
                Ok(z) => Ok(GlobalUpdate::Update(z)),
                Err(e) => Err(e),
            }
        } else if has_prefix(text, dest.as_slice()) {
            let rest: Vec<u8> = tail(text, 5);
            match read_usize(&rest) {
                Ok(d) => Ok(GlobalUpdate::Dest(d)),
                Err(e) => Err(e),
            }
        } else {
            Err(ParseError::Keyword)
        }
    }
}

/// Whether `d` is one of the bytes that structure the texts: a bracket, a
/// parenthesis, the semicolon, the comma or the hash.
pub open spec fn is_structural(d: u8) -> bool {
    ||| d == OPEN_BRACKET
    ||| d == CLOSE_BRACKET
    ||| d == OPEN_PAREN
    ||| d == CLOSE_PAREN
    ||| d == SEMICOLON
    ||| d == COMMA
    ||| d == HASH
}

proof fn lemma_holds_concat(x: Seq<u8>, y: Seq<u8>, d: u8)
    ensures
        holds(x + y, d) <==> holds(x, d) || holds(y, d),
{
    if holds(x + y, d) {
        let i = choose|i: int| 0 <= i < (x + y).len() && (x + y)[i] == d;
        if i < x.len() {
            assert(x[i] == d);
        } else {
            assert(y[i - x.len()] == d);
        }
    }
    if holds(x, d) {
        let i = choose|i: int| 0 <= i < x.len() && x[i] == d;
        assert((x + y)[i] == d);
    }
    if holds(y, d) {
        let i = choose|i: int| 0 <= i < y.len() && y[i] == d;
        assert((x + y)[x.len() + i] == d);
    }
}

proof fn lemma_joined_plain(a: Seq<u8>, d: u8, b: Seq<u8>, e: u8)
    requires
        !holds(a, e),
        !holds(b, e),
        d != e,
    ensures
        !holds(joined(a, d, b), e),
{
    lemma_holds_concat(a, seq![d], e);
    lemma_holds_concat(a + seq![d], b, e);
    if holds(seq![d], e) {
        let i = choose|i: int| 0 <= i < seq![d].len() && seq![d][i] == e;
    }
}

proof fn lemma_enclosed_plain(open: u8, s: Seq<u8>, close: u8, e: u8)
    requires
        !holds(s, e),
        open != e,
        close != e,
    ensures
        !holds(enclosed(open, s, close), e),
{
    lemma_holds_concat(seq![open], s, e);
    lemma_holds_concat(seq![open] + s, seq![close], e);
    if holds(seq![open], e) {
        let i = choose|i: int| 0 <= i < seq![open].len() && seq![open][i] == e;
    }
    if holds(seq![close], e) {
        let i = choose|i: int| 0 <= i < seq![close].len() && seq![close][i] == e;
    }
}

/// What stands between brackets is what was put there.
proof fn lemma_inside_enclosed(open: u8, s: Seq<u8>, close: u8)
    ensures
        inside(enclosed(open, s, close), open, close) == Some(s),
{
    let text = enclosed(open, s, close);
    assert(text.subrange(1, text.len() - 1) =~= s);
}

/// Two fields around a separator that neither holds are the two pieces of
/// their text.
proof fn lemma_two_fields(a: Seq<u8>, d: u8, b: Seq<u8>)
    requires
        !holds(a, d),
        !holds(b, d),
    ensures
        split(joined(a, d, b), d) == seq![a, b],
{
    lemma_split_plain(a, d);
    lemma_split_join(a, d, b);
    assert(seq![a].push(b) =~= seq![a, b]);
}

/// The literal of a real number holds no structural byte.
pub proof fn lemma_literal_plain(s: Seq<u8>, d: u8)
    requires
        is_real_literal(s),
        is_structural(d),
    ensures
        !holds(s, d),
        s.len() > 0,
{
    lemma_literal_bytes(s);
    if holds(s, d) {
        let i = choose|i: int| 0 <= i < s.len() && s[i] == d;
        assert(is_literal_byte(s[i]));
    }
}

/// The digits of a number hold no structural byte.
pub proof fn lemma_digits_plain(n: nat, d: u8)
    requires
        is_structural(d),
    ensures
        !holds(decimal_digits(n), d),
        decimal_digits(n).len() > 0,
{
    lemma_decimal_roundtrip(n);
    if holds(decimal_digits(n), d) {
        let i = choose|i: int| 0 <= i < decimal_digits(n).len() && decimal_digits(n)[i] == d;
        assert(crate::scalar::is_digit(decimal_digits(n)[i]));
    }
}

/// The text of a position holds no bracket, semicolon or hash.
proof fn lemma_coord_plain(c: CoordView, d: u8)
    requires
        c.wf(),
        d == OPEN_BRACKET || d == CLOSE_BRACKET || d == SEMICOLON || d == HASH,
    ensures
        !holds(coord_text(c), d),
        coord_text(c).len() > 0,
{
    lemma_literal_plain(c.x, d);
    lemma_literal_plain(c.y, d);
    lemma_joined_plain(c.x, COMMA, c.y, d);
    lemma_enclosed_plain(OPEN_PAREN, joined(c.x, COMMA, c.y), CLOSE_PAREN, d);
}

/// Reading the text of a position gives the position back.
pub proof fn lemma_coord_roundtrip(c: CoordView)
    requires
        c.wf(),
    ensures
        parse_coord(coord_text(c)) == Ok::<CoordView, ParseError>(c),
{
    lemma_literal_plain(c.x, COMMA);
    lemma_literal_plain(c.y, COMMA);
    lemma_inside_enclosed(OPEN_PAREN, joined(c.x, COMMA, c.y), CLOSE_PAREN);
    lemma_two_fields(c.x, COMMA, c.y);
}

/// Reading the text of a node state gives the node state back.
pub proof fn lemma_node_state_roundtrip(n: NodeStateView)
    requires
        n.wf(),
    ensures
        parse_node_state(node_state_text(n)) == Ok::<NodeStateView, ParseError>(n),
{
    let position = coord_text(n.node_coords);
    lemma_coord_plain(n.node_coords, SEMICOLON);
    lemma_literal_plain(n.speedup_factor, SEMICOLON);
    lemma_inside_enclosed(
        OPEN_BRACKET,
        joined(position, SEMICOLON, n.speedup_factor),
        CLOSE_BRACKET,
    );
    lemma_two_fields(position, SEMICOLON, n.speedup_factor);
    lemma_coord_roundtrip(n.node_coords);
}

/// The fields of a request, as its text lists them.
pub open spec fn request_fields(r: RequestView) -> Seq<Seq<u8>> {
    seq![
        decimal_digits(r.index as nat),
        decimal_digits(r.execution_time as nat),
        decimal_digits(r.desired_completion_time as nat),
        decimal_digits(r.migratable_up_to as nat),
        decimal_digits(r.required_memory as nat),
        coord_text(r.desired_coord),
        r.threshold,
        decimal_digits(r.current_region as nat),
    ]
}

/// One more field behind a separator: the pieces are those of the head and
/// the field, and the text stays free of `e`.
proof fn lemma_next_field(head: Seq<u8>, fields: Seq<Seq<u8>>, field: Seq<u8>, e1: u8, e2: u8)
    requires
        split(head, SEMICOLON) == fields,
        !holds(field, SEMICOLON),
        !holds(head, e1),
        !holds(head, e2),
        !holds(field, e1),
        !holds(field, e2),
        e1 != SEMICOLON,
        e2 != SEMICOLON,
    ensures
        split(joined(head, SEMICOLON, field), SEMICOLON) == fields.push(field),
        !holds(joined(head, SEMICOLON, field), e1),
        !holds(joined(head, SEMICOLON, field), e2),
{
    lemma_split_join(head, SEMICOLON, field);
    lemma_joined_plain(head, SEMICOLON, field, e1);
    lemma_joined_plain(head, SEMICOLON, field, e2);
}

/// The text of a request between its brackets holds no bracket and no hash,
/// and its pieces between semicolons are the fields of the request.
proof fn lemma_request_body(r: RequestView, e: u8)
    requires
        r.wf(),
        e == CLOSE_BRACKET || e == HASH,
    ensures
        !holds(request_body(r), OPEN_BRACKET),
        !holds(request_body(r), e),
        split(request_body(r), SEMICOLON) == request_fields(r),
{
    let f = request_fields(r);
    let o = OPEN_BRACKET;
    lemma_digits_plain(r.index as nat, SEMICOLON);
    lemma_digits_plain(r.index as nat, o);
    lemma_digits_plain(r.index as nat, e);
    lemma_digits_plain(r.execution_time as nat, SEMICOLON);
    lemma_digits_plain(r.execution_time as nat, o);
    lemma_digits_plain(r.execution_time as nat, e);
    lemma_digits_plain(r.desired_completion_time as nat, SEMICOLON);
    lemma_digits_plain(r.desired_completion_time as nat, o);
    lemma_digits_plain(r.desired_completion_time as nat, e);
    lemma_digits_plain(r.migratable_up_to as nat, SEMICOLON);
    lemma_digits_plain(r.migratable_up_to as nat, o);
    lemma_digits_plain(r.migratable_up_to as nat, e);
    lemma_digits_plain(r.required_memory as nat, SEMICOLON);
    lemma_digits_plain(r.required_memory as nat, o);
    lemma_digits_plain(r.required_memory as nat, e);
    lemma_coord_plain(r.desired_coord, SEMICOLON);
    lemma_coord_plain(r.desired_coord, o);
    lemma_coord_plain(r.desired_coord, e);
    lemma_literal_plain(r.threshold, SEMICOLON);
    lemma_literal_plain(r.threshold, o);
    lemma_literal_plain(r.threshold, e);
    lemma_digits_plain(r.current_region as nat, SEMICOLON);
    lemma_digits_plain(r.current_region as nat, o);
    lemma_digits_plain(r.current_region as nat, e);
    let h0 = f[0];
    lemma_split_plain(h0, SEMICOLON);
    let h1 = joined(h0, SEMICOLON, f[1]);
    lemma_next_field(h0, seq![f[0]], f[1], o, e);
    let h2 = joined(h1, SEMICOLON, f[2]);
    lemma_next_field(h1, seq![f[0]].push(f[1]), f[2], o, e);
    let h3 = joined(h2, SEMICOLON, f[3]);
    lemma_next_field(h2, seq![f[0]].push(f[1]).push(f[2]), f[3], o, e);
    let h4 = joined(h3, SEMICOLON, f[4]);
    lemma_next_field(h3, seq![f[0]].push(f[1]).push(f[2]).push(f[3]), f[4], o, e);
    let h5 = joined(h4, SEMICOLON, f[5]);
    lemma_next_field(h4, seq![f[0]].push(f[1]).push(f[2]).push(f[3]).push(f[4]), f[5], o, e);
    let h6 = joined(h5, SEMICOLON, f[6]);
    lemma_next_field(
        h5,
        seq![f[0]].push(f[1]).push(f[2]).push(f[3]).push(f[4]).push(f[5]),
        f[6],
        o,
        e,
    );
    let h7 = joined(h6, SEMICOLON, f[7]);
    lemma_next_field(
        h6,
        seq![f[0]].push(f[1]).push(f[2]).push(f[3]).push(f[4]).push(f[5]).push(f[6]),
        f[7],
        o,
        e,
    );
    assert(h7 == request_body(r));
    assert(seq![f[0]].push(f[1]).push(f[2]).push(f[3]).push(f[4]).push(f[5]).push(f[6]).push(f[7])
        =~= f);
}

/// Reading the text of a request that is not up for migration, at the
/// instant at which the request arrived, gives the request back.
pub proof fn lemma_request_roundtrip(r: RequestView)
    requires
        r.wf(),
        !r.should_migrate,
    ensures
        parse_request(request_text(r), r.arrival_time) == Ok::<RequestView, ParseError>(r),
{
    lemma_request_body(r, CLOSE_BRACKET);
    lemma_inside_enclosed(OPEN_BRACKET, request_body(r), CLOSE_BRACKET);
    lemma_unsigned_roundtrip(r.index as nat, usize::MAX as nat);
    lemma_unsigned_roundtrip(r.execution_time as nat, u32::MAX as nat);
    lemma_unsigned_roundtrip(r.desired_completion_time as nat, u32::MAX as nat);
    lemma_unsigned_roundtrip(r.migratable_up_to as nat, usize::MAX as nat);
    lemma_unsigned_roundtrip(r.required_memory as nat, u32::MAX as nat);
    lemma_coord_roundtrip(r.desired_coord);
    lemma_unsigned_roundtrip(r.current_region as nat, usize::MAX as nat);
}

/// Reading the text of a message, at the instant at which its request
/// arrived, gives the message back, unless the request is up for migration.
pub proof fn lemma_message_request_roundtrip(m: MessageRequestView)
    requires
        m.request.wf(),
        !m.request.should_migrate,
    ensures
        parse_message_request(message_request_text(m), m.request.arrival_time) == Ok::<
            MessageRequestView,
            ParseError,
        >(m),
{
    let sender = decimal_digits(m.src as nat);
    let text = request_text(m.request);
    lemma_digits_plain(m.src as nat, HASH);
    lemma_request_body(m.request, HASH);
    lemma_enclosed_plain(OPEN_BRACKET, request_body(m.request), CLOSE_BRACKET, HASH);
    lemma_two_fields(sender, HASH, text);
    lemma_unsigned_roundtrip(m.src as nat, usize::MAX as nat);
    lemma_request_roundtrip(m.request);
}

/// Reading the text of a local update gives the update back.
pub proof fn lemma_message_local_roundtrip(m: MessageLocalView)
    requires
        is_real_literal(m.local_sum),
    ensures
        parse_message_local(message_local_text(m)) == Ok::<MessageLocalView, ParseError>(m),
{
    let sender = decimal_digits(m.src as nat);
    lemma_digits_plain(m.src as nat, HASH);
    lemma_literal_plain(m.local_sum, HASH);
    lemma_two_fields(sender, HASH, m.local_sum);
    lemma_unsigned_roundtrip(m.src as nat, usize::MAX as nat);
}

/// Reading the text of a global update gives the update back.
pub proof fn lemma_global_update_roundtrip(u: GlobalUpdateView)
    requires
        u matches GlobalUpdateView::Update(z) ==> is_real_literal(z),
    ensures
        parse_global_update(global_update_text(u)) == Ok::<GlobalUpdateView, ParseError>(u),
{
    let text = global_update_text(u);
    match u {
        GlobalUpdateView::Update(z) => {
            assert(text.take(keyword_update().len() as int) =~= keyword_update());
            assert(text.skip(keyword_update().len() as int) =~= z);
        },
        GlobalUpdateView::Dest(d) => {
            if starts_with(text, keyword_update()) {
                assert(text.take(keyword_update().len() as int)[0] == text[0]);
                assert(text[0] == keyword_dest()[0]);
            }
            assert(text.take(keyword_dest().len() as int) =~= keyword_dest());
            assert(text.skip(keyword_dest().len() as int) =~= decimal_digits(d as nat));
            lemma_unsigned_roundtrip(d as nat, usize::MAX as nat);
        },
    }
}

} // verus!
