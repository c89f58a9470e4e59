//! The data of one application on one node: where the node is, which
//! requests it serves, and how much memory and server time they take.

use crate::scalar::Scalar;
use vstd::prelude::*;

verus! {

/// A position in the plant.
#[derive(Debug)]
pub struct Coord {
    pub x: Scalar,
    pub y: Scalar,
}

/// Mathematical value of a `Coord`.
pub struct CoordView {
    pub x: Seq<u8>,
    pub y: Seq<u8>,
}

impl View for Coord {
    type V = CoordView;

    open spec fn view(&self) -> CoordView {
        CoordView { x: self.x@, y: self.y@ }
    }
}

impl CoordView {
    /// Both coordinates are literals of real numbers.
    pub open spec fn wf(self) -> bool {
        crate::scalar::is_real_literal(self.x) && crate::scalar::is_real_literal(self.y)
    }

}

impl Coord {
    /// The origin.
    pub fn new() -> (coord: Coord)
        ensures
            coord@ == (CoordView {
                x: crate::scalar::literal_zero(),
                y: crate::scalar::literal_zero(),
            }),
            coord@.wf(),
    {
        Coord { x: Scalar::zero(), y: Scalar::zero() }
    }

    /// The position `(x, y)`.
    pub fn new_from(x: Scalar, y: Scalar) -> (coord: Coord)
        ensures
            coord.x == x,
            coord.y == y,
    {
        Coord { x, y }
    }

    pub fn get_x(&self) -> (x: &Scalar)
        ensures
            *x == self.x,
    {
        &self.x
    }

    pub fn get_y(&self) -> (y: &Scalar)
        ensures
            *y == self.y,
    {
        &self.y
    }

    /// A position with the same coordinates.
    pub fn duplicate(&self) -> (copy: Coord)
        ensures
            copy@ == self@,
    {
        Coord { x: self.x.duplicate(), y: self.y.duplicate() }
    }
}

/// Where a node is and how fast it is, relative to a reference node.
#[derive(Debug)]
pub struct NodeState {
    /// Position of the node.
    pub node_coords: Coord,
    /// Speedup factor with respect to the reference node.
    pub speedup_factor: Scalar,
}

/// Mathematical value of a `NodeState`.
pub struct NodeStateView {
    pub node_coords: CoordView,
    pub speedup_factor: Seq<u8>,
}

impl View for NodeState {
    type V = NodeStateView;

    open spec fn view(&self) -> NodeStateView {
        NodeStateView { node_coords: self.node_coords@, speedup_factor: self.speedup_factor@ }
    }
}

impl NodeStateView {
    pub open spec fn wf(self) -> bool {
        self.node_coords.wf() && crate::scalar::is_real_literal(self.speedup_factor)
    }
}

impl NodeState {
    pub fn set_coords(&mut self, coord: Coord)
        ensures
            final(self).node_coords == coord,
            final(self).speedup_factor == old(self).speedup_factor,
    {
        self.node_coords = coord;
    }

    pub fn get_coord(&self) -> (coord: &Coord)
        ensures
            *coord == self.node_coords,
    {
        &self.node_coords
    }

    pub fn get_speedup_factor(&self) -> (factor: &Scalar)
        ensures
            *factor == self.speedup_factor,
    {
        &self.speedup_factor
    }
}

/// A computation that can move between nodes.
#[derive(Debug)]
pub struct Request {
    /// Index of the request, unique within its application.
    pub index: usize,
    /// Worst-case execution time in milliseconds.
    pub execution_time: u32,
    /// Time within which the request should complete, in milliseconds from
    /// its arrival.
    pub desired_completion_time: u32,
    /// Last checkpoint region from which migrating still pays.
    pub migratable_up_to: usize,
    /// Memory that the request needs, in kB.
    pub required_memory: u32,
    /// Where the request would best run.
    pub desired_coord: Coord,
    /// Distance between the hosting node and `desired_coord` under which the
    /// request is put up for migration.
    pub threshold: Scalar,
    /// Whether the request has been put up for migration.
    pub should_migrate: bool,
    /// Checkpoint region that the computation is in.
    pub current_region: usize,
    /// Instant of arrival, in milliseconds.
    pub arrival_time: u64,
}

/// Mathematical value of a `Request`.
pub struct RequestView {
    pub index: usize,
    pub execution_time: u32,
    pub desired_completion_time: u32,
    pub migratable_up_to: usize,
    pub required_memory: u32,
    pub desired_coord: CoordView,
    pub threshold: Seq<u8>,
    pub should_migrate: bool,
    pub current_region: usize,
    pub arrival_time: u64,
}

impl View for Request {
    type V = RequestView;

    open spec fn view(&self) -> RequestView {
        RequestView {
            index: self.index,
            execution_time: self.execution_time,
            desired_completion_time: self.desired_completion_time,
            migratable_up_to: self.migratable_up_to,
            required_memory: self.required_memory,
            desired_coord: self.desired_coord@,
            threshold: self.threshold@,
            should_migrate: self.should_migrate,
            current_region: self.current_region,
            arrival_time: self.arrival_time,
        }
    }
}

impl RequestView {
    pub open spec fn wf(self) -> bool {
        self.desired_coord.wf() && crate::scalar::is_real_literal(self.threshold)
    }

}

impl Request {
    /// A request that arrived at `arrival_time` and has not been put up for
    /// migration.
    pub fn new_from(
        index: usize,
        execution_time: u32,
        desired_completion_time: u32,
        migratable_up_to: usize,
        required_memory: u32,
        desired_coord: Coord,
        threshold: Scalar,
        current_region: usize,
        arrival_time: u64,
    ) -> (request: Request)
        ensures
            request == (Request {
                index,
                execution_time,
                desired_completion_time,
                migratable_up_to,
                required_memory,
                desired_coord,
                threshold,
                should_migrate: false,
                current_region,
                arrival_time,
            }),
    {
        Request {
            index,
            execution_time,
            desired_completion_time,
            migratable_up_to,
            required_memory,
            desired_coord,
            threshold,
            should_migrate: false,
            current_region,
            arrival_time,
        }
    }

    pub fn set_should_migrate(&mut self, migrate: bool)
        ensures
            *final(self) == (Request { should_migrate: migrate, ..*old(self) }),
    {
        self.should_migrate = migrate;
    }

    pub fn get_should_migrate(&self) -> (flag: bool)
        ensures
            flag == self.should_migrate,
    {
        self.should_migrate
    }

    pub fn get_desired_coord(&self) -> (coord: &Coord)
        ensures
            *coord == self.desired_coord,
    {
        &self.desired_coord
    }

    pub fn get_index(&self) -> (index: usize)
        ensures
            index == self.index,
    {
        self.index
    }

    pub fn get_execution_time(&self) -> (time: u32)
        ensures
            time == self.execution_time,
    {
        self.execution_time
    }

    /// A request with the same value.
    pub fn duplicate(&self) -> (copy: Request)
        ensures
            copy@ == self@,
    {
        Request {
            index: self.index,
            execution_time: self.execution_time,
            desired_completion_time: self.desired_completion_time,
            migratable_up_to: self.migratable_up_to,
            required_memory: self.required_memory,
            desired_coord: self.desired_coord.duplicate(),
            threshold: self.threshold.duplicate(),
            should_migrate: self.should_migrate,
            current_region: self.current_region,
            arrival_time: self.arrival_time,
        }
    }

    /// Time left to the request at `now` before its desired completion, in
    /// milliseconds; negative once that time has passed.
    pub open spec fn remaining_time(&self, now: u64) -> int {
        self.desired_completion_time - (if now >= self.arrival_time {
            now - self.arrival_time
        } else {
            0
        })
    }

    /// Time left to the request at `now` before its desired completion.
    pub fn time_left(&self, now: u64) -> (left: i128)
        ensures
            left == self.remaining_time(now),
    {
        let elapsed: u64 = now.saturating_sub(self.arrival_time);
        self.desired_completion_time as i128 - elapsed as i128
    }
}

/// A request on its way to the federation: the node that puts it up, and
/// the request.
#[derive(Debug)]
pub struct MessageRequest {
    pub src: usize,
    pub request: Request,
}

/// Mathematical value of a `MessageRequest`.
pub struct MessageRequestView {
    pub src: usize,
    pub request: RequestView,
}

impl View for MessageRequest {
    type V = MessageRequestView;

    open spec fn view(&self) -> MessageRequestView {
        MessageRequestView { src: self.src, request: self.request@ }
    }
}

impl MessageRequest {
    pub fn new(src: usize, request: Request) -> (message: MessageRequest)
        ensures
            message == (MessageRequest { src, request }),
    {
        MessageRequest { src, request }
    }

    pub fn get_src(&self) -> (src: usize)
        ensures
            src == self.src,
    {
        self.src
    }

    pub fn get_request(&self) -> (request: &Request)
        ensures
            *request == self.request,
    {
        &self.request
    }
}

/// Memory that the requests of `rs` need, in kB.
pub open spec fn total_memory(rs: Seq<Request>) -> nat
    decreases rs.len(),
{
    if rs.len() == 0 {
        0
    } else {
        total_memory(rs.drop_last()) + rs.last().required_memory as nat
    }
}

/// Execution time of the requests of `rs`, in milliseconds.
pub open spec fn total_execution(rs: Seq<Request>) -> nat
    decreases rs.len(),
{
    if rs.len() == 0 {
        0
    } else {
        total_execution(rs.drop_last()) + rs.last().execution_time as nat
    }
}

/// Whether a request of `rs` has the index `index`.
pub open spec fn holds_index(rs: Seq<Request>, index: usize) -> bool {
    exists|i: int| 0 <= i < rs.len() && (#[trigger] rs[i]).index == index
}

/// Whether `i` is the place of the first request of `rs` with the index
/// `index`.
pub open spec fn is_first_slot(rs: Seq<Request>, index: usize, i: int) -> bool {
    &&& 0 <= i < rs.len()
    &&& rs[i].index == index
    &&& forall|j: int| 0 <= j < i ==> (#[trigger] rs[j]).index != index
}

/// The place of the first request of `rs` with the index `index`.
pub open spec fn slot_of(rs: Seq<Request>, index: usize) -> int {
    choose|i: int| is_first_slot(rs, index, i)
}

/// No two requests of `rs` share an index.
pub open spec fn distinct_indices(rs: Seq<Request>) -> bool {
    forall|i: int, j: int|
        0 <= i < j < rs.len() ==> (#[trigger] rs[i]).index != (#[trigger] rs[j]).index
}

/// `order` lists the indices of the requests of `rs`, each once.
pub open spec fn same_indices(rs: Seq<Request>, order: Seq<usize>) -> bool {
    &&& order.len() == rs.len()
    &&& order.no_duplicates()
    &&& forall|i: int| 0 <= i < rs.len() ==> order.contains((#[trigger] rs[i]).index)
    &&& forall|j: int| 0 <= j < order.len() ==> holds_index(rs, #[trigger] order[j])
}

/// Whether the request of `rs` with the index `index` has more time left at
/// `now` than `request`.
pub open spec fn later_than(rs: Seq<Request>, index: usize, request: Request, now: u64) -> bool {
    rs[slot_of(rs, index)].remaining_time(now) > request.remaining_time(now)
}

/// Whether `p` is the place at which `request` enters `order`: before the
/// first request that has more time left at `now`, or behind all of them.
pub open spec fn is_dct_slot(
    rs: Seq<Request>,
    order: Seq<usize>,
    request: Request,
    now: u64,
    p: int,
) -> bool {
    &&& 0 <= p <= order.len()
    &&& forall|j: int| 0 <= j < p ==> !later_than(rs, #[trigger] order[j], request, now)
    &&& p < order.len() ==> later_than(rs, order[p], request, now)
}

/// The place at which `request` enters `order`.
pub open spec fn dct_slot(rs: Seq<Request>, order: Seq<usize>, request: Request, now: u64) -> int {
    choose|p: int| is_dct_slot(rs, order, request, now, p)
}

/// Where a request has the index, a first one has it.
pub proof fn lemma_slot_exists(rs: Seq<Request>, index: usize)
    requires
        holds_index(rs, index),
    ensures
        is_first_slot(rs, index, slot_of(rs, index)),
{
    let i = choose|i: int| 0 <= i < rs.len() && (#[trigger] rs[i]).index == index;
    lemma_first_before(rs, index, i);
}

proof fn lemma_first_before(rs: Seq<Request>, index: usize, i: int)
    requires
        0 <= i < rs.len(),
        rs[i].index == index,
    ensures
        exists|j: int| is_first_slot(rs, index, j),
    decreases i,
{
    if forall|k: int| 0 <= k < i ==> (#[trigger] rs[k]).index != index {
        assert(is_first_slot(rs, index, i));
    } else {
        let k = choose|k: int| 0 <= k < i && (#[trigger] rs[k]).index == index;
        lemma_first_before(rs, index, k);
    }
}

pub proof fn lemma_first_slot_unique(rs: Seq<Request>, index: usize, i: int)
    requires
        is_first_slot(rs, index, i),
    ensures
        holds_index(rs, index),
        slot_of(rs, index) == i,
{
    let c = slot_of(rs, index);
    assert(is_first_slot(rs, index, c));
    if c < i {
        assert(rs[c].index != index);
    }
    if i < c {
        assert(rs[i].index != index);
    }
}

pub proof fn lemma_dct_slot_unique(
    rs: Seq<Request>,
    order: Seq<usize>,
    request: Request,
    now: u64,
    p: int,
)
    requires
        is_dct_slot(rs, order, request, now, p),
    ensures
        dct_slot(rs, order, request, now) == p,
{
    let c = dct_slot(rs, order, request, now);
    assert(is_dct_slot(rs, order, request, now, c));
    if c < p {
        assert(!later_than(rs, order[c], request, now));
    }
    if p < c {
        assert(!later_than(rs, order[p], request, now));
    }
}

/// Taking a request out lowers the totals by what it took.
pub proof fn lemma_totals_remove(rs: Seq<Request>, t: int)
    requires
        0 <= t < rs.len(),
    ensures
        total_memory(rs.remove(t)) + rs[t].required_memory == total_memory(rs),
        total_execution(rs.remove(t)) + rs[t].execution_time == total_execution(rs),
    decreases rs.len(),
{
    if t == rs.len() - 1 {
        assert(rs.remove(t) =~= rs.drop_last());
    } else {
        lemma_totals_remove(rs.drop_last(), t);
        assert(rs.remove(t).drop_last() =~= rs.drop_last().remove(t));
        assert(rs.remove(t).last() == rs.last());
    }
}

/// The totals depend on the memory and the execution time of each request
/// only.
pub proof fn lemma_totals_same(a: Seq<Request>, b: Seq<Request>)
    requires
        a.len() == b.len(),
        forall|i: int|
            0 <= i < a.len() ==> (#[trigger] a[i]).required_memory == b[i].required_memory
                && a[i].execution_time == b[i].execution_time,
    ensures
        total_memory(a) == total_memory(b),
        total_execution(a) == total_execution(b),
    decreases a.len(),
{
    if a.len() > 0 {
        assert(a.drop_last().len() == b.drop_last().len());
        assert forall|i: int| 0 <= i < a.drop_last().len() implies (#[trigger] a.drop_last()[i]).required_memory
            == b.drop_last()[i].required_memory && a.drop_last()[i].execution_time
            == b.drop_last()[i].execution_time by {
            assert(a.drop_last()[i] == a[i]);
            assert(b.drop_last()[i] == b[i]);
        }
        lemma_totals_same(a.drop_last(), b.drop_last());
        assert(a.last() == a[a.len() - 1]);
        assert(b.last() == b[b.len() - 1]);
    }
}

/// Taking a request with a new index in, and its index into the order,
/// keeps the indices distinct and the order a list of them.
pub proof fn lemma_books_after_add(rs: Seq<Request>, order: Seq<usize>, request: Request, p: int)
    requires
        distinct_indices(rs),
        same_indices(rs, order),
        !holds_index(rs, request.index),
        0 <= p <= order.len(),
    ensures
        distinct_indices(rs.push(request)),
        same_indices(rs.push(request), order.insert(p, request.index)),
{
    let index = request.index;
    let rs2 = rs.push(request);
    let order2 = order.insert(p, index);
    assert(!order.contains(index)) by {
        if order.contains(index) {
            let j = choose|j: int| 0 <= j < order.len() && order[j] == index;
            assert(holds_index(rs, order[j]));
        }
    }
    assert(order2.no_duplicates()) by {
        assert forall|a: int, b: int|
            0 <= a < order2.len() && 0 <= b < order2.len() && a != b implies order2[a]
            != order2[b] by {
            let oa = if a < p {
                a
            } else {
                a - 1
            };
            let ob = if b < p {
                b
            } else {
                b - 1
            };
            if a != p && b != p {
                assert(order2[a] == order[oa]);
                assert(order2[b] == order[ob]);
            } else if a == p {
                assert(order2[b] == order[ob]);
                assert(order.contains(order[ob]));
            } else {
                assert(order2[a] == order[oa]);
                assert(order.contains(order[oa]));
            }
        }
    }
    assert forall|i: int| 0 <= i < rs2.len() implies order2.contains((#[trigger] rs2[i]).index) by {
        if i < rs.len() {
            assert(rs2[i] == rs[i]);
            assert(order.contains(rs[i].index));
            let j = choose|j: int| 0 <= j < order.len() && order[j] == rs[i].index;
            let j2 = if j < p {
                j
            } else {
                j + 1
            };
            assert(order2[j2] == order[j]);
        } else {
            assert(order2[p] == index);
        }
    }
    assert forall|j: int| 0 <= j < order2.len() implies holds_index(rs2, #[trigger] order2[j]) by {
        if j == p {
            assert(rs2[rs2.len() - 1].index == index);
        } else {
            let oj = if j < p {
                j
            } else {
                j - 1
            };
            assert(order2[j] == order[oj]);
            assert(holds_index(rs, order[oj]));
            let i = choose|i: int| 0 <= i < rs.len() && (#[trigger] rs[i]).index == order[oj];
            assert(rs2[i].index == order[oj]);
        }
    }
    assert forall|i: int, j: int| 0 <= i < j < rs2.len() implies (#[trigger] rs2[i]).index != (
    #[trigger] rs2[j]).index by {
        if j < rs.len() {
            assert(rs2[i] == rs[i] && rs2[j] == rs[j]);
        } else {
            assert(rs2[i] == rs[i]);
        }
    }
}

/// Taking a request and its entry in the order out keeps the indices
/// distinct and the order a list of them.
pub proof fn lemma_books_after_remove(rs: Seq<Request>, order: Seq<usize>, t: int, l: int)
    requires
        distinct_indices(rs),
        same_indices(rs, order),
        0 <= t < rs.len(),
        0 <= l < order.len(),
        order[l] == rs[t].index,
    ensures
        distinct_indices(rs.remove(t)),
        same_indices(rs.remove(t), order.remove(l)),
{
    let rs2 = rs.remove(t);
    let order2 = order.remove(l);
    assert forall|i: int, j: int| 0 <= i < j < rs2.len() implies (#[trigger] rs2[i]).index != (
    #[trigger] rs2[j]).index by {
        let oi = if i < t {
            i
        } else {
            i + 1
        };
        let oj = if j < t {
            j
        } else {
            j + 1
        };
        assert(rs2[i] == rs[oi] && rs2[j] == rs[oj]);
    }
    assert(order2.no_duplicates()) by {
        assert forall|a: int, b: int|
            0 <= a < order2.len() && 0 <= b < order2.len() && a != b implies order2[a]
            != order2[b] by {
            let oa = if a < l {
                a
            } else {
                a + 1
            };
            let ob = if b < l {
                b
            } else {
                b + 1
            };
            assert(order2[a] == order[oa] && order2[b] == order[ob]);
        }
    }
    assert forall|i: int| 0 <= i < rs2.len() implies order2.contains((#[trigger] rs2[i]).index) by {
        let oi = if i < t {
            i
        } else {
            i + 1
        };
        assert(rs2[i] == rs[oi]);
        assert(order.contains(rs[oi].index));
        let j = choose|j: int| 0 <= j < order.len() && order[j] == rs[oi].index;
        if oi < t {
            assert(rs[oi].index != rs[t].index);
        } else {
            assert(rs[t].index != rs[oi].index);
        }
        let j2 = if j < l {
            j
        } else {
            j - 1
        };
        assert(order2[j2] == order[j]);
    }
    assert forall|j: int| 0 <= j < order2.len() implies holds_index(rs2, #[trigger] order2[j]) by {
        let oj = if j < l {
            j
        } else {
            j + 1
        };
        assert(order2[j] == order[oj]);
        assert(holds_index(rs, order[oj]));
        let i = choose|i: int| 0 <= i < rs.len() && (#[trigger] rs[i]).index == order[oj];
        assert(i != t);
        let i2 = if i < t {
            i
        } else {
            i - 1
        };
        assert(rs2[i2].index == order[oj]);
    }
}

/// `rs` with the first request of index `index`, if there is one, moved on
/// to its next checkpoint region.
pub open spec fn with_region_advanced(rs: Seq<Request>, index: usize) -> Seq<Request> {
    if holds_index(rs, index) {
        let i = slot_of(rs, index);
        rs.update(i, Request { current_region: (rs[i].current_region + 1) as usize, ..rs[i] })
    } else {
        rs
    }
}

/// `rs` with the migration flag of the first request of index `index`, if
/// there is one, set to `flag`.
pub open spec fn with_flag(rs: Seq<Request>, index: usize, flag: bool) -> Seq<Request> {
    if holds_index(rs, index) {
        let i = slot_of(rs, index);
        rs.update(i, Request { should_migrate: flag, ..rs[i] })
    } else {
        rs
    }
}

/// A change to the requests that leaves each index, memory and execution
/// time as it was keeps the books.
pub proof fn lemma_books_after_update(a: Seq<Request>, b: Seq<Request>, order: Seq<usize>)
    requires
        a.len() == b.len(),
        forall|i: int|
            0 <= i < a.len() ==> (#[trigger] a[i]).index == b[i].index && a[i].required_memory
                == b[i].required_memory && a[i].execution_time == b[i].execution_time,
        distinct_indices(a),
        same_indices(a, order),
    ensures
        distinct_indices(b),
        same_indices(b, order),
        total_memory(a) == total_memory(b),
        total_execution(a) == total_execution(b),
{
    lemma_totals_same(a, b);
    assert forall|i: int, j: int| 0 <= i < j < b.len() implies (#[trigger] b[i]).index != (
    #[trigger] b[j]).index by {
        assert(a[i].index == b[i].index && a[j].index == b[j].index);
    }
    assert forall|i: int| 0 <= i < b.len() implies order.contains((#[trigger] b[i]).index) by {
        assert(a[i].index == b[i].index);
    }
    assert forall|j: int| 0 <= j < order.len() implies holds_index(b, #[trigger] order[j]) by {
        assert(holds_index(a, order[j]));
        let i = choose|i: int| 0 <= i < a.len() && (#[trigger] a[i]).index == order[j];
        assert(b[i].index == order[j]);
    }
}

/// Taking a request in keeps the memory balanced: what is available and
/// what the requests need still make up what is assigned.
pub proof fn lemma_memory_after_add(
    after: &ApplicationState,
    before: &ApplicationState,
    request: Request,
    now: u64,
)
    requires
        before.available_memory + total_memory(before.requests@) == before.assigned_memory,
        after.is_addition(before, request, now),
    ensures
        after.available_memory + total_memory(after.requests@) == after.assigned_memory,
        after.available_memory == before.available_memory - request.required_memory,
{
    assert(after.requests@.drop_last() =~= before.requests@);
}

/// Taking a request in keeps the backlog the execution time of the
/// requests.
pub proof fn lemma_backlog_after_add(
    after: &ApplicationState,
    before: &ApplicationState,
    request: Request,
    now: u64,
)
    requires
        before.backlog_sum_of_c == total_execution(before.requests@),
        after.is_addition(before, request, now),
    ensures
        after.backlog_sum_of_c == total_execution(after.requests@),
        after.backlog_sum_of_c == before.backlog_sum_of_c + request.execution_time,
{
    assert(after.requests@.drop_last() =~= before.requests@);
}

/// Taking a request with a new index in keeps the order by completion time
/// a list of exactly the indices of the requests, as long as the requests.
pub proof fn lemma_order_after_add(
    after: &ApplicationState,
    before: &ApplicationState,
    request: Request,
    now: u64,
)
    requires
        distinct_indices(before.requests@),
        same_indices(before.requests@, before.requests_by_dct@),
        !holds_index(before.requests@, request.index),
        after.is_addition(before, request, now),
    ensures
        distinct_indices(after.requests@),
        same_indices(after.requests@, after.requests_by_dct@),
        after.requests_by_dct@.len() == after.requests@.len(),
{
    lemma_dct_slot_exists(before.requests@, before.requests_by_dct@, request, now);
    lemma_books_after_add(
        before.requests@,
        before.requests_by_dct@,
        request,
        dct_slot(before.requests@, before.requests_by_dct@, request, now),
    );
}

/// There is a place at which a request enters the order.
pub proof fn lemma_dct_slot_exists(rs: Seq<Request>, order: Seq<usize>, request: Request, now: u64)
    ensures
        is_dct_slot(rs, order, request, now, dct_slot(rs, order, request, now)),
{
    lemma_dct_slot_from(rs, order, request, now, 0);
}

proof fn lemma_dct_slot_from(
    rs: Seq<Request>,
    order: Seq<usize>,
    request: Request,
    now: u64,
    p: int,
)
    requires
        0 <= p <= order.len(),
        forall|j: int| 0 <= j < p ==> !later_than(rs, #[trigger] order[j], request, now),
    ensures
        exists|q: int| is_dct_slot(rs, order, request, now, q),
    decreases order.len() - p,
{
    if p < order.len() && !later_than(rs, order[p], request, now) {
        lemma_dct_slot_from(rs, order, request, now, p + 1);
    } else {
        assert(is_dct_slot(rs, order, request, now, p));
    }
}

/// Taking a request out keeps the books: memory and backlog balanced, the
/// indices distinct, the order a list of them.
pub proof fn lemma_books_after_removal(
    after: &ApplicationState,
    before: &ApplicationState,
    request_index: usize,
)
    requires
        before.wf(),
        after.is_removal(before, request_index),
    ensures
        after.available_memory + total_memory(after.requests@) == after.assigned_memory,
        after.backlog_sum_of_c == total_execution(after.requests@),
        distinct_indices(after.requests@),
        same_indices(after.requests@, after.requests_by_dct@),
{
    let rs = before.requests@;
    let order = before.requests_by_dct@;
    if holds_index(rs, request_index) {
        lemma_slot_exists(rs, request_index);
        let t = slot_of(rs, request_index);
        lemma_totals_remove(rs, t);
        assert(order.contains(rs[t].index));
        let l = order.index_of(rs[t].index);
        lemma_books_after_remove(rs, order, t, l);
    }
}

/// State of one application on one node.
#[derive(Debug)]
pub struct ApplicationState {
    /// Position and speed of the node.
    pub node_state: NodeState,
    /// Period of the application's sporadic server, in milliseconds.
    pub sporadic_server_t: u32,
    /// Budget of the application's sporadic server, in milliseconds.
    pub sporadic_server_c: u32,
    /// Memory assigned to the application, in kB.
    pub assigned_memory: u32,
    /// Memory not taken by a request, in kB.
    pub available_memory: u32,
    /// Execution time of all the requests, in milliseconds.
    pub backlog_sum_of_c: u32,
    /// The requests, in order of arrival.
    pub requests: Vec<Request>,
    /// How many requests there are.
    pub number_of_requests: u32,
    /// The indices of the requests, by the time that each had left when the
    /// next one arrived, least first. A hint for scheduling.
    pub requests_by_dct: Vec<usize>,
    /// Whether a checkpoint of the running request is ready.
    pub checkpoint_is_ready: bool,
}

impl ApplicationState {
    /// The books balance: the memory of the requests and what is available
    /// make up what is assigned, the backlog is the execution time of the
    /// requests, the count is their number, no index occurs twice, and the
    /// order by completion time lists exactly the indices of the requests.
    pub open spec fn wf(&self) -> bool {
        &&& self.available_memory + total_memory(self.requests@) == self.assigned_memory
        &&& self.backlog_sum_of_c == total_execution(self.requests@)
        &&& self.number_of_requests == self.requests@.len()
        &&& distinct_indices(self.requests@)
        &&& same_indices(self.requests@, self.requests_by_dct@)
    }

    /// Whether `request` can be added: its index is new, its memory is
    /// available, and the backlog and the count stay within range.
    pub open spec fn admits(&self, request: &Request) -> bool {
        self.has_room(request.index, request.required_memory, request.execution_time)
    }

    /// Whether a request with this index, memory and execution time can be
    /// added.
    pub open spec fn has_room(&self, index: usize, required_memory: u32, execution_time: u32) -> bool {
        &&& !holds_index(self.requests@, index)
        &&& required_memory <= self.available_memory
        &&& self.backlog_sum_of_c + execution_time <= u32::MAX
        &&& self.number_of_requests < u32::MAX
    }

    /// The state of an application without requests.
    pub fn new(
        node_coords: Coord,
        sporadic_server_t: u32,
        sporadic_server_c: u32,
        speedup_factor: Scalar,
        assigned_memory: u32,
    ) -> (state: ApplicationState)
        ensures
            state.wf(),
            state.node_state.node_coords == node_coords,
            state.node_state.speedup_factor == speedup_factor,
            state.sporadic_server_t == sporadic_server_t,
            state.sporadic_server_c == sporadic_server_c,
            state.assigned_memory == assigned_memory,
            state.available_memory == assigned_memory,
            state.backlog_sum_of_c == 0,
            state.requests@.len() == 0,
            state.number_of_requests == 0,
            state.requests_by_dct@.len() == 0,
            !state.checkpoint_is_ready,
    {
        ApplicationState {
            node_state: NodeState { node_coords, speedup_factor },
            sporadic_server_t,
            sporadic_server_c,
            assigned_memory,
            available_memory: assigned_memory,
            backlog_sum_of_c: 0,
            requests: Vec::with_capacity(5),
            number_of_requests: 0,
            requests_by_dct: Vec::with_capacity(5),
            checkpoint_is_ready: false,
        }
    }

    /// Gives up the state for the node's position and speed.
    pub fn get_node_state(self) -> (node_state: NodeState)
        ensures
            node_state == self.node_state,
    {
        self.node_state
    }

    /// Moves the node to `coord`.
    pub fn set_node_state(&mut self, coord: Coord)
        ensures
            final(self).node_state.node_coords == coord,
            final(self).node_state.speedup_factor == old(self).node_state.speedup_factor,
            final(self).same_books(old(self)),
    {
        self.node_state.set_coords(coord);
    }

    /// Whether the two states agree on everything but the node.
    pub open spec fn same_books(&self, other: &ApplicationState) -> bool {
        &&& self.sporadic_server_t == other.sporadic_server_t
        &&& self.sporadic_server_c == other.sporadic_server_c
        &&& self.assigned_memory == other.assigned_memory
        &&& self.available_memory == other.available_memory
        &&& self.backlog_sum_of_c == other.backlog_sum_of_c
        &&& self.requests == other.requests
        &&& self.number_of_requests == other.number_of_requests
        &&& self.requests_by_dct == other.requests_by_dct
        &&& self.checkpoint_is_ready == other.checkpoint_is_ready
    }

    /// The place of the first request with the index `request_index`.
    pub fn position(&self, request_index: usize) -> (place: Option<usize>)
        ensures
            match place {
                Some(i) => is_first_slot(self.requests@, request_index, i as int),
                None => !holds_index(self.requests@, request_index),
            },
    {
        let mut i: usize = 0;
        while i < self.requests.len()
            invariant
                i <= self.requests@.len(),
                forall|j: int| 0 <= j < i ==> (#[trigger] self.requests@[j]).index != request_index,
            decreases self.requests@.len() - i,
        {
            if self.requests[i].index == request_index {
                return Some(i);
            }
            i += 1;
        }
        None
    }

    /// The request with the index `request_index`.
    pub fn get_request(&self, request_index: usize) -> (request: Option<&Request>)
        ensures
            match request {
                Some(r) => holds_index(self.requests@, request_index) && *r
                    == self.requests@[slot_of(self.requests@, request_index)],
                None => !holds_index(self.requests@, request_index),
            },
    {
        match self.position(request_index) {
            Some(i) => {
                proof {
                    lemma_first_slot_unique(self.requests@, request_index, i as int);
                }
                Some(&self.requests[i])
            },
            None => None,
        }
    }

    /// Whether the state is `before` with `request` taken in at `now`: the
    /// request stands behind the others, its memory has left what is
    /// available, its execution time has joined the backlog, and its index
    /// has entered the order by completion time before the first request that
    /// had more time left at `now`.
    pub open spec fn is_addition(
        &self,
        before: &ApplicationState,
        request: Request,
        now: u64,
    ) -> bool {
        &&& self.requests@ == before.requests@.push(request)
        &&& self.requests_by_dct@ == before.requests_by_dct@.insert(
            dct_slot(before.requests@, before.requests_by_dct@, request, now),
            request.index,
        )
        &&& self.available_memory == before.available_memory - request.required_memory
        &&& self.backlog_sum_of_c == before.backlog_sum_of_c + request.execution_time
        &&& self.number_of_requests == before.number_of_requests + 1
        &&& self.node_state == before.node_state
        &&& self.sporadic_server_t == before.sporadic_server_t
        &&& self.sporadic_server_c == before.sporadic_server_c
        &&& self.assigned_memory == before.assigned_memory
        &&& self.checkpoint_is_ready == before.checkpoint_is_ready
    }

    /// Whether the state is `before` without the request of index
    /// `request_index`: the request and its entry in the order by completion
    /// time are gone, its memory is available again, and its execution time
    /// has left the backlog. Where `before` has no such request, the state is
    /// `before`.
    pub open spec fn is_removal(&self, before: &ApplicationState, request_index: usize) -> bool {
        let place = slot_of(before.requests@, request_index);
        let gone = before.requests@[place];
        &&& self.node_state == before.node_state
        &&& self.sporadic_server_t == before.sporadic_server_t
        &&& self.sporadic_server_c == before.sporadic_server_c
        &&& self.assigned_memory == before.assigned_memory
        &&& self.checkpoint_is_ready == before.checkpoint_is_ready
        &&& if holds_index(before.requests@, request_index) {
            &&& self.requests@ == before.requests@.remove(place)
            &&& self.requests_by_dct@ == before.requests_by_dct@.remove(
                before.requests_by_dct@.index_of(gone.index),
            )
            &&& self.available_memory == before.available_memory + gone.required_memory
            &&& self.backlog_sum_of_c == before.backlog_sum_of_c - gone.execution_time
            &&& self.number_of_requests == before.number_of_requests - 1
        } else {
            &&& self.requests@ == before.requests@
            &&& self.requests_by_dct@ == before.requests_by_dct@
            &&& self.available_memory == before.available_memory
            &&& self.backlog_sum_of_c == before.backlog_sum_of_c
            &&& self.number_of_requests == before.number_of_requests
        }
    }

    /// Whether `request` can be added.
    pub fn can_admit(&self, request: &Request) -> (ok: bool)
        ensures
            ok == self.admits(request),
    {
        self.position(request.index).is_none() && request.required_memory
            <= self.available_memory && request.execution_time <= u32::MAX
            - self.backlog_sum_of_c && self.number_of_requests < u32::MAX
    }

    /// Takes `request` in at `now`: it joins the requests behind the others,
    /// its memory leaves what is available, its execution time joins the
    /// backlog, and its index enters the order by completion time before the
    /// first request that has more time left at `now`.
    pub fn add_request(&mut self, request: Request, now: u64)
        requires
            old(self).wf(),
            old(self).admits(&request),
        ensures
            final(self).wf(),
            final(self).is_addition(old(self), request, now),
    {
        let left: i128 = request.time_left(now);
        let mut place: usize = 0;
        while place < self.requests_by_dct.len()
            invariant
                *self == *old(self),
                self.wf(),
                left == request.remaining_time(now),
                place <= self.requests_by_dct@.len(),
                forall|j: int|
                    0 <= j < place ==> !later_than(
                        self.requests@,
                        #[trigger] self.requests_by_dct@[j],
                        request,
                        now,
                    ),
            ensures
                is_dct_slot(self.requests@, self.requests_by_dct@, request, now, place as int),
            decreases self.requests_by_dct@.len() - place,
        {
            let listed: usize = self.requests_by_dct[place];
            assert(holds_index(self.requests@, listed));
            let other: &Request = self.get_request(listed).unwrap();
            if other.time_left(now) > left {
                break ;
            }
            place += 1;
        }
        proof {
            lemma_dct_slot_unique(
                self.requests@,
                self.requests_by_dct@,
                request,
                now,
                place as int,
            );
        }
        let index: usize = request.index;
        self.available_memory = self.available_memory - request.required_memory;
        self.backlog_sum_of_c = self.backlog_sum_of_c + request.execution_time;
        self.number_of_requests = self.number_of_requests + 1;
        self.requests_by_dct.insert(place, index);
        self.requests.push(request);
        proof {
            lemma_books_after_add(
                old(self).requests@,
                old(self).requests_by_dct@,
                request,
                place as int,
            );
            assert(self.requests@.drop_last() =~= old(self).requests@);
        }
    }

    /// Takes out the request with the index `request_index`: its memory is
    /// available again, its execution time leaves the backlog, and its index
    /// leaves the order by completion time. Without such a request nothing
    /// changes.
    pub fn remove_request(&mut self, request_index: usize)
        requires
            old(self).wf(),
        ensures
            final(self).wf(),
            final(self).is_removal(old(self), request_index),
    {
        let target: usize = match self.position(request_index) {
            Some(i) => {
                proof {
                    lemma_first_slot_unique(self.requests@, request_index, i as int);
                }
                i
            },
            None => {
                return ;
            },
        };
        let index: usize = self.requests[target].index;
        let memory: u32 = self.requests[target].required_memory;
        let time: u32 = self.requests[target].execution_time;
        proof {
            lemma_totals_remove(self.requests@, target as int);
            assert(self.requests_by_dct@.contains(self.requests@[target as int].index));
        }
        let mut listed: usize = 0;
        while listed < self.requests_by_dct.len() && self.requests_by_dct[listed] != index
            invariant
                *self == *old(self),
                listed <= self.requests_by_dct@.len(),
                forall|j: int| 0 <= j < listed ==> self.requests_by_dct@[j] != index,
            decreases self.requests_by_dct@.len() - listed,
        {
            listed += 1;
        }
        proof {
            let order = self.requests_by_dct@;
            let found = order.index_of(index);
            assert(order[found] == index && 0 <= found < order.len());
            assert(found == listed);
            lemma_books_after_remove(self.requests@, order, target as int, listed as int);
        }
        self.backlog_sum_of_c = self.backlog_sum_of_c - time;
        self.available_memory = self.available_memory + memory;
        self.requests_by_dct.remove(listed);
        self.requests.remove(target);
        self.number_of_requests = self.number_of_requests - 1;
    }

    /// Moves the request with the index `request_index` on to its next
    /// checkpoint region. Without such a request nothing changes.
    pub fn advance_cur_region_of_request(&mut self, request_index: usize)
        requires
            old(self).wf(),
            holds_index(old(self).requests@, request_index) ==> old(self).requests@[slot_of(
                old(self).requests@,
                request_index,
            )].current_region < usize::MAX,
        ensures
            final(self).wf(),
            final(self).requests@ == with_region_advanced(old(self).requests@, request_index),
            final(self).same_accounts(old(self)),
    {
        match self.position(request_index) {
            Some(i) => {
                proof {
                    lemma_first_slot_unique(self.requests@, request_index, i as int);
                }
                self.requests[i].current_region += 1;
                proof {
                    lemma_books_after_update(old(self).requests@, self.requests@, self.requests_by_dct@);
                }
            },
            None => {},
        }
    }

    /// Whether the two states agree on everything but the requests
    /// themselves.
    pub open spec fn same_accounts(&self, other: &ApplicationState) -> bool {
        &&& self.node_state == other.node_state
        &&& self.sporadic_server_t == other.sporadic_server_t
        &&& self.sporadic_server_c == other.sporadic_server_c
        &&& self.assigned_memory == other.assigned_memory
        &&& self.available_memory == other.available_memory
        &&& self.backlog_sum_of_c == other.backlog_sum_of_c
        &&& self.number_of_requests == other.number_of_requests
        &&& self.requests_by_dct == other.requests_by_dct
        &&& self.checkpoint_is_ready == other.checkpoint_is_ready
    }

    /// The checkpoint region of the request with the index `request_index`,
    /// and 0 without such a request.
    pub fn get_cur_region_of_request(&self, request_index: usize) -> (region: usize)
        ensures
            region == if holds_index(self.requests@, request_index) {
                self.requests@[slot_of(self.requests@, request_index)].current_region
            } else {
                0
            },
    {
        match self.get_request(request_index) {
            Some(request) => request.current_region,
            None => 0,
        }
    }

    /// Whether there is a request with the index `request_index` that has
    /// not passed the last region from which migrating pays.
    pub fn is_request_migratable(&self, request_index: usize) -> (migratable: bool)
        ensures
            migratable == (holds_index(self.requests@, request_index) && self.requests@[slot_of(
                self.requests@,
                request_index,
            )].current_region <= self.requests@[slot_of(
                self.requests@,
                request_index,
            )].migratable_up_to),
    {
        match self.get_request(request_index) {
            Some(request) => request.current_region <= request.migratable_up_to,
            None => false,
        }
    }

    /// Whether the request with the index `request_index` has been put up
    /// for migration.
    pub fn get_should_migrate_of_request(&self, request_index: usize) -> (flag: bool)
        requires
            holds_index(self.requests@, request_index),
        ensures
            flag == self.requests@[slot_of(self.requests@, request_index)].should_migrate,
    {
        self.get_request(request_index).unwrap().should_migrate
    }

    /// Sets whether the request with the index `request_index` is up for
    /// migration. Without such a request nothing changes.
    pub fn set_should_migrate_of_request(&mut self, request_index: usize, should_migrate: bool)
        requires
            old(self).wf(),
        ensures
            final(self).wf(),
            final(self).requests@ == with_flag(old(self).requests@, request_index, should_migrate),
            final(self).same_accounts(old(self)),
    {
        match self.position(request_index) {
            Some(i) => {
                proof {
                    lemma_first_slot_unique(self.requests@, request_index, i as int);
                }
                self.requests[i].should_migrate = should_migrate;
                proof {
                    lemma_books_after_update(old(self).requests@, self.requests@, self.requests_by_dct@);
                }
            },
            None => {},
        }
    }

    /// The time that `periods` periods of the server take, in milliseconds.
    pub fn periods_to_time(&self, periods: u32) -> (time: u32)
        requires
            periods * self.sporadic_server_t <= u32::MAX,
        ensures
            time == periods * self.sporadic_server_t,
    {
        periods * self.sporadic_server_t
    }

    /// How many requests there are.
    pub fn get_number_of_requests(&self) -> (count: u32)
        ensures
            count == self.number_of_requests,
    {
        self.number_of_requests
    }

    /// Whether the memory that `request` needs is less than what is
    /// available.
    pub fn could_host_computation(&self, request: &Request) -> (fits: bool)
        ensures
            fits == (request.required_memory < self.available_memory),
    {
        request.required_memory < self.available_memory
    }
}

} // verus!
