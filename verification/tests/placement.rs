use app_lev_orc::coordination::{Coordinator, HandOff, LocalReply, Mode, NoticeReply};
use app_lev_orc::scalar::Scalar;
use app_lev_orc::state::{ApplicationState, Coord, MessageRequest, Request};
use app_lev_orc::wire::MessageLocal;

const PENALTY: f32 = 20.0;
const ETC_MULTIPLIER: f32 = 0.05;
const TOLERANCE: f32 = 0.05;

fn scalar(value: f32) -> Scalar {
    Scalar::parse(format!("{}", value).as_bytes()).unwrap()
}

fn number(scalar: &Scalar) -> f32 {
    String::from_utf8(scalar.as_bytes().to_vec()).unwrap().parse().unwrap()
}

/// One node of the federation, with the arithmetic of its local solver.
struct Node {
    state: ApplicationState,
    coordinator: Coordinator,
    position: (f32, f32),
    local: f32,
    dual: f32,
    global: f32,
    cost: f32,
    could_host: bool,
    globals: Vec<f32>,
}

impl Node {
    fn new(index: usize, nodes: usize, position: (f32, f32), memory: u32) -> Node {
        Node {
            state: ApplicationState::new(
                Coord::new_from(scalar(position.0), scalar(position.1)),
                100,
                20,
                scalar(1.0),
                memory,
            ),
            coordinator: Coordinator::new(nodes, index, Mode::Distributed, 20),
            position,
            local: 0.0,
            dual: 0.0,
            global: 1.0 / nodes as f32,
            cost: 0.0,
            could_host: false,
            globals: vec![1.0 / nodes as f32; nodes],
        }
    }

    fn local_update(&mut self) {
        if !self.could_host {
            self.local = 0.0;
            return;
        }
        let at = |v: f32| self.cost * v + (PENALTY / 2.0) * (v - self.global + self.dual).powi(2);
        self.local = if f32::min(at(0.0), at(1.0)) == at(0.0) { 0.0 } else { 1.0 };
    }

    fn start(&mut self, notice: &[u8], nodes: usize) -> f32 {
        let message = MessageRequest::from_bytes(notice, 0).unwrap();
        let request = message.get_request();
        let desired = (number(request.get_desired_coord().get_x()), number(request.get_desired_coord().get_y()));
        let distance =
            ((desired.0 - self.position.0).powi(2) + (desired.1 - self.position.1).powi(2)).sqrt();
        let work = self.state.backlog_sum_of_c as f32 + request.get_execution_time() as f32;
        let periods = (work / self.state.sporadic_server_c as f32 * 1.0).ceil() as u32;
        let etc = self.state.periods_to_time(periods);
        self.cost = distance + etc as f32 * ETC_MULTIPLIER;
        match self.coordinator.on_migration(message, &self.state) {
            NoticeReply::Started { could_host } => self.could_host = could_host,
            NoticeReply::Ignored => panic!("the notice was ignored"),
        }
        self.local = 0.0;
        self.dual = 0.0;
        self.global = 1.0 / nodes as f32;
        self.local_update();
        self.local + self.dual
    }

    /// Takes the sums of all nodes in; returns the destination once the
    /// round is over, or this node's next sum.
    fn collect(&mut self, sums: &[f32], index: usize) -> Result<usize, f32> {
        let mut collected = None;
        for (src, sum) in sums.iter().enumerate() {
            let message = MessageLocal { src, local_sum: scalar(*sum) };
            if let LocalReply::Collected(all) = self.coordinator.on_local_update(message) {
                collected = Some(all);
            }
        }
        let all: Vec<f32> = collected.expect("not every sum was taken").iter().map(number).collect();
        let subt = (1.0 / all.len() as f32) * (all.iter().sum::<f32>() - 1.0);
        self.globals = all.iter().map(|v| v - subt).collect();
        let mut converged = (self.globals.iter().sum::<f32>() - 1.0).abs() <= TOLERANCE;
        for z in &self.globals {
            if (z - 1.0).abs() > TOLERANCE && z.abs() > TOLERANCE {
                converged = false;
            }
        }
        if self.coordinator.round_over(converged) {
            let mut best = 0;
            let mut max_z = 0.0;
            for (i, z) in self.globals.iter().enumerate() {
                if *z > max_z {
                    max_z = *z;
                    best = i;
                }
            }
            return Ok(best);
        }
        self.global = self.globals[index];
        self.dual = self.dual + (self.local - self.global);
        self.local_update();
        Err(self.local + self.dual)
    }
}

/// Runs a round for `notice` on all nodes; returns the destination that
/// each node finds and the iterations it made.
fn run_round(nodes: &mut Vec<Node>, notice: &[u8]) -> Vec<(usize, usize)> {
    let count = nodes.len();
    let mut sums: Vec<f32> = nodes.iter_mut().map(|node| node.start(notice, count)).collect();
    loop {
        let mut next = Vec::new();
        let mut found = Vec::new();
        for (index, node) in nodes.iter_mut().enumerate() {
            match node.collect(&sums, index) {
                Ok(dest) => found.push((dest, node.coordinator.get_iterations())),
                Err(sum) => next.push(sum),
            }
        }
        if !found.is_empty() {
            assert_eq!(found.len(), count, "the nodes disagree on whether the round is over");
            return found;
        }
        sums = next;
    }
}

fn request(index: usize, memory: u32, desired: (f32, f32), threshold: f32) -> Request {
    Request::new_from(
        index,
        25,
        128,
        3,
        memory,
        Coord::new_from(scalar(desired.0), scalar(desired.1)),
        scalar(threshold),
        0,
        0,
    )
}

#[test]
fn a_request_moves_to_the_node_where_it_would_best_run() {
    let mut nodes = vec![Node::new(0, 2, (0.0, 0.0), 1000), Node::new(1, 2, (10.0, 10.0), 1000)];
    nodes[0].state.add_request(request(7, 64, (10.0, 10.0), 5.0), 0);
    let notice = MessageRequest::new(0, request(7, 64, (10.0, 10.0), 5.0)).to_bytes();

    let found = run_round(&mut nodes, &notice);
    // Every node finds node 1, after the same iterations.
    assert_eq!(found, vec![(1, 3), (1, 3)]);
    for node in &nodes {
        assert!(node.globals[1] > node.globals[0]);
        assert!((node.globals.iter().sum::<f32>() - 1.0).abs() <= TOLERANCE);
        assert_eq!(node.globals, nodes[0].globals);
    }

    assert_eq!(nodes[0].coordinator.on_destination(1), HandOff::Announce { dest: 1 });
    assert_eq!(nodes[1].coordinator.on_destination(1), HandOff::Bystander);
    let node = &mut nodes[1];
    assert!(node.coordinator.on_dst_ready(&mut node.state, 1).is_some());
    let node = &mut nodes[0];
    assert_eq!(node.coordinator.on_src_ready(&mut node.state), Some(7));
    assert_eq!(nodes[0].state.get_number_of_requests(), 0);
    assert_eq!(nodes[1].state.get_number_of_requests(), 1);
}

#[test]
fn a_node_without_memory_reports_zero_and_another_node_wins() {
    // Node 1 stands where the request would best run but has no memory.
    let mut nodes = vec![
        Node::new(0, 3, (0.0, 0.0), 1000),
        Node::new(1, 3, (10.0, 10.0), 0),
        Node::new(2, 3, (9.0, 9.0), 1000),
    ];
    let notice = MessageRequest::new(0, request(7, 1, (10.0, 10.0), 5.0)).to_bytes();
    let first: Vec<f32> = nodes.iter_mut().map(|node| node.start(&notice, 3)).collect();
    assert!(!nodes[1].could_host);
    assert_eq!(first[1], 0.0);
    // Start over on fresh nodes and run the round to its end.
    let mut nodes = vec![
        Node::new(0, 3, (0.0, 0.0), 1000),
        Node::new(1, 3, (10.0, 10.0), 0),
        Node::new(2, 3, (9.0, 9.0), 1000),
    ];
    let found = run_round(&mut nodes, &notice);
    assert_eq!(found[0].0, 2);
    assert_eq!(found[1], found[0]);
    assert_eq!(found[2], found[0]);
    assert_eq!(nodes[1].local, 0.0);
}

#[test]
fn a_round_that_does_not_converge_ends_at_the_limit() {
    // No node can host the request: no global variable ever reaches 1.
    let mut nodes = vec![Node::new(0, 2, (0.0, 0.0), 0), Node::new(1, 2, (10.0, 10.0), 0)];
    let notice = MessageRequest::new(0, request(7, 64, (10.0, 10.0), 5.0)).to_bytes();
    let found = run_round(&mut nodes, &notice);
    // The limit is 20 iterations: the round ends after the 21st.
    assert_eq!(found[0].1, 21);
    assert_eq!(found[1].1, 21);
    assert_eq!(found[0].0, found[1].0);
}
