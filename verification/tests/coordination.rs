use app_lev_orc::coordination::{
    Arrival, CollectAction, Coordinator, HandOff, LocalReply, Mode, NoticeReply, Route,
};
use app_lev_orc::scalar::Scalar;
use app_lev_orc::state::{ApplicationState, Coord, MessageRequest, Request};
use app_lev_orc::topics::Topic;
use app_lev_orc::wire::MessageLocal;

fn scalar(text: &str) -> Scalar {
    Scalar::parse(text.as_bytes()).unwrap()
}

fn request(index: usize, memory: u32) -> Request {
    Request::new_from(
        index,
        25,
        128,
        3,
        memory,
        Coord::new_from(scalar("10"), scalar("10")),
        scalar("5"),
        0,
        0,
    )
}

fn node(x: &str, y: &str, assigned: u32) -> ApplicationState {
    ApplicationState::new(Coord::new_from(scalar(x), scalar(y)), 100, 20, scalar("1"), assigned)
}

fn local(src: usize, sum: &str) -> MessageLocal {
    MessageLocal { src, local_sum: scalar(sum) }
}

fn sums(reply: LocalReply) -> Vec<String> {
    match reply {
        LocalReply::Collected(sums) => {
            sums.iter().map(|s| String::from_utf8(s.as_bytes().to_vec()).unwrap()).collect()
        }
        other => panic!("expected the sums, got {:?}", other),
    }
}

#[test]
fn a_notice_starts_a_round() {
    let state = node("0", "0", 1000);
    let mut c = Coordinator::new(2, 0, Mode::Distributed, 20);
    assert!(!c.is_busy());
    let reply = c.on_migration(MessageRequest::new(0, request(7, 1)), &state);
    assert_eq!(reply, NoticeReply::Started { could_host: true });
    assert!(c.is_busy());
    assert!(c.could_host());
    assert_eq!(c.get_incoming_request().unwrap().index, 7);
    assert_eq!(c.get_iterations(), 0);
}

#[test]
fn a_node_without_memory_takes_the_short_cut() {
    // Available memory 0, the request needs 1 kB.
    let state = node("0", "0", 0);
    let mut c = Coordinator::new(3, 1, Mode::Worker, 20);
    let reply = c.on_migration(MessageRequest::new(0, request(7, 1)), &state);
    assert_eq!(reply, NoticeReply::Started { could_host: false });
    assert!(!c.could_host());
}

#[test]
fn a_second_notice_is_ignored_while_a_round_runs() {
    let state = node("0", "0", 1000);
    let mut c = Coordinator::new(2, 0, Mode::Distributed, 20);
    c.on_migration(MessageRequest::new(0, request(7, 1)), &state);
    let reply = c.on_migration(MessageRequest::new(1, request(8, 5000)), &state);
    assert_eq!(reply, NoticeReply::Ignored);
    // The round of the first request goes on, put up by node 0.
    assert_eq!(c.get_incoming_request().unwrap().index, 7);
    assert!(c.could_host());
    assert_eq!(c.on_destination(1), HandOff::Announce { dest: 1 });
}

#[test]
fn sums_are_collected_from_every_node() {
    let mut c = Coordinator::new(3, 0, Mode::Distributed, 20);
    assert!(matches!(c.on_local_update(local(0, "1")), LocalReply::Waiting));
    assert!(matches!(c.on_local_update(local(2, "0.5")), LocalReply::Waiting));
    let collected = sums(c.on_local_update(local(1, "0")));
    assert_eq!(collected, vec!["1", "0", "0.5"]);
    assert_eq!(c.get_iterations(), 1);
    // The next iteration starts with no report.
    assert!(matches!(c.on_local_update(local(1, "0.25")), LocalReply::Waiting));
}

#[test]
fn a_repeated_sum_does_not_count_twice() {
    let mut c = Coordinator::new(2, 0, Mode::Controller, 20);
    assert!(matches!(c.on_local_update(local(0, "1")), LocalReply::Waiting));
    assert!(matches!(c.on_local_update(local(0, "1")), LocalReply::Waiting));
    assert!(matches!(c.on_local_update(local(0, "1")), LocalReply::Waiting));
    assert_eq!(c.get_iterations(), 0);
    assert_eq!(sums(c.on_local_update(local(1, "0"))), vec!["1", "0"]);
    assert_eq!(c.get_iterations(), 1);
}

#[test]
fn a_later_sum_of_a_node_replaces_its_earlier_one() {
    let mut c = Coordinator::new(2, 0, Mode::Controller, 20);
    c.on_local_update(local(0, "1"));
    c.on_local_update(local(0, "0.75"));
    assert_eq!(sums(c.on_local_update(local(1, "0"))), vec!["0.75", "0"]);
}

#[test]
fn sums_from_strangers_and_to_workers_are_rejected() {
    let mut c = Coordinator::new(2, 0, Mode::Distributed, 20);
    assert!(matches!(c.on_local_update(local(2, "1")), LocalReply::Rejected));
    assert!(matches!(c.on_local_update(local(usize::MAX, "1")), LocalReply::Rejected));
    let mut worker = Coordinator::new(2, 0, Mode::Worker, 20);
    assert!(matches!(worker.on_local_update(local(0, "1")), LocalReply::Rejected));
}

#[test]
fn a_round_ends_by_convergence_or_by_the_limit() {
    let mut c = Coordinator::new(1, 0, Mode::Distributed, 2);
    assert!(!c.round_over(false));
    assert!(c.round_over(true));
    for iteration in 1..=3usize {
        assert_eq!(sums(c.on_local_update(local(0, "1"))), vec!["1"]);
        assert_eq!(c.get_iterations(), iteration);
        // Over once more iterations have been made than the limit of 2.
        assert_eq!(c.round_over(false), iteration > 2);
    }
}

#[test]
fn a_new_round_counts_its_iterations_from_zero() {
    let state = node("0", "0", 1000);
    let mut c = Coordinator::new(1, 0, Mode::Distributed, 20);
    c.on_local_update(local(0, "1"));
    assert_eq!(c.get_iterations(), 1);
    c.on_migration(MessageRequest::new(0, request(7, 1)), &state);
    assert_eq!(c.get_iterations(), 0);
}

#[test]
fn only_the_source_acts_on_the_destination() {
    let state = node("0", "0", 1000);
    let mut idle = Coordinator::new(3, 0, Mode::Worker, 20);
    assert_eq!(idle.on_destination(1), HandOff::NoRound);

    let mut source = Coordinator::new(3, 0, Mode::Worker, 20);
    source.on_migration(MessageRequest::new(0, request(7, 1)), &state);
    assert_eq!(source.on_destination(2), HandOff::Announce { dest: 2 });
    assert!(source.is_busy());

    let mut other = Coordinator::new(3, 1, Mode::Worker, 20);
    other.on_migration(MessageRequest::new(0, request(7, 1)), &state);
    assert_eq!(other.on_destination(2), HandOff::Bystander);
    assert_eq!(other.on_destination(1), HandOff::Bystander);
    assert!(other.is_busy());
}

#[test]
fn a_source_that_is_the_best_host_keeps_the_request() {
    let mut state = node("0", "0", 1000);
    state.add_request(request(7, 1), 0);
    let mut source = Coordinator::new(2, 0, Mode::Distributed, 20);
    source.on_migration(MessageRequest::new(0, request(7, 1)), &state);
    assert_eq!(source.on_destination(0), HandOff::Stay);
    assert!(!source.is_busy());
    assert_eq!(state.get_number_of_requests(), 1);
    // The node takes the next notice.
    let reply = source.on_migration(MessageRequest::new(1, request(8, 1)), &state);
    assert_eq!(reply, NoticeReply::Started { could_host: true });
}

#[test]
fn migration_between_two_nodes() {
    // Node 0 at (0,0) holds the request; node 1 at (10,10) is where it
    // would best run.
    let mut state0 = node("0", "0", 1000);
    let mut state1 = node("10", "10", 1000);
    state0.add_request(request(7, 64), 0);
    let mut c0 = Coordinator::new(2, 0, Mode::Distributed, 20);
    let mut c1 = Coordinator::new(2, 1, Mode::Distributed, 20);

    let notice = MessageRequest::new(0, request(7, 64)).to_bytes();
    for (c, state) in [(&mut c0, &state0), (&mut c1, &state1)] {
        let message = MessageRequest::from_bytes(&notice, 0).unwrap();
        assert_eq!(c.on_migration(message, state), NoticeReply::Started { could_host: true });
    }
    // Every node hears both local sums.
    for c in [&mut c0, &mut c1] {
        assert!(matches!(c.on_local_update(local(0, "0")), LocalReply::Waiting));
        assert_eq!(sums(c.on_local_update(local(1, "1"))), vec!["0", "1"]);
        assert!(c.round_over(true));
    }
    // Node 1 has the larger global variable.
    assert_eq!(c0.on_destination(1), HandOff::Announce { dest: 1 });
    assert_eq!(c1.on_destination(1), HandOff::Bystander);

    // The destination hears the source and takes the request in.
    assert!(c1.can_accept(&state1));
    let arrival = c1.on_dst_ready(&mut state1, 5);
    assert_eq!(arrival, Some(Arrival { request_index: 7, src: 0 }));
    assert!(!c1.is_busy());
    // The source hears the destination and lets the request go.
    assert_eq!(c0.on_src_ready(&mut state0), Some(7));
    assert!(!c0.is_busy());

    assert_eq!(state0.get_number_of_requests(), 0);
    assert_eq!(state0.available_memory, 1000);
    assert_eq!(state1.get_number_of_requests(), 1);
    assert_eq!(state1.available_memory, 936);
    assert_eq!(state1.backlog_sum_of_c, 25);
    assert_eq!(state1.requests[0].index, 7);
    assert_eq!(state1.requests_by_dct, vec![7]);
}

#[test]
fn hand_off_without_a_round_does_nothing() {
    let mut state = node("0", "0", 1000);
    state.add_request(request(7, 64), 0);
    let mut c = Coordinator::new(2, 0, Mode::Distributed, 20);
    assert_eq!(c.on_src_ready(&mut state), None);
    assert_eq!(c.on_dst_ready(&mut state, 0), None);
    assert_eq!(state.get_number_of_requests(), 1);
    assert_eq!(state.available_memory, 936);
}

#[test]
fn a_full_node_cannot_accept() {
    let mut state = node("0", "0", 10);
    let mut c = Coordinator::new(2, 1, Mode::Distributed, 20);
    assert!(c.can_accept(&state));
    c.on_migration(MessageRequest::new(0, request(7, 64)), &state);
    assert!(!c.can_accept(&state));
    state.assigned_memory = 100;
    state.available_memory = 100;
    assert!(c.can_accept(&state));
}

#[test]
fn topics_are_routed_by_mode() {
    let peer = Coordinator::new(3, 1, Mode::Distributed, 20);
    let controller = Coordinator::new(3, 1, Mode::Controller, 20);
    let worker = Coordinator::new(3, 1, Mode::Worker, 20);
    for c in [&peer, &controller, &worker] {
        assert_eq!(c.route(&Topic::Migration), Route::Notice);
        assert_eq!(c.route(&Topic::Src(1)), Route::SrcReady);
        assert_eq!(c.route(&Topic::Dst(1)), Route::DstReady);
        assert_eq!(c.route(&Topic::Src(2)), Route::Other);
        assert_eq!(c.route(&Topic::Dst(0)), Route::Other);
        assert_eq!(c.route(&Topic::Disconnect), Route::Other);
        assert_eq!(c.route(&Topic::NodeState(1)), Route::Other);
    }
    assert_eq!(peer.route(&Topic::LocalUpdate), Route::LocalSum);
    assert_eq!(controller.route(&Topic::LocalUpdate), Route::LocalSum);
    assert_eq!(worker.route(&Topic::LocalUpdate), Route::Other);
    assert_eq!(worker.route(&Topic::GlobalUpdate(1)), Route::GlobalUpdate);
    assert_eq!(worker.route(&Topic::GlobalUpdate(2)), Route::Other);
    assert_eq!(peer.route(&Topic::GlobalUpdate(1)), Route::Other);
    assert_eq!(controller.route(&Topic::GlobalUpdate(1)), Route::GlobalUpdate);
    assert_eq!(controller.route(&Topic::GlobalUpdate(0)), Route::Other);
}

#[test]
fn subscriptions_by_mode() {
    let peer = Coordinator::new(3, 1, Mode::Distributed, 20);
    assert_eq!(
        peer.subscriptions(),
        vec![Topic::Migration, Topic::LocalUpdate, Topic::Src(1), Topic::Dst(1), Topic::Disconnect]
    );
    let worker = Coordinator::new(3, 2, Mode::Worker, 20);
    assert_eq!(
        worker.subscriptions(),
        vec![Topic::Migration, Topic::GlobalUpdate(2), Topic::Src(2), Topic::Dst(2), Topic::Disconnect]
    );
    let controller = Coordinator::new(3, 0, Mode::Controller, 20);
    assert_eq!(
        controller.subscriptions(),
        vec![
            Topic::Migration,
            Topic::LocalUpdate,
            Topic::GlobalUpdate(0),
            Topic::Src(0),
            Topic::Dst(0),
            Topic::Disconnect
        ]
    );
}

#[test]
fn the_destination_is_told_to_every_worker_and_only_the_source_announces() {
    // Three workers; worker 0 put the request up; node 2 is the destination.
    let state = node("0", "0", 1000);
    let mut announcements = Vec::new();
    for index in 0..3usize {
        let mut worker = Coordinator::new(3, index, Mode::Worker, 20);
        worker.on_migration(MessageRequest::new(0, request(7, 1)), &state);
        assert_eq!(worker.route(&Topic::GlobalUpdate(index)), Route::GlobalUpdate);
        if let HandOff::Announce { dest } = worker.on_destination(2) {
            announcements.push((index, Topic::Dst(dest).to_bytes()));
        }
    }
    assert_eq!(announcements, vec![(0, b"federation/dst/2".to_vec())]);
}

#[test]
fn a_source_whose_request_is_gone_sends_nothing_else_away() {
    let mut state = node("0", "0", 1000);
    state.add_request(request(8, 64), 0);
    let mut c = Coordinator::new(2, 0, Mode::Distributed, 20);
    c.on_migration(MessageRequest::new(0, request(7, 64)), &state);
    assert_eq!(c.on_src_ready(&mut state), Some(7));
    assert!(!c.is_busy());
    assert_eq!(state.get_number_of_requests(), 1);
    assert_eq!(state.requests[0].index, 8);
}

#[test]
fn the_controller_tells_and_the_others_act() {
    let mut controller = Coordinator::new(1, 0, Mode::Controller, 1);
    let mut peer = Coordinator::new(1, 0, Mode::Distributed, 1);
    assert_eq!(controller.after_collection(false, 0), CollectAction::TellUpdates);
    assert_eq!(controller.after_collection(true, 0), CollectAction::TellDestination { dest: 0 });
    assert_eq!(peer.after_collection(false, 0), CollectAction::NextLocalUpdate);
    assert_eq!(peer.after_collection(true, 3), CollectAction::ActOnDestination { dest: 3 });
    // Past the limit of one iteration the round is over without convergence.
    for c in [&mut controller, &mut peer] {
        c.on_local_update(local(0, "1"));
        assert_eq!(c.get_iterations(), 1);
    }
    assert_eq!(controller.after_collection(false, 0), CollectAction::TellUpdates);
    for c in [&mut controller, &mut peer] {
        c.on_local_update(local(0, "1"));
    }
    assert_eq!(controller.after_collection(false, 2), CollectAction::TellDestination { dest: 2 });
    assert_eq!(peer.after_collection(false, 2), CollectAction::ActOnDestination { dest: 2 });
}

#[test]
fn the_controller_tells_every_node_once() {
    let controller = Coordinator::new(3, 0, Mode::Controller, 20);
    let topics = controller.broadcast_topics();
    assert_eq!(topics, vec![Topic::GlobalUpdate(0), Topic::GlobalUpdate(1), Topic::GlobalUpdate(2)]);
    // Each worker takes one of them, its own.
    for index in 0..3usize {
        let worker = Coordinator::new(3, index, Mode::Worker, 20);
        let taken: Vec<&Topic> =
            topics.iter().filter(|t| worker.route(t) == Route::GlobalUpdate).collect();
        assert_eq!(taken, vec![&Topic::GlobalUpdate(index)]);
    }
    assert!(Coordinator::new(0, 0, Mode::Controller, 20).broadcast_topics().is_empty());
}
