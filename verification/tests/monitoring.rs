use app_lev_orc::monitoring::{candidates, on_node_state, put_up};
use app_lev_orc::scalar::Scalar;
use app_lev_orc::state::{ApplicationState, Coord, Request};
use app_lev_orc::wire::ParseError;

fn scalar(text: &str) -> Scalar {
    Scalar::parse(text.as_bytes()).unwrap()
}

fn request(index: usize) -> Request {
    Request::new_from(index, 25, 128, 3, 64, Coord::new_from(scalar("10"), scalar("10")), scalar("5"), 0, 0)
}

fn node() -> ApplicationState {
    let mut state = ApplicationState::new(Coord::new(), 100, 20, scalar("1"), 1000);
    state.add_request(request(4), 0);
    state.add_request(request(2), 0);
    state.add_request(request(9), 0);
    state
}

#[test]
fn node_state_is_replaced() {
    let mut state = node();
    assert_eq!(on_node_state(&mut state, b"[(3.5,4);0.5]"), Ok(()));
    assert_eq!(state.node_state.node_coords.x.as_bytes(), b"3.5");
    assert_eq!(state.node_state.node_coords.y.as_bytes(), b"4");
    assert_eq!(state.node_state.speedup_factor.as_bytes(), b"0.5");
    assert_eq!(state.get_number_of_requests(), 3);
    assert_eq!(state.available_memory, 808);
}

#[test]
fn malformed_node_state_changes_nothing() {
    let mut state = node();
    on_node_state(&mut state, b"[(3.5,4);0.5]").unwrap();
    assert_eq!(on_node_state(&mut state, b"[(3.5,north);0.5]"), Err(ParseError::Real));
    assert_eq!(state.node_state.node_coords.x.as_bytes(), b"3.5");
    assert_eq!(state.node_state.speedup_factor.as_bytes(), b"0.5");
}

#[test]
fn unflagged_requests_are_candidates() {
    let mut state = node();
    assert_eq!(candidates(&state), vec![4, 2, 9]);
    state.set_should_migrate_of_request(2, true);
    assert_eq!(candidates(&state), vec![4, 9]);
    state.set_should_migrate_of_request(4, true);
    state.set_should_migrate_of_request(9, true);
    assert!(candidates(&state).is_empty());
}

#[test]
fn putting_up_sets_the_flag_and_gives_the_notice() {
    let mut state = node();
    let notice = put_up(&mut state, 1, 2).unwrap();
    assert_eq!(notice, b"1#[2;25;128;3;64;(10,10);5;0]".to_vec());
    assert!(state.get_should_migrate_of_request(2));
    assert!(!state.get_should_migrate_of_request(4));
    assert_eq!(candidates(&state), vec![4, 9]);
}

#[test]
fn putting_up_an_unknown_request_does_nothing() {
    let mut state = node();
    assert_eq!(put_up(&mut state, 1, 3), None);
    assert_eq!(candidates(&state), vec![4, 2, 9]);
}

#[test]
fn a_request_near_its_place_is_put_up_once() {
    // The node stands at (0,0); the request would best run at (10,10) and is
    // put up where the distance is under its threshold.
    let mut state = ApplicationState::new(Coord::new(), 100, 20, scalar("1"), 1000);
    state.add_request(
        Request::new_from(0, 25, 128, 3, 64, Coord::new_from(scalar("10"), scalar("10")), scalar("15"), 0, 0),
        0,
    );
    let mut published = Vec::new();
    for _activation in 0..3 {
        for index in candidates(&state) {
            let r = state.get_request(index).unwrap();
            let number = |s: &Scalar| String::from_utf8(s.as_bytes().to_vec()).unwrap().parse::<f32>().unwrap();
            let dx = number(r.desired_coord.get_x()) - number(state.node_state.node_coords.get_x());
            let dy = number(r.desired_coord.get_y()) - number(state.node_state.node_coords.get_y());
            if (dx * dx + dy * dy).sqrt() < number(&r.threshold) {
                published.push(put_up(&mut state, 0, index).unwrap());
            }
        }
    }
    assert_eq!(published, vec![b"0#[0;25;128;3;64;(10,10);15;0]".to_vec()]);
}
