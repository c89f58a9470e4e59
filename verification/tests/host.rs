use app_lev_orc::scalar::Scalar;
use app_lev_orc::state::{ApplicationState, Coord, Request};
use app_lev_orc::host::{conclude, first_request, host_should_migrate, Outcome};

fn scalar(text: &str) -> Scalar {
    Scalar::parse(text.as_bytes()).unwrap()
}

fn request(index: usize, migratable_up_to: usize) -> Request {
    Request::new_from(index, 25, 128, migratable_up_to, 64, Coord::new(), scalar("5"), 0, 0)
}

fn node() -> ApplicationState {
    let mut state = ApplicationState::new(Coord::new(), 100, 20, scalar("1"), 1000);
    state.add_request(request(4, 2), 0);
    state.add_request(request(6, 2), 0);
    state
}

#[test]
fn host_answers_no_while_the_request_is_not_up() {
    let mut state = node();
    assert_eq!(host_should_migrate(&mut state, 4), 0);
    assert_eq!(state.get_cur_region_of_request(4), 1);
    assert_eq!(state.get_cur_region_of_request(6), 0);
}

#[test]
fn host_answers_yes_up_to_the_last_region() {
    let mut state = node();
    state.set_should_migrate_of_request(4, true);
    // Regions 1 and 2: 2 is the last region from which migrating pays.
    assert_eq!(host_should_migrate(&mut state, 4), 1);
    assert_eq!(host_should_migrate(&mut state, 4), 1);
    // Region 3 is past it.
    assert_eq!(host_should_migrate(&mut state, 4), 0);
    assert_eq!(host_should_migrate(&mut state, 4), 0);
    assert_eq!(state.get_cur_region_of_request(4), 4);
}

#[test]
fn host_answers_no_for_an_unknown_request() {
    let mut state = node();
    assert_eq!(host_should_migrate(&mut state, 5), 0);
    assert_eq!(state.get_cur_region_of_request(4), 0);
}

#[test]
fn the_server_runs_the_oldest_request() {
    let mut state = node();
    assert_eq!(first_request(&state).unwrap().index, 4);
    state.remove_request(4);
    assert_eq!(first_request(&state).unwrap().index, 6);
    state.remove_request(6);
    assert!(first_request(&state).is_none());
}

#[test]
fn a_completed_request_is_taken_out() {
    let mut state = node();
    assert!(conclude(&mut state, 4, Outcome::Completed));
    assert_eq!(state.get_number_of_requests(), 1);
    assert_eq!(state.available_memory, 936);
    assert!(state.get_request(4).is_none());
    assert!(!state.checkpoint_is_ready);
}

#[test]
fn a_failed_request_is_taken_out() {
    let mut state = node();
    assert!(conclude(&mut state, 6, Outcome::Failed));
    assert_eq!(state.get_number_of_requests(), 1);
    assert!(state.get_request(6).is_none());
    assert!(!state.checkpoint_is_ready);
}

#[test]
fn a_checkpoint_keeps_the_request_and_its_directory() {
    let mut state = node();
    assert!(!conclude(&mut state, 4, Outcome::Checkpoint));
    assert!(state.checkpoint_is_ready);
    assert_eq!(state.get_number_of_requests(), 2);
    assert_eq!(state.available_memory, 872);
    assert_eq!(state.get_request(4).unwrap().index, 4);
}

#[test]
fn a_run_that_ends_for_a_request_that_is_gone_takes_no_other_out() {
    let mut state = node();
    state.remove_request(4);
    assert!(conclude(&mut state, 4, Outcome::Completed));
    assert_eq!(state.get_number_of_requests(), 1);
    assert_eq!(state.get_request(6).unwrap().index, 6);
    let mut empty = ApplicationState::new(Coord::new(), 100, 20, scalar("1"), 1000);
    assert!(conclude(&mut empty, 4, Outcome::Failed));
    assert_eq!(empty.get_number_of_requests(), 0);
}
