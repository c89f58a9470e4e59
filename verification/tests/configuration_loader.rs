use app_lev_orc::configuration_loader::{load_requests, ConfigError, Configuration, LoadError};
use app_lev_orc::scalar::Scalar;
use app_lev_orc::state::{ApplicationState, Coord};
use app_lev_orc::text::split_lines;
use app_lev_orc::wire::ParseError;

fn lines(text: &str) -> Vec<Vec<u8>> {
    split_lines(text.as_bytes())
}

fn node() -> ApplicationState {
    ApplicationState::new(Coord::new(), 100, 20, Scalar::parse(b"1").unwrap(), 1_000_000)
}

#[test]
fn configuration_is_read_line_by_line() {
    let c = Configuration::from_lines(&lines(
        "2\n0\n192.168.1.10:8080\n[(1.5,2.5);0.5]\n3\n4\n192.168.1.12\ntrue\n",
    ))
    .unwrap();
    assert_eq!(c.node_index, 2);
    assert_eq!(c.application_index, 0);
    assert_eq!(c.node_address, b"192.168.1.10:8080".to_vec());
    assert_eq!(c.node_state.node_coords.x.as_bytes(), b"1.5");
    assert_eq!(c.node_state.node_coords.y.as_bytes(), b"2.5");
    assert_eq!(c.node_state.speedup_factor.as_bytes(), b"0.5");
    assert_eq!(c.affinity, 3);
    assert_eq!(c.node_number, 4);
    assert_eq!(c.broker_address, b"192.168.1.12".to_vec());
    assert!(c.is_controller);
}

#[test]
fn a_node_is_no_controller_unless_told() {
    let c = Configuration::from_lines(&lines("2\n0\naddr\n[(1,2);1]\n3\n4\nbroker")).unwrap();
    assert!(!c.is_controller);
    let c = Configuration::from_lines(&lines("2\n0\naddr\n[(1,2);1]\n3\n4\nbroker\nfalse")).unwrap();
    assert!(!c.is_controller);
}

#[test]
fn missing_lines_are_told() {
    let full = ["2", "0", "addr", "[(1,2);1]", "3", "4", "broker"];
    for count in 0..7usize {
        let text = full[..count].join("\n");
        assert_eq!(
            Configuration::from_lines(&lines(&text)).err(),
            Some(ConfigError::Missing { line: count }),
            "{} lines",
            count
        );
    }
}

#[test]
fn malformed_lines_are_told() {
    let cases = [
        ("x\n0\naddr\n[(1,2);1]\n3\n4\nbroker", 0usize),
        ("2\n-1\naddr\n[(1,2);1]\n3\n4\nbroker", 1),
        ("2\n0\naddr\n[(1,2);fast]\n3\n4\nbroker", 3),
        ("2\n0\naddr\n[(1,2);1]\n3.5\n4\nbroker", 4),
        ("2\n0\naddr\n[(1,2);1]\n3\n\nbroker", 5),
        ("2\n0\naddr\n[(1,2);1]\n3\n4\nbroker\nyes", 7),
        ("2\n0\naddr\n[(1,2);1]\n3\n4\nbroker\nTrue", 7),
    ];
    for (text, line) in cases {
        assert_eq!(
            Configuration::from_lines(&lines(text)).err(),
            Some(ConfigError::Malformed { line }),
            "{}",
            text
        );
    }
}

#[test]
fn the_first_fault_is_told() {
    // Line 0 is malformed and line 1 is missing.
    assert_eq!(Configuration::from_lines(&lines("x")).err(), Some(ConfigError::Malformed { line: 0 }));
    // Line 1 is malformed and line 3 as well.
    assert_eq!(
        Configuration::from_lines(&lines("2\nx\naddr\n[(a,2);1]\n3\n4\nbroker")).err(),
        Some(ConfigError::Malformed { line: 1 })
    );
}

#[test]
fn requests_are_loaded_in_the_order_of_their_lines() {
    let mut state = node();
    let text = "[0;25;128;3;64;(10,10);5;0]\n[1;10;64;3;32;(0,0);5;0]\n";
    assert_eq!(load_requests(&mut state, &lines(text), 7), Ok(()));
    assert_eq!(state.get_number_of_requests(), 2);
    assert_eq!(state.requests[0].index, 0);
    assert_eq!(state.requests[1].index, 1);
    assert_eq!(state.requests[1].arrival_time, 7);
    assert_eq!(state.available_memory, 1_000_000 - 96);
    assert_eq!(state.backlog_sum_of_c, 35);
    assert_eq!(state.requests_by_dct, vec![1, 0]);
}

#[test]
fn loading_stops_at_an_unreadable_line() {
    let mut state = node();
    let text = "[0;25;128;3;64;(10,10);5;0]\n[1;ten;64;3;32;(0,0);5;0]\n[2;10;64;3;32;(0,0);5;0]";
    assert_eq!(
        load_requests(&mut state, &lines(text), 0),
        Err(LoadError::Unreadable { line: 1, error: ParseError::Unsigned })
    );
    assert_eq!(state.get_number_of_requests(), 1);
    assert_eq!(state.requests[0].index, 0);
}

#[test]
fn loading_stops_at_a_request_that_cannot_be_added() {
    let mut state = node();
    let text = "[0;25;128;3;64;(10,10);5;0]\n[0;10;64;3;32;(0,0);5;0]";
    assert_eq!(load_requests(&mut state, &lines(text), 0), Err(LoadError::Rejected { line: 1 }));
    assert_eq!(state.get_number_of_requests(), 1);
    let mut small = ApplicationState::new(Coord::new(), 100, 20, Scalar::parse(b"1").unwrap(), 50);
    assert_eq!(load_requests(&mut small, &lines(text), 0), Err(LoadError::Rejected { line: 0 }));
    assert_eq!(small.get_number_of_requests(), 0);
}

#[test]
fn no_line_loads_nothing() {
    let mut state = node();
    assert_eq!(load_requests(&mut state, &lines(""), 0), Ok(()));
    assert_eq!(state.get_number_of_requests(), 0);
}

#[test]
fn an_empty_line_is_no_request() {
    let mut state = node();
    let text = "[0;25;128;3;64;(10,10);5;0]\n\n[1;10;64;3;32;(0,0);5;0]";
    assert_eq!(
        load_requests(&mut state, &lines(text), 0),
        Err(LoadError::Unreadable { line: 1, error: ParseError::Layout })
    );
    assert_eq!(state.get_number_of_requests(), 1);
}
