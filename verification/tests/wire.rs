use app_lev_orc::scalar::Scalar;
use app_lev_orc::state::{Coord, MessageRequest, NodeState, Request};
use app_lev_orc::wire::{notice_text, GlobalUpdate, MessageLocal, ParseError};

fn scalar(text: &str) -> Scalar {
    Scalar::parse(text.as_bytes()).unwrap()
}

fn coord(x: &str, y: &str) -> Coord {
    Coord::new_from(scalar(x), scalar(y))
}

fn sample_request() -> Request {
    Request::new_from(3, 25, 128, 4, 512, coord("10.5", "-2"), scalar("5"), 1, 77)
}

fn same_request(a: &Request, b: &Request) -> bool {
    a.index == b.index
        && a.execution_time == b.execution_time
        && a.desired_completion_time == b.desired_completion_time
        && a.migratable_up_to == b.migratable_up_to
        && a.required_memory == b.required_memory
        && a.desired_coord.x.as_bytes() == b.desired_coord.x.as_bytes()
        && a.desired_coord.y.as_bytes() == b.desired_coord.y.as_bytes()
        && a.threshold.as_bytes() == b.threshold.as_bytes()
        && a.should_migrate == b.should_migrate
        && a.current_region == b.current_region
        && a.arrival_time == b.arrival_time
}

#[test]
fn coord_is_written_between_parentheses() {
    assert_eq!(coord("1.5", "2").to_bytes(), b"(1.5,2)".to_vec());
    assert_eq!(Coord::new().to_bytes(), b"(0,0)".to_vec());
}

#[test]
fn coord_is_read() {
    let c = Coord::from_bytes(b"(1.5,2)").unwrap();
    assert_eq!(c.get_x().as_bytes(), b"1.5");
    assert_eq!(c.get_y().as_bytes(), b"2");
}

#[test]
fn coord_that_is_no_pair_in_parentheses_is_refused() {
    for text in [
        "", "()", "((", "(5)", "(1,2,3)", "1,2", "(1,2", "1,2)", "4,)(2", " (1,2)", "(1,2) ",
        "[1,2]", "(1;2)", "(,)x",
    ] {
        assert_eq!(Coord::from_bytes(text.as_bytes()).err(), Some(ParseError::Layout), "{}", text);
    }
}

#[test]
fn coord_with_a_malformed_number_is_refused() {
    for text in [
        "(a,b)", "(1,b)", "(a,1)", "(,)", "(,1)", "(1,)", "(1, 2)", "(1,(2)", "((1,2))", "(1,2))",
    ] {
        assert_eq!(Coord::from_bytes(text.as_bytes()).err(), Some(ParseError::Real), "{}", text);
    }
}

#[test]
fn coord_round_trip() {
    for (x, y) in [("0", "0"), ("-1", "-1"), ("10.5", "3e2"), ("inf", "NaN")] {
        let c = coord(x, y);
        let back = Coord::from_bytes(&c.to_bytes()).unwrap();
        assert_eq!(back.x.as_bytes(), x.as_bytes());
        assert_eq!(back.y.as_bytes(), y.as_bytes());
    }
}

#[test]
fn node_state_is_written_between_brackets() {
    let state = NodeState { node_coords: coord("1", "2"), speedup_factor: scalar("0.5") };
    assert_eq!(state.to_bytes(), b"[(1,2);0.5]".to_vec());
}

#[test]
fn node_state_is_read() {
    let state = NodeState::from_bytes(b"[(10,20.5);1.0]").unwrap();
    assert_eq!(state.get_coord().get_x().as_bytes(), b"10");
    assert_eq!(state.get_coord().get_y().as_bytes(), b"20.5");
    assert_eq!(state.get_speedup_factor().as_bytes(), b"1.0");
}

#[test]
fn node_state_that_is_no_pair_in_brackets_is_refused() {
    for text in [
        "", "[]", "][", "[5]", "[(1,2)]", "[(1,2);1;2]", "(1,2);1", "[(1,2);1", "(1,2);1]",
        "[[(1,2);1]]", "[(1,2);1];",
    ] {
        assert_eq!(NodeState::from_bytes(text.as_bytes()).err(), Some(ParseError::Layout), "{}", text);
    }
    // The position is no pair.
    for text in ["[5;1]", "[(1,2,3);1]", "[1,2;1]", "[;1]"] {
        assert_eq!(NodeState::from_bytes(text.as_bytes()).err(), Some(ParseError::Layout), "{}", text);
    }
}

#[test]
fn malformed_node_state_is_refused() {
    for text in [
        "[(1,2);fast]", "[(a,2);1]", "[(1,2);]", "[(1,2);(3,4)]", "[(1,2);[1]", "[(1,2);1]]",
    ] {
        assert_eq!(NodeState::from_bytes(text.as_bytes()).err(), Some(ParseError::Real), "{}", text);
    }
}

#[test]
fn node_state_round_trip() {
    let state = NodeState { node_coords: coord("-3.25", "8"), speedup_factor: scalar("2") };
    let back = NodeState::from_bytes(&state.to_bytes()).unwrap();
    assert_eq!(back.node_coords.x.as_bytes(), b"-3.25");
    assert_eq!(back.node_coords.y.as_bytes(), b"8");
    assert_eq!(back.speedup_factor.as_bytes(), b"2");
}

#[test]
fn request_is_written_in_the_order_of_its_fields() {
    assert_eq!(sample_request().to_bytes(), b"[3;25;128;4;512;(10.5,-2);5;1]".to_vec());
}

#[test]
fn request_is_read() {
    let r = Request::from_bytes(b"[0;25;128;3;64;(10.0,10.0);5.0;2]", 1234).unwrap();
    assert_eq!(r.get_index(), 0);
    assert_eq!(r.get_execution_time(), 25);
    assert_eq!(r.desired_completion_time, 128);
    assert_eq!(r.migratable_up_to, 3);
    assert_eq!(r.required_memory, 64);
    assert_eq!(r.get_desired_coord().get_x().as_bytes(), b"10.0");
    assert_eq!(r.get_desired_coord().get_y().as_bytes(), b"10.0");
    assert_eq!(r.threshold.as_bytes(), b"5.0");
    assert_eq!(r.current_region, 2);
    assert!(!r.get_should_migrate());
    assert_eq!(r.arrival_time, 1234);
}

#[test]
fn request_without_eight_fields_in_brackets_is_refused() {
    for text in [
        "",
        "[]",
        "[1;2;3]",
        "[1;2;3;4;5;(6,7);8]",
        "[1;2;3;4;5;(6,7);8;9;10]",
        "[1;2;3;4;5;(6,7);8;9;]",
        "1;2;3;4;5;(6,7);8;9",
        "[1;2;3;4;5;(6,7);8;9",
        "1;2;3;4;5;(6,7);8;9]",
        "[1;2;3;4;5;(6,7);8;9]\n",
        "(1;2;3;4;5;(6,7);8;9)",
    ] {
        assert_eq!(Request::from_bytes(text.as_bytes(), 9).err(), Some(ParseError::Layout), "{}", text);
    }
}

#[test]
fn request_with_a_malformed_number_is_refused() {
    for text in [
        "[x;2;3;4;5;(6,7);8;9]",
        "[1;-2;3;4;5;(6,7);8;9]",
        "[1;2;3.5;4;5;(6,7);8;9]",
        "[1;2;3;;5;(6,7);8;9]",
        "[1;2;3;4;4294967296;(6,7);8;9]",
        "[1;2;3;4;5;(6,7);8;nine]",
    ] {
        assert_eq!(Request::from_bytes(text.as_bytes(), 0).err(), Some(ParseError::Unsigned), "{}", text);
    }
    for text in ["[1;2;3;4;5;(six,7);8;9]", "[1;2;3;4;5;(6,7);eight;9]", "[1;2;3;4;5;(6,7);;9]"] {
        assert_eq!(Request::from_bytes(text.as_bytes(), 0).err(), Some(ParseError::Real), "{}", text);
    }
    // A bracket that is not the first or the last byte is part of a field.
    assert_eq!(Request::from_bytes(b"[[1;2;3;4;5;(6,7);8;9]]", 0).err(), Some(ParseError::Unsigned));
    assert_eq!(Request::from_bytes(b"[1;2;3;4;5;(6,7);8;9]]", 0).err(), Some(ParseError::Unsigned));
    // A position that is no pair.
    assert_eq!(Request::from_bytes(b"[1;2;3;4;5;(6);8;9]", 0).err(), Some(ParseError::Layout));
    assert_eq!(Request::from_bytes(b"[1;2;3;4;5;6,7;8;9]", 0).err(), Some(ParseError::Layout));
}

#[test]
fn request_errors_come_in_the_order_of_the_fields() {
    // A bad integer among the first five fields is reported before a bad
    // position, and a bad position before a bad region.
    assert_eq!(Request::from_bytes(b"[1;2;3;4;x;(a,7);8;9]", 0).err(), Some(ParseError::Unsigned));
    assert_eq!(Request::from_bytes(b"[1;2;3;4;5;(a,7);8;x]", 0).err(), Some(ParseError::Real));
    assert_eq!(Request::from_bytes(b"[1;2;3;4;5;(6,7);a;x]", 0).err(), Some(ParseError::Real));
}

#[test]
fn request_round_trip() {
    let r = sample_request();
    let back = Request::from_bytes(&r.to_bytes(), r.arrival_time).unwrap();
    assert!(same_request(&r, &back));
}

#[test]
fn request_text_forgets_the_flag_and_the_arrival() {
    let mut r = sample_request();
    r.set_should_migrate(true);
    let back = Request::from_bytes(&r.to_bytes(), 5).unwrap();
    assert!(!back.should_migrate);
    assert_eq!(back.arrival_time, 5);
}

#[test]
fn message_request_is_written_behind_its_sender() {
    let m = MessageRequest::new(2, sample_request());
    assert_eq!(m.to_bytes(), b"2#[3;25;128;4;512;(10.5,-2);5;1]".to_vec());
    assert_eq!(notice_text(2, &sample_request()), m.to_bytes());
}

#[test]
fn message_request_round_trip() {
    let m = MessageRequest::new(7, sample_request());
    let back = MessageRequest::from_bytes(&m.to_bytes(), 77).unwrap();
    assert_eq!(back.get_src(), 7);
    assert!(same_request(back.get_request(), &sample_request()));
}

#[test]
fn message_request_errors() {
    for text in ["", "5", "1#[1;2;3;4;5;(6,7);8;9]#", "1#2#[1;2;3;4;5;(6,7);8;9]", "[1;2;3;4;5;(6,7);8;9]"] {
        assert_eq!(MessageRequest::from_bytes(text.as_bytes(), 0).err(), Some(ParseError::Layout), "{}", text);
    }
    assert_eq!(MessageRequest::from_bytes(b"1#[1;2;3]", 0).err(), Some(ParseError::Layout));
    assert_eq!(MessageRequest::from_bytes(b"#[1;2;3;4;5;(6,7);8;9]", 0).err(), Some(ParseError::Unsigned));
    assert_eq!(MessageRequest::from_bytes(b"x#[1;2;3;4;5;(6,7);8;9]", 0).err(), Some(ParseError::Unsigned));
    assert_eq!(MessageRequest::from_bytes(b"1#[1;2;3;4;5;(6,7);8;x]", 0).err(), Some(ParseError::Unsigned));
    assert_eq!(MessageRequest::from_bytes(b"1#[1;2;3;4;5;(6,y);8;9]", 0).err(), Some(ParseError::Real));
}

#[test]
fn message_local_round_trip() {
    let m = MessageLocal { src: 1, local_sum: scalar("0.33333334") };
    assert_eq!(m.to_bytes(), b"1#0.33333334".to_vec());
    let back = MessageLocal::from_bytes(&m.to_bytes()).unwrap();
    assert_eq!(back.src, 1);
    assert_eq!(back.local_sum.as_bytes(), b"0.33333334");
}

#[test]
fn message_local_errors() {
    for text in ["", "1", "1#", "#", "1#2#3", "1##2", "1#junk#2.5"] {
        let expected = match text {
            "1#" => ParseError::Real,
            "#" => ParseError::Unsigned,
            _ => ParseError::Layout,
        };
        assert_eq!(MessageLocal::from_bytes(text.as_bytes()).err(), Some(expected), "{}", text);
    }
    assert_eq!(MessageLocal::from_bytes(b"a#1").err(), Some(ParseError::Unsigned));
    assert_eq!(MessageLocal::from_bytes(b"-1#1").err(), Some(ParseError::Unsigned));
    assert_eq!(MessageLocal::from_bytes(b"1#a").err(), Some(ParseError::Real));
    assert_eq!(MessageLocal::from_bytes(b"1# 1").err(), Some(ParseError::Real));
}

#[test]
fn global_update_round_trip() {
    let update = GlobalUpdate::Update(scalar("-0.25"));
    assert_eq!(update.to_bytes(), b"update--0.25".to_vec());
    match GlobalUpdate::from_bytes(b"update--0.25").unwrap() {
        GlobalUpdate::Update(z) => assert_eq!(z.as_bytes(), b"-0.25"),
        GlobalUpdate::Dest(_) => panic!("an update was read as a destination"),
    }
    let dest = GlobalUpdate::Dest(3);
    assert_eq!(dest.to_bytes(), b"dest-3".to_vec());
    match GlobalUpdate::from_bytes(b"dest-3").unwrap() {
        GlobalUpdate::Dest(d) => assert_eq!(d, 3),
        GlobalUpdate::Update(_) => panic!("a destination was read as an update"),
    }
}

#[test]
fn global_update_errors() {
    assert_eq!(GlobalUpdate::from_bytes(b"update-").err(), Some(ParseError::Real));
    assert_eq!(GlobalUpdate::from_bytes(b"update-x").err(), Some(ParseError::Real));
    assert_eq!(GlobalUpdate::from_bytes(b"dest-").err(), Some(ParseError::Unsigned));
    assert_eq!(GlobalUpdate::from_bytes(b"dest--1").err(), Some(ParseError::Unsigned));
    assert_eq!(GlobalUpdate::from_bytes(b"dest-1.5").err(), Some(ParseError::Unsigned));
    assert_eq!(GlobalUpdate::from_bytes(b"").err(), Some(ParseError::Keyword));
    assert_eq!(GlobalUpdate::from_bytes(b"update").err(), Some(ParseError::Keyword));
    assert_eq!(GlobalUpdate::from_bytes(b"stop-1").err(), Some(ParseError::Keyword));
}

#[test]
fn displayed_floats_travel_unchanged() {
    for value in [0.0f32, 1.0, 0.33333334, -2.5, 20.0, f32::MAX] {
        let text = format!("{}", value);
        let m = MessageLocal { src: 0, local_sum: scalar(&text) };
        let back = MessageLocal::from_bytes(&m.to_bytes()).unwrap();
        let read: f32 = String::from_utf8(back.local_sum.as_bytes().to_vec()).unwrap().parse().unwrap();
        assert_eq!(read, value);
    }
}
