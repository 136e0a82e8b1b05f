use ph::line::{finish_line, line_from_bytes};
use ph::message::{Evt, Msg};
use ph::name::name_ok;
use ph::room::{Room, RoomError};
use ph::session::{lag_text, reject_text, welcome_text, Action, Input, Phase, Session};

fn arrive(room: &mut Room, id: usize, name: &str) -> Vec<Msg> {
    room.step(Evt::Arrive { id, name: name.to_string() }).unwrap()
}

/// What a client `me` would write out of the published messages.
fn seen_by(msgs: &[Msg], me: usize) -> Vec<String> {
    msgs.iter().filter_map(|m| m.text_for(me)).collect()
}

fn roster_for(msgs: &[Msg], me: usize) -> String {
    match &msgs[1] {
        Msg::One { id, text } => {
            assert_eq!(*id, me);
            text.clone()
        }
        Msg::All { .. } => panic!("roster must go to the newcomer only"),
    }
}

#[test]
fn roster_lists_earlier_members_in_join_order() {
    let mut room = Room::new();
    arrive(&mut room, 0, "alice");
    arrive(&mut room, 1, "bob");
    let out = arrive(&mut room, 2, "carol");
    assert_eq!(roster_for(&out, 2), "Also here: alice, bob\n");
}

#[test]
fn roster_follows_arrival_not_connection_order() {
    let mut room = Room::new();
    arrive(&mut room, 5, "late");
    arrive(&mut room, 3, "early");
    let out = arrive(&mut room, 9, "third");
    assert_eq!(roster_for(&out, 9), "Also here: late, early\n");
}

#[test]
fn first_member_gets_empty_roster() {
    let mut session = Session::new(0);
    let act = session.step(Input::Line("bob123\n".to_string()));
    let evt = match act {
        Action::Join(evt) => evt,
        other => panic!("unexpected {:?}", other),
    };
    assert_eq!(session.phase, Phase::Active);
    let mut room = Room::new();
    let out = room.step(evt).unwrap();
    assert_eq!(out.len(), 2);
    match &out[0] {
        Msg::All { id, text } => {
            assert_eq!(*id, 0);
            assert_eq!(text, "bob123 joins.\n");
        }
        Msg::One { .. } => panic!("join must be a broadcast"),
    }
    assert_eq!(roster_for(&out, 0), "Also here: \n");
    assert_eq!(seen_by(&out, 0), vec!["Also here: \n".to_string()]);
}

#[test]
fn invalid_names_are_refused() {
    for bad in ["\n", "   \n", "bob smith\n", "bob!\n", "caf\u{e9}\n", "\u{661}\n", "a_b\n"] {
        let mut session = Session::new(4);
        match session.step(Input::Line(bad.to_string())) {
            Action::Refuse(text) => assert_eq!(text, reject_text()),
            other => panic!("{:?} gave {:?}", bad, other),
        }
        assert_eq!(session.phase, Phase::Closing);
        assert!(matches!(session.step(Input::Line("hi\n".to_string())), Action::Ignore));
        assert!(matches!(session.step(Input::ReadEnded), Action::Ignore));
    }
}

#[test]
fn names_are_trimmed() {
    let mut session = Session::new(1);
    match session.step(Input::Line("  Zed9 \r\n".to_string())) {
        Action::Join(Evt::Arrive { id, name }) => {
            assert_eq!(id, 1);
            assert_eq!(name, "Zed9");
        }
        other => panic!("unexpected {:?}", other),
    }
}

#[test]
fn name_validity() {
    assert!(name_ok("a"));
    assert!(name_ok("Bob123"));
    assert!(!name_ok(""));
    assert!(!name_ok("a b"));
    assert!(!name_ok("a.b"));
    assert!(!name_ok("\u{e9}t\u{e9}"));
}

#[test]
fn text_reaches_others_but_not_sender() {
    let mut room = Room::new();
    arrive(&mut room, 0, "Alice");
    arrive(&mut room, 1, "Bob");
    arrive(&mut room, 2, "Carol");
    let out = room.step(Evt::Text { id: 0, text: "hello there\n".to_string() }).unwrap();
    assert_eq!(seen_by(&out, 1), vec!["[Alice] hello there\n".to_string()]);
    assert_eq!(seen_by(&out, 2), vec!["[Alice] hello there\n".to_string()]);
    assert!(seen_by(&out, 0).is_empty());
}

#[test]
fn departure_is_announced_and_forgotten() {
    let mut room = Room::new();
    arrive(&mut room, 0, "alice");
    arrive(&mut room, 1, "bob");
    arrive(&mut room, 2, "carol");
    let out = room.step(Evt::Leave(1)).unwrap();
    assert_eq!(seen_by(&out, 0), vec!["bob leaves.\n".to_string()]);
    assert_eq!(seen_by(&out, 2), vec!["bob leaves.\n".to_string()]);
    assert!(seen_by(&out, 1).is_empty());
    let out = arrive(&mut room, 3, "dave");
    assert_eq!(roster_for(&out, 3), "Also here: alice, carol\n");
}

#[test]
fn last_member_leaving_is_fine() {
    let mut room = Room::new();
    arrive(&mut room, 0, "solo");
    let out = room.step(Evt::Leave(0)).unwrap();
    assert!(seen_by(&out, 0).is_empty());
    let out = arrive(&mut room, 1, "next");
    assert_eq!(roster_for(&out, 1), "Also here: \n");
}

#[test]
fn duplicate_names_are_permitted() {
    let mut room = Room::new();
    arrive(&mut room, 0, "twin");
    arrive(&mut room, 1, "twin");
    let out = arrive(&mut room, 2, "other");
    assert_eq!(roster_for(&out, 2), "Also here: twin, twin\n");
}

#[test]
fn events_for_unknown_members_are_errors() {
    let mut room = Room::new();
    assert_eq!(room.step(Evt::Leave(7)).unwrap_err(), RoomError::Unknown(7));
    assert_eq!(
        room.step(Evt::Text { id: 7, text: "x\n".to_string() }).unwrap_err(),
        RoomError::Unknown(7)
    );
    arrive(&mut room, 7, "seven");
    assert_eq!(
        room.step(Evt::Arrive { id: 7, name: "again".to_string() }).unwrap_err(),
        RoomError::AlreadyPresent(7)
    );
    room.step(Evt::Leave(7)).unwrap();
    assert_eq!(room.step(Evt::Leave(7)).unwrap_err(), RoomError::Unknown(7));
}

fn active(id: usize) -> Session {
    let mut s = Session::new(id);
    assert!(matches!(s.step(Input::Line("me\n".to_string())), Action::Join(_)));
    s
}

#[test]
fn lag_gives_warning_and_keeps_session() {
    let mut s = active(3);
    match s.step(Input::Lagged) {
        Action::Write(text) => assert_eq!(text, lag_text()),
        other => panic!("unexpected {:?}", other),
    }
    assert_eq!(s.phase, Phase::Active);
}

#[test]
fn session_filters_deliveries() {
    let mut s = active(3);
    let all_but_me = Msg::All { id: 3, text: "x\n".to_string() };
    let all_but_other = Msg::All { id: 4, text: "y\n".to_string() };
    let only_me = Msg::One { id: 3, text: "z\n".to_string() };
    let only_other = Msg::One { id: 4, text: "w\n".to_string() };
    assert!(matches!(s.step(Input::Delivered(all_but_me)), Action::Ignore));
    assert!(matches!(s.step(Input::Delivered(only_other)), Action::Ignore));
    match s.step(Input::Delivered(all_but_other)) {
        Action::Write(t) => assert_eq!(t, "y\n"),
        other => panic!("unexpected {:?}", other),
    }
    match s.step(Input::Delivered(only_me)) {
        Action::Write(t) => assert_eq!(t, "z\n"),
        other => panic!("unexpected {:?}", other),
    }
}

#[test]
fn session_forwards_lines_and_departs() {
    let mut s = active(2);
    match s.step(Input::Line("hi all\n".to_string())) {
        Action::Forward(Evt::Text { id, text }) => {
            assert_eq!(id, 2);
            assert_eq!(text, "hi all\n");
        }
        other => panic!("unexpected {:?}", other),
    }
    assert!(matches!(s.step(Input::ReadEnded), Action::Close(Some(Evt::Leave(2)))));
    assert_eq!(s.phase, Phase::Closing);
}

#[test]
fn session_closing_paths() {
    let mut s = Session::new(0);
    assert!(matches!(s.step(Input::ReadEnded), Action::Close(None)));
    let mut s = active(1);
    assert!(matches!(s.step(Input::WriteFailed), Action::Close(Some(Evt::Leave(1)))));
    let mut s = active(1);
    assert!(matches!(s.step(Input::BusClosed), Action::Close(Some(Evt::Leave(1)))));
    let mut s = Session::new(5);
    assert!(matches!(s.step(Input::WriteFailed), Action::Close(None)));
}

#[test]
fn fixed_lines() {
    assert_eq!(welcome_text(), "Welcome. Please enter the name you'd like to use.\n");
    assert_eq!(reject_text(), "Your name must consist of one or more alphanumeric characters.\n");
    assert_eq!(lag_text(), "Your connection has lagged and dropped messages.\n");
}

#[test]
fn lines_get_terminators() {
    assert_eq!(finish_line("abc".to_string()), "abc\n");
    assert_eq!(finish_line("abc\n".to_string()), "abc\n");
    assert_eq!(finish_line(String::new()), "\n");
    assert_eq!(line_from_bytes(b"last words"), "last words\n");
    assert_eq!(line_from_bytes(b"ok\n"), "ok\n");
    assert_eq!(line_from_bytes(&[b'a', 0xff, b'\n']), "a\u{fffd}\n");
}

#[test]
fn unicode_white_space_is_trimmed() {
    let mut session = Session::new(6);
    match session.step(Input::Line("\u{3000}\u{85}bob123\u{a0}\t\n".to_string())) {
        Action::Join(Evt::Arrive { name, .. }) => assert_eq!(name, "bob123"),
        other => panic!("unexpected {:?}", other),
    }
}

#[test]
fn ascii_lines_decode_to_themselves() {
    let bytes = b"Hello, [room] 123 ~!\n";
    assert_eq!(line_from_bytes(bytes).as_bytes(), &bytes[..]);
}

#[test]
fn departed_member_stays_out_after_other_events() {
    let mut room = Room::new();
    arrive(&mut room, 0, "bob");
    arrive(&mut room, 1, "bob");
    arrive(&mut room, 2, "carol");
    room.step(Evt::Leave(0)).unwrap();
    room.step(Evt::Text { id: 1, text: "hi\n".to_string() }).unwrap();
    arrive(&mut room, 3, "dave");
    room.step(Evt::Leave(3)).unwrap();
    let out = arrive(&mut room, 4, "erin");
    assert_eq!(roster_for(&out, 4), "Also here: bob, carol\n");
}
