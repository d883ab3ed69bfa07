use rmud::session::{handle_event, next_action, parse_input, SessionAction};
use rmud::canvas::Canvas;
use rmud::telnet::{character_mode_request, get_telnet_size, window_size_request, HandshakeError};
use rmud::term::{clear_screen, restore_screen};
use rmud::world::{RoomEvent, UserInput};

#[test]
fn window_size_from_trailer() {
    let reply = [255u8, 250, 31, 0, 80, 0, 24, 255, 240];
    assert_eq!(get_telnet_size(&reply), Ok((80, 24)));
}

#[test]
fn window_size_after_other_replies() {
    let reply = [255u8, 251, 31, 255, 250, 31, 1, 2, 0, 40, 255, 240, 255, 252, 1];
    assert_eq!(get_telnet_size(&reply), Ok((258, 40)));
}

#[test]
fn window_size_missing_or_zero_fails() {
    assert_eq!(get_telnet_size(&[]), Err(HandshakeError::NegotiationFailure));
    assert_eq!(get_telnet_size(&[255, 250, 31, 0, 80, 0, 24, 255]), Err(HandshakeError::NegotiationFailure));
    assert_eq!(get_telnet_size(&[1, 2, 3, 4, 5, 6, 7, 8, 9, 10]), Err(HandshakeError::NegotiationFailure));
    assert_eq!(get_telnet_size(&[255, 250, 31, 0, 0, 0, 24, 255, 240]), Err(HandshakeError::NegotiationFailure));
}

#[test]
fn negotiation_requests() {
    assert_eq!(character_mode_request(), vec![255, 253, 34, 255, 250, 34, 1, 0, 255, 240, 255, 251, 1]);
    assert_eq!(window_size_request(), vec![255, 253, 31]);
}

#[test]
fn screen_setup_and_teardown() {
    assert_eq!(clear_screen(), b"\x1b[?1049h\x1b[?25l\x1b[1;1H".to_vec());
    assert_eq!(restore_screen(), b"\x1b[?1049l\x1b[?25h".to_vec());
}

#[test]
fn input_alphabet() {
    assert_eq!(parse_input(b"\x1b"), Some(UserInput::Quit));
    assert_eq!(parse_input(b"w"), Some(UserInput::MoveUp));
    assert_eq!(parse_input(b"a"), Some(UserInput::MoveLeft));
    assert_eq!(parse_input(b"s"), Some(UserInput::MoveDown));
    assert_eq!(parse_input(b"d"), Some(UserInput::MoveRight));
    assert_eq!(parse_input(b"x"), None);
    assert_eq!(parse_input(b"ww"), None);
    assert_eq!(parse_input(b""), None);
}

#[test]
fn room_event_marks_peers() {
    let mut canvas = Canvas::new(4, 3);
    let out = handle_event(&RoomEvent::PeerMoved(vec![(1, 2)]), &mut canvas);
    let on = b"\x1b[3;2H\x1b[39m\x1b[49m\x1b[22m@".to_vec();
    let off = b"\x1b[3;2H\x1b[m\x1b[m\x1b[22m@".to_vec();
    assert!(out == on || out == off);
    let out = handle_event(&RoomEvent::PeerMoved(vec![(0, 0)]), &mut canvas);
    let on = b"\x1b[1;1H\x1b[39m\x1b[49m\x1b[22m@\x1b[3;2H\x1b[39m\x1b[49m\x1b[22m ".to_vec();
    let off = b"\x1b[1;1H\x1b[m\x1b[m\x1b[22m@\x1b[3;2H\x1b[m\x1b[m\x1b[22m ".to_vec();
    assert!(out == on || out == off);
    let out = handle_event(&RoomEvent::PeerMoved(vec![(0, 0)]), &mut canvas);
    assert!(out.is_empty());
}

#[test]
fn session_decides_on_reads() {
    assert_eq!(next_action(None), SessionAction::Leave);
    assert_eq!(next_action(Some(b"\x1b")), SessionAction::Leave);
    assert_eq!(next_action(Some(b"d")), SessionAction::Act(UserInput::MoveRight));
    assert_eq!(next_action(Some(b"s")), SessionAction::Act(UserInput::MoveDown));
    assert_eq!(next_action(Some(b"hello")), SessionAction::Ignore);
}
