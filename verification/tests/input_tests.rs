use nodp2p::input::{parse_transfer_number, trim_line};
use nodp2p::command::Command;
use nodp2p::identity::create_key;
use nodp2p::input::{classify_line, parse_input, take_transfer_id, InputAction, LineKind, MISSING_PATH, MISSING_TEXT};

fn peer_text() -> String {
    create_key().unwrap().0
}

#[test]
fn control_words() {
    assert!(matches!(parse_input("   "), InputAction::Nothing));
    assert!(matches!(parse_input("/quit"), InputAction::Quit));
    assert!(matches!(parse_input("  /q \n"), InputAction::Quit));
    assert!(matches!(parse_input("/list"), InputAction::ListPeers));
    assert!(matches!(parse_input("/l"), InputAction::ListPeers));
}

#[test]
fn other_lines_are_broadcast_trimmed() {
    match parse_input("  hello there \t") {
        InputAction::Send(Command::Broadcast(m)) => assert_eq!(m, "hello there"),
        other => panic!("unexpected {:?}", other),
    }
    assert!(matches!(parse_input("/s"), InputAction::Send(Command::Broadcast(m)) if m == "/s"));
    assert!(matches!(parse_input("/quitting"), InputAction::Send(Command::Broadcast(m)) if m == "/quitting"));
}

#[test]
fn private_message_line() {
    let p = peer_text();
    let expected: libp2p::PeerId = p.parse().unwrap();
    match parse_input(&format!("/s {} hi there", p)) {
        InputAction::Send(Command::SendPrivateText { peer, text }) => {
            assert_eq!(peer.bytes, expected.to_bytes());
            assert_eq!(text, "hi there");
        }
        other => panic!("unexpected {:?}", other),
    }
    assert!(matches!(parse_input(&format!("/s {}", p)), InputAction::Error(e) if e == MISSING_TEXT));
    assert!(matches!(parse_input("/s notapeer hello"), InputAction::Error(e) if !e.is_empty()));
}

#[test]
fn file_line() {
    let p = peer_text();
    match parse_input(&format!("/file {} ./a b.txt", p)) {
        InputAction::SendFileAt { path, .. } => assert_eq!(path, "./a b.txt"),
        other => panic!("unexpected {:?}", other),
    }
    assert!(matches!(parse_input(&format!("/file {}", p)), InputAction::Error(e) if e == MISSING_PATH));
}

#[test]
fn classify_cuts_at_first_space() {
    match classify_line("/s  x y") {
        LineKind::Private { peer_text, text } => {
            assert_eq!(peer_text, "");
            assert_eq!(text.as_deref(), Some("x y"));
        }
        other => panic!("unexpected {:?}", other),
    }
    assert!(matches!(classify_line("/file abc"), LineKind::File { peer_text, path: None } if peer_text == "abc"));
    assert!(matches!(classify_line(""), LineKind::Empty));
}

#[test]
fn transfer_ids_count_up() {
    let mut next = 0u64;
    assert_eq!(take_transfer_id(&mut next), 0);
    assert_eq!(take_transfer_id(&mut next), 1);
    assert_eq!(next, 2);
}

#[test]
fn save_line() {
    match parse_input("/save 1 my_document.pdf") {
        InputAction::SaveTransfer { transfer_id, file_name } => {
            assert_eq!(transfer_id, 1);
            assert_eq!(file_name, "my_document.pdf");
        }
        other => panic!("unexpected {:?}", other),
    }
    assert!(matches!(parse_input("/save 7"), InputAction::Error(e) if e == nodp2p::input::MISSING_NAME));
    assert!(matches!(parse_input("/save x1 a"), InputAction::Error(e) if e == nodp2p::input::BAD_TRANSFER_ID));
    assert!(matches!(parse_input("/save 18446744073709551616 a"), InputAction::Error(e) if e == nodp2p::input::BAD_TRANSFER_ID));
}

#[test]
fn transfer_numbers_are_decimal_u64() {
    assert_eq!(parse_transfer_number("0"), Some(0));
    assert_eq!(parse_transfer_number("042"), Some(42));
    assert_eq!(parse_transfer_number("18446744073709551615"), Some(u64::MAX));
    assert_eq!(parse_transfer_number("18446744073709551616"), None);
    assert_eq!(parse_transfer_number(""), None);
    assert_eq!(parse_transfer_number("-1"), None);
}

#[test]
fn trim_drops_surrounding_white_space_only() {
    assert_eq!(trim_line("  hi there \t\n"), "hi there");
    assert_eq!(trim_line("\u{3000}x\u{a0}"), "x");
    assert_eq!(trim_line(" \t "), "");
    assert_eq!(trim_line(""), "");
    assert_eq!(trim_line("a b"), "a b");
}
