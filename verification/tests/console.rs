//! Keys and the console of the client.

use eternal_terminal::backed::DeadReason;
use eternal_terminal::client::ClientDeadReason;
use eternal_terminal::console::{
    drive, key_to_bytes, size_packet, ConsoleAction, ConsoleEvent, Key,
};
use eternal_terminal::packet::Packet;
use eternal_terminal::session::{input_packet, terminal_info_packet, SessionEvent};

#[test]
fn keys_become_bytes() {
    let key = |k: Key| key_to_bytes(k, false, false);
    assert_eq!(key(Key::Char('a')), Some(b"a".to_vec()));
    assert_eq!(key(Key::Char('é')), Some("é".as_bytes().to_vec()));
    assert_eq!(key(Key::Enter), Some(b"\r".to_vec()));
    assert_eq!(key(Key::Backspace), Some(vec![0x7f]));
    assert_eq!(key(Key::Tab), Some(b"\t".to_vec()));
    assert_eq!(key(Key::BackTab), Some(b"\x1b[Z".to_vec()));
    assert_eq!(key(Key::Esc), Some(b"\x1b".to_vec()));
    assert_eq!(key(Key::Left), Some(b"\x1b[D".to_vec()));
    assert_eq!(key(Key::Right), Some(b"\x1b[C".to_vec()));
    assert_eq!(key(Key::Up), Some(b"\x1b[A".to_vec()));
    assert_eq!(key(Key::Down), Some(b"\x1b[B".to_vec()));
    assert_eq!(key(Key::Home), Some(b"\x1b[H".to_vec()));
    assert_eq!(key(Key::End), Some(b"\x1b[F".to_vec()));
    assert_eq!(key(Key::PageUp), Some(b"\x1b[5~".to_vec()));
    assert_eq!(key(Key::PageDown), Some(b"\x1b[6~".to_vec()));
    assert_eq!(key(Key::Delete), Some(b"\x1b[3~".to_vec()));
    assert_eq!(key(Key::Insert), Some(b"\x1b[2~".to_vec()));
    assert_eq!(key(Key::Other), None);
    let functions: [&[u8]; 12] = [
        b"\x1bOP", b"\x1bOQ", b"\x1bOR", b"\x1bOS", b"\x1b[15~", b"\x1b[17~", b"\x1b[18~",
        b"\x1b[19~", b"\x1b[20~", b"\x1b[21~", b"\x1b[23~", b"\x1b[24~",
    ];
    for (i, bytes) in functions.iter().enumerate() {
        assert_eq!(key(Key::F(i as u8 + 1)), Some(bytes.to_vec()));
    }
    assert_eq!(key(Key::F(0)), None);
    assert_eq!(key(Key::F(13)), None);
}

#[test]
fn control_and_alt_change_keys() {
    let ctrl = |c: char| key_to_bytes(Key::Char(c), true, false).unwrap();
    assert_eq!(ctrl('c'), vec![3]);
    assert_eq!(ctrl('Z'), vec![26]);
    assert_eq!(ctrl(' '), vec![0]);
    assert_eq!(ctrl('?'), vec![0x1f]);
    assert_eq!(ctrl('1'), vec![b'1']);
    assert_eq!(ctrl('\u{142}'), vec![0x42]);
    assert_eq!(key_to_bytes(Key::Char('x'), false, true), Some(b"\x1bx".to_vec()));
    assert_eq!(key_to_bytes(Key::Up, true, true), Some(b"\x1b\x1b[A".to_vec()));
    assert_eq!(key_to_bytes(Key::Other, false, true), Some(b"\x1b".to_vec()));
}

#[test]
fn the_console_prints_sends_and_exits() {
    let session = |event: SessionEvent| drive(ConsoleEvent::Session(Some(event)));
    let output = session(SessionEvent::TerminalBuffer(b"out".to_vec()));
    assert!(matches!(output, ConsoleAction::Print(b) if b == b"out"));
    assert!(matches!(session(SessionEvent::KeepAlive), ConsoleAction::Nothing));
    let other = SessionEvent::Other(Packet::new(9, Vec::new()));
    assert!(matches!(session(other), ConsoleAction::Nothing));
    let reason = ClientDeadReason::Other(DeadReason::Shutdown);
    assert!(matches!(
        session(SessionEvent::Dead(reason)),
        ConsoleAction::Exit { reason: Some(r) } if r == reason
    ));
    assert!(matches!(drive(ConsoleEvent::Session(None)), ConsoleAction::Exit { reason: None }));

    let key = ConsoleEvent::Key { key: Key::Up, ctrl: false, alt: false };
    assert!(matches!(drive(key), ConsoleAction::Send(p) if p == input_packet(b"\x1b[A")));
    let key = ConsoleEvent::Key { key: Key::Other, ctrl: false, alt: false };
    assert!(matches!(drive(key), ConsoleAction::Nothing));
    assert!(matches!(drive(ConsoleEvent::Other), ConsoleAction::Nothing));
    let input = ConsoleEvent::Input(Some(b"ls".to_vec()));
    assert!(matches!(drive(input), ConsoleAction::Send(p) if p == input_packet(b"ls")));
    assert!(matches!(drive(ConsoleEvent::Input(Some(Vec::new()))), ConsoleAction::Nothing));
    assert!(matches!(drive(ConsoleEvent::Input(None)), ConsoleAction::Nothing));
    let resize = ConsoleEvent::Resize { columns: 80, rows: 24 };
    assert!(matches!(drive(resize), ConsoleAction::Tell(p) if p == size_packet(80, 24)));
    assert_eq!(size_packet(80, 24), terminal_info_packet(24, 80, 0, 0));
}
