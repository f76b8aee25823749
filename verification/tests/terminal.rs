//! The terminal: credentials, environment and loop.

use eternal_terminal::env::EnvMap;
use eternal_terminal::error::ServerError;
use eternal_terminal::framing::{read_packet_frame, FrameError, IoFailure};
use eternal_terminal::messages::{TermInit, TerminalBuffer, TerminalInfo};
use eternal_terminal::ids::RandomError;
use eternal_terminal::packet::Packet;
use eternal_terminal::server::registration;
use eternal_terminal::ssh::{etterminal_command, parse_idpasskey_output, TerminalCommandOptions};
use eternal_terminal::terminal::{
    announcement, choose_shell, default_term, expected_payload, given_idpasskey, parse_handshake,
    plan_shell, read_typed_frame, resolve_idpasskey, session_environment, settle, start_size,
    LoopAction, ShellPlan, Startup, StartupAction, StartupInput,
    TerminalLoop, TerminalOptions, TypedFrame, TypedIo, WindowSize, MAX_PENDING_INPUT,
};
use eternal_terminal::{terminal_packet_type, DEFAULT_MAX_PROTO_LENGTH};

fn words<T>(res: Result<T, ServerError>) -> String {
    match res {
        Ok(_) => panic!("expected an error"),
        Err(e) => e.message(),
    }
}

#[test]
fn the_line_of_a_client_is_read() {
    assert_eq!(
        parse_handshake("id/key_xterm_256\r\n\n"),
        Ok(("id".into(), "key".into(), "xterm_256".into()))
    );
    assert_eq!(
        words(parse_handshake("id/key")),
        "invalid stdin handshake: expected '<id>/<passkey>_<TERM>'"
    );
    assert_eq!(words(parse_handshake("idkey_t")), "invalid stdin handshake: missing '/'");
    let command = etterminal_command("abc", "def", "vt", &TerminalCommandOptions::default());
    let line = command.split('\'').nth(1).unwrap();
    assert_eq!(parse_handshake(line), Ok(("abc".into(), "def".into(), "vt".into())));
}

#[test]
fn credentials_stand_unless_made_up() {
    let explicit = Some(("id".to_string(), "key".to_string()));
    assert_eq!(
        resolve_idpasskey(explicit, "", "vt100".into()),
        Ok(("id".into(), "key".into(), "vt100".into()))
    );
    assert_eq!(
        resolve_idpasskey(None, "id/key_t\n", "vt100".into()),
        Ok(("id".into(), "key".into(), "t".into()))
    );
    let (id, passkey, term) = resolve_idpasskey(None, "XXXabc/key_t", "vt100".into()).unwrap();
    assert_eq!((id.len(), passkey.len(), term.as_str()), (16, 32, "t"));
    assert_ne!(passkey, "key");
    assert!(resolve_idpasskey(None, "nothing", "t".into()).is_err());
    let said = announcement(&id, &passkey);
    let read = parse_idpasskey_output(&said).unwrap();
    assert_eq!((read.id.as_str(), read.passkey.as_str()), (id.as_str(), passkey.as_str()));
}

#[test]
fn what_was_drawn_settles_the_credentials() {
    let pair = |a: &str, b: &str| (a.to_string(), b.to_string());
    let settled = |drawn| settle("i".into(), "p".into(), drawn);
    assert_eq!(settled(Ok(None)), Ok(pair("i", "p")));
    assert_eq!(settled(Ok(Some(pair("x", "y")))), Ok(pair("x", "y")));
    assert_eq!(words(settled(Err(RandomError::Unavailable))), "system randomness unavailable");
    assert_eq!(
        given_idpasskey(Some(pair("XXXi", "p")), "", "t".into()),
        Ok(("XXXi".into(), "p".into(), "t".into()))
    );
    assert_eq!(
        given_idpasskey(None, "XXXi/p_u\n", "t".into()),
        Ok(("XXXi".into(), "p".into(), "u".into()))
    );
    assert_eq!(
        words(given_idpasskey(None, "i_t", "t".into())),
        "invalid stdin handshake: missing '/'"
    );
}

#[test]
fn defaults_come_from_the_environment() {
    assert_eq!(default_term(Some("a".into()), Some("b".into())), "a");
    assert_eq!(default_term(None, Some("b".into())), "b");
    assert_eq!(default_term(None, None), "xterm-256color");
    assert_eq!(choose_shell(Some("a".into()), None), "a");
    assert_eq!(choose_shell(None, Some("b".into())), "b");
    assert_eq!(choose_shell(None, None), "/bin/sh");
}

#[test]
fn the_packet_that_is_due_is_taken() {
    assert_eq!(expected_payload(Packet::new(9, b"p".to_vec()), 9), Ok(b"p".to_vec()));
    assert_eq!(
        words(expected_payload(Packet::new(10, Vec::new()), 9)),
        "expected packet header 9, got 10"
    );
}

#[test]
fn names_and_values_pair_up() {
    let init = TermInit {
        environmentnames: vec!["B".into(), "A".into(), "B".into(), "spare".into()],
        environmentvalues: vec!["1".into(), "2".into(), "3".into()],
    };
    let (env, term) = session_environment(&init.encode_to_vec(), "own".into()).unwrap();
    assert_eq!(term, "own");
    assert_eq!(env.len(), 2);
    assert_eq!((env.get("A"), env.get("B")), (Some("2"), Some("3")));
    assert_eq!(
        words(session_environment(&[0xff], "t".into())),
        "bad TermInit: unexpected end of buffer"
    );
}

#[test]
fn a_shell_gets_its_environment_and_place() {
    let mut session = EnvMap::new();
    session.insert("LANG".into(), "C".into());
    session.insert("HOME".into(), "/theirs".into());
    let vars = |plan: ShellPlan| {
        let env = plan.env;
        let all: Vec<(String, String)> =
            (0..env.len()).map(|i| (env.name(i).into(), env.value(i).into())).collect();
        (all, plan.dir)
    };
    let pair = |k: &str, v: &str| (k.to_string(), v.to_string());
    assert_eq!(
        vars(plan_shell("vt", "1.2", &session, None, Some("/home/u"))),
        (
            vec![
                pair("ET_VERSION", "rust-1.2"),
                pair("HOME", "/theirs"),
                pair("LANG", "C"),
                pair("TERM", "vt"),
            ],
            "/home/u".to_string()
        )
    );
    let empty = EnvMap::new();
    let (env, dir) = vars(plan_shell("vt", "1", &empty, Some("/asked"), Some("/home/u")));
    assert_eq!((&env[1], dir.as_str()), (&pair("HOME", "/asked"), "/asked"));
    let (env, dir) = vars(plan_shell("vt", "1", &empty, None, None));
    assert_eq!((&env[1], dir.as_str()), (&pair("HOME", ""), "/"));
    assert_eq!(start_size(), WindowSize { rows: 24, columns: 80, width: 0, height: 0 });
}

#[test]
fn frames_of_the_server_are_understood() {
    let frame = |packet_type: u8, message: Vec<u8>| {
        read_typed_frame(TypedIo::Frame { packet_type, message })
    };
    let tb = TerminalBuffer { buffer: Some(b"in".to_vec()) }.encode_to_vec();
    assert!(matches!(
        frame(terminal_packet_type::TERMINAL_BUFFER, tb),
        Ok(TypedFrame::TerminalBuffer(b)) if b == b"in"
    ));
    let ti = TerminalInfo { row: Some(1), ..Default::default() };
    assert!(matches!(
        frame(terminal_packet_type::TERMINAL_INFO, ti.encode_to_vec()),
        Ok(TypedFrame::TerminalInfo(i)) if i == ti
    ));
    assert!(matches!(frame(terminal_packet_type::TERMINAL_INIT, vec![0xff]), Ok(TypedFrame::Ignored)));
    assert_eq!(words(frame(1, vec![0xff])), "bad TerminalBuffer: unexpected end of buffer");
    assert_eq!(
        words(frame(2, vec![0x0a, 0x01, 0xff])),
        "bad TerminalInfo: invalid UTF-8 in string field"
    );
    let eof = IoFailure { unexpected_eof: true, message: "eof".into() };
    assert!(matches!(read_typed_frame(TypedIo::NoType(eof)), Ok(TypedFrame::Eof)));
    let reset = IoFailure { unexpected_eof: false, message: "reset".into() };
    assert_eq!(words(read_typed_frame(TypedIo::NoType(reset.clone()))), "io: reset");
    assert_eq!(words(read_typed_frame(TypedIo::NoMessage(FrameError::Io(reset)))), "io: reset");
    assert_eq!(words(read_typed_frame(TypedIo::NoMessage(FrameError::Closed))), "connection closed");
}

#[test]
fn input_waits_and_none_is_lost() {
    let mut lp = TerminalLoop::new();
    assert!(lp.wants_frames());
    let big = vec![7u8; MAX_PENDING_INPUT - 1];
    assert!(matches!(lp.on_frame(TypedFrame::TerminalBuffer(big)), LoopAction::Nothing));
    assert!(lp.wants_frames());
    assert!(matches!(lp.on_frame(TypedFrame::TerminalBuffer(b"xyz".to_vec())), LoopAction::Nothing));
    assert!(!lp.wants_frames(), "a full buffer stops the reading");
    assert_eq!(lp.pending().len(), MAX_PENDING_INPUT + 2);
    assert!(matches!(lp.on_written(Some(MAX_PENDING_INPUT)), LoopAction::Nothing));
    assert_eq!(lp.pending(), b"yz");
    assert!(lp.wants_frames());
    assert!(matches!(lp.on_written(None), LoopAction::Stop { shell_exited: true }));
}

#[test]
fn the_loop_resizes_sends_and_stops() {
    let mut lp = TerminalLoop::new();
    let info = TerminalInfo {
        id: None,
        row: Some(24),
        column: Some(65537),
        width: Some(-1),
        height: None,
    };
    assert!(matches!(
        lp.on_frame(TypedFrame::TerminalInfo(info)),
        LoopAction::Resize(WindowSize { rows: 24, columns: 1, width: 65535, height: 0 })
    ));
    assert!(matches!(lp.on_frame(TypedFrame::Ignored), LoopAction::Nothing));
    assert!(matches!(lp.on_frame(TypedFrame::Eof), LoopAction::Stop { shell_exited: false }));
    assert!(matches!(lp.on_output(Some(b"o".to_vec())), LoopAction::Send(b) if b == b"o"));
    assert!(matches!(lp.on_output(Some(Vec::new())), LoopAction::Stop { shell_exited: true }));
    assert!(matches!(lp.on_output(None), LoopAction::Stop { shell_exited: true }));
}

fn options(jump: bool, dsthost: &str, dstport: u16) -> TerminalOptions {
    TerminalOptions { jump, dsthost: dsthost.into(), dstport, ..Default::default() }
}

/// A terminal that has told its credentials, and what it asks for then.
fn announced(opts: TerminalOptions) -> (Startup, StartupAction) {
    let (mut startup, bytes) = Startup::new(opts, "i".into(), "p".into(), "vt".into(), 7, 8);
    let (packet, used) = read_packet_frame(&bytes, DEFAULT_MAX_PROTO_LENGTH).unwrap();
    assert_eq!(used, bytes.len());
    let r = registration(&packet).unwrap();
    assert_eq!((r.id.as_str(), r.passkey.as_str(), r.uid, r.gid), ("i", "p", 7, 8));
    match startup.step(StartupInput::Registered(Ok(()))) {
        StartupAction::Announce(line) => assert_eq!(line, "IDPASSKEY:i/p"),
        _ => panic!("the credentials must be told"),
    }
    let action = startup.step(StartupInput::Announced);
    (startup, action)
}

fn startup_error(action: StartupAction) -> String {
    match action {
        StartupAction::Fail(e) => e.message(),
        _ => panic!("the terminal must fail"),
    }
}

#[test]
fn a_terminal_runs_the_shell_that_its_server_asks_for() {
    let init = TermInit {
        environmentnames: vec!["TERM".into(), "A".into()],
        environmentvalues: vec!["xt".into(), "1".into()],
    };
    let packet = Packet::new(terminal_packet_type::TERMINAL_INIT, init.encode_to_vec());
    let (mut startup, action) = announced(options(false, "", 0));
    assert!(matches!(action, StartupAction::AwaitInit));
    assert!(matches!(startup.step(StartupInput::Announced), StartupAction::Nothing));
    let input = StartupInput::Init { packet: Ok(packet), shell: Some("/bin/zsh".into()) };
    match startup.step(input) {
        StartupAction::Spawn { shell, term, env } => {
            assert_eq!((shell.as_str(), term.as_str()), ("/bin/zsh", "xt"));
            assert_eq!((env.len(), env.get("A")), (1, Some("1")));
        }
        _ => panic!("a shell must be run"),
    }
}

#[test]
fn a_terminal_fails_in_words() {
    let failure = IoFailure { unexpected_eof: false, message: "reset".into() };
    let (mut startup, _) =
        Startup::new(options(false, "", 0), "i".into(), "p".into(), "t".into(), 0, 0);
    let input = StartupInput::Registered(Err(failure.clone()));
    assert_eq!(startup_error(startup.step(input)), "io: reset");

    let init = |packet: Result<Packet, FrameError>| {
        let (mut startup, _) = announced(options(false, "", 0));
        startup_error(startup.step(StartupInput::Init { packet, shell: None }))
    };
    assert_eq!(init(Err(FrameError::Io(failure))), "io: reset");
    assert_eq!(init(Err(FrameError::Closed)), "connection closed");
    assert_eq!(init(Ok(Packet::new(10, Vec::new()))), "expected packet header 9, got 10");
    assert_eq!(
        init(Ok(Packet::new(9, vec![0xff]))),
        "bad TermInit: unexpected end of buffer"
    );
}

#[test]
fn a_relay_needs_a_destination() {
    let needed = "jump mode requires --dsthost and --dstport";
    assert_eq!(startup_error(announced(options(true, "", 5)).1), needed);
    assert_eq!(startup_error(announced(options(true, "h", 0)).1), needed);
    assert!(matches!(
        announced(options(true, "h", 2022)).1,
        StartupAction::Relay { endpoint } if endpoint == "h:2022"
    ));
}

