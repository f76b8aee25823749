//! Command lines and places.

use eternal_terminal::cli::{
    client_payload, command_input, endpoint, keepalive_period, parse_args, parse_idpasskey,
    parse_idpasskey_file, parse_server_args, parse_terminal_args, told_credentials, usage, Cli,
    Parsed, TerminalParsed,
};
use eternal_terminal::error::ServerError;
use eternal_terminal::fifo::{
    check_directory, create_directories_if_required, detect_paths, map_connect_error, path_below,
    path_for_creation, DirectoryState,
};
use eternal_terminal::framing::{FrameError, IoFailure};
use eternal_terminal::ssh::IdPasskey;

fn args(all: &[&str]) -> Vec<String> {
    all.iter().map(|s| s.to_string()).collect()
}

fn run(all: &[&str]) -> Cli {
    match parse_args(&args(all), "me") {
        Ok(Parsed::Run(cli)) => cli,
        Ok(Parsed::Help) => panic!("help"),
        Err(e) => panic!("{e}"),
    }
}

fn fails(all: &[&str]) -> String {
    match parse_args(&args(all), "me") {
        Err(e) => e,
        Ok(_) => panic!("{all:?} must be refused"),
    }
}

#[test]
fn a_target_is_enough() {
    let cli = run(&["host"]);
    assert_eq!((cli.destination.user.as_str(), cli.destination.host.as_str()), ("me", "host"));
    assert_eq!((cli.et_port, cli.keepalive, cli.no_exit), (2022, 5, false));
    assert_eq!((cli.command, cli.server_fifo), (None, None));
    assert_eq!(cli.term_opts.verbose, 0);
    let cli = run(&["-"]);
    assert_eq!(cli.destination.host, "-");
}

#[test]
fn targets_come_apart() {
    let cli = run(&["a@b@h:70"]);
    assert_eq!((cli.destination.user.as_str(), cli.destination.host.as_str()), ("a", "b@h"));
    assert_eq!(cli.et_port, 70);
    assert_eq!(run(&["h:70", "-p", "80"]).et_port, 70);
    assert_eq!(run(&["h:2022", "-p", "80"]).et_port, 80);
    assert_eq!(run(&["--port", "80", "h"]).et_port, 80);
    let cli = run(&["::1:5"]);
    assert_eq!((cli.destination.host.as_str(), cli.et_port), ("::1", 5));
    let cli = run(&[":5"]);
    assert_eq!((cli.destination.host.as_str(), cli.et_port), (":5", 2022));
    assert_eq!(fails(&["h:x"]), "bad port in \"h:x\"");
    assert_eq!(fails(&["h:65536"]), "bad port in \"h:65536\"");
}

#[test]
fn every_option_is_read() {
    let cli = run(&[
        "-c", "ls", "--no-exit", "-k", "9", "--serverfifo", "/f", "--etterminal-path", "/e",
        "--kill", "-u", "joe", "-o", "A=1", "--ssh-option", "B=2", "-v", "-3", "h",
    ]);
    assert_eq!(cli.command.as_deref(), Some("ls"));
    assert!(cli.no_exit && cli.term_opts.kill_existing);
    assert_eq!(cli.keepalive, 9);
    assert_eq!(cli.server_fifo.as_deref(), Some("/f"));
    assert_eq!(cli.term_opts.etterminal_path, "/e");
    assert_eq!(cli.term_opts.user, "joe");
    assert_eq!(cli.destination.ssh_options, vec!["A=1", "B=2"]);
    assert_eq!(cli.term_opts.verbose, -3);
    assert!(matches!(parse_args(&args(&["-h"]), ""), Ok(Parsed::Help)));
}

#[test]
fn what_is_wrong_is_said() {
    assert_eq!(fails(&[]), format!("missing destination\nusage: {}", usage()));
    assert_eq!(fails(&["-c"]), "-c needs a value");
    assert_eq!(fails(&["-k"]), "--keepalive needs seconds");
    assert_eq!(fails(&["-k", "-1"]), "--keepalive needs a number");
    assert_eq!(fails(&["--serverfifo"]), "--serverfifo needs a value");
    assert_eq!(fails(&["--etterminal-path"]), "--etterminal-path needs a value");
    assert_eq!(fails(&["-u"]), "--user needs a value");
    assert_eq!(fails(&["-o"]), "-o needs a value");
    assert_eq!(fails(&["-p"]), "--port needs a value");
    assert_eq!(fails(&["-p", "65536"]), "--port needs a number");
    assert_eq!(fails(&["-v"]), "--verbose needs a level");
    assert_eq!(fails(&["-v", "2147483648"]), "--verbose needs a number");
    assert_eq!(fails(&["--bad\n"]), "unrecognized argument \"--bad\\n\"");
    assert_eq!(fails(&["a", "b"]), "unexpected extra argument \"b\"");
    assert_eq!(
        fails(&["-r", "1:2"]),
        "-r: port forwarding is not implemented in this build (documented in the README)"
    );
    assert_eq!(fails(&["-J"]), "--jumphost: jumphost mode is not implemented in this build");
    assert_eq!(fails(&["bad", "-c"]), "-c needs a value");
}

#[test]
fn commands_end_the_shell_unless_told() {
    assert_eq!(command_input("ls", false), "ls; exit\n");
    assert_eq!(command_input("ls", true), "ls\n");
    assert_eq!(endpoint("h", 2022), "h:2022");
}

#[test]
fn the_server_takes_few_arguments() {
    let run = |all: &[&str]| match parse_server_args(&args(all)) {
        Ok(Parsed::Run(o)) => (o.port, o.socket_path),
        _ => panic!("{all:?} must be taken"),
    };
    assert_eq!(run(&[]), (2022, None));
    assert_eq!(run(&["--port", "7", "--serverfifo", "/s", "-v", "9"]), (7, Some("/s".into())));
    assert_eq!(run(&["--port", "x"]), (2022, None));
    assert_eq!(run(&["--port", "7", "--port", "x"]), (7, None));
    assert_eq!(run(&["--port"]), (2022, None));
    assert_eq!(run(&["--logdir"]), (2022, None));
    assert!(matches!(parse_server_args(&args(&["--help", "x"])), Ok(Parsed::Help)));
    assert!(matches!(
        parse_server_args(&args(&["x"])),
        Err(e) if e == "unrecognized argument \"x\""
    ));
}

#[test]
fn the_terminal_takes_its_arguments() {
    let run = |all: &[&str], files: &[&str]| match parse_terminal_args(&args(all), &args(files)) {
        Ok(TerminalParsed::Run(o)) => o,
        _ => panic!("{all:?} must be taken"),
    };
    let o = run(&["--idpasskey", "a/b_c", "--jump", "--dsthost", "h", "--dstport", "9"], &[]);
    assert_eq!(o.idpasskey, Some(("a".into(), "b".into())));
    assert!(o.jump);
    assert_eq!((o.dsthost.as_str(), o.dstport), ("h", 9));
    let o = run(&["--dstport", "x", "--serverfifo", "/s", "-v"], &[]);
    assert_eq!((o.dstport, o.socket_path.as_deref()), (0, Some("/s")));
    assert_eq!((o.term, o.shell, o.home), (None, None, None));
    let o = run(&["--idpasskeyfile", "f", "--idpasskey", "bad"], &["a/b"]);
    assert_eq!(o.idpasskey, None);
    let o = run(&["--idpasskeyfile", "f", "--idpasskeyfile", "g"], &["a/b", "c/d\n"]);
    assert_eq!(o.idpasskey, Some(("c".into(), "d".into())));
    let help = parse_terminal_args(&args(&["-h"]), &Vec::new());
    assert!(matches!(help, Ok(TerminalParsed::Help)));
    assert!(matches!(
        parse_terminal_args(&args(&["--nope"]), &Vec::new()),
        Err(e) if e == "unrecognized argument \"--nope\""
    ));
}

#[test]
fn files_with_credentials_are_asked_for_in_order() {
    let line = args(&["--idpasskeyfile", "f", "--idpasskeyfile", "g", "--nope"]);
    let path = |files: &[&str]| match parse_terminal_args(&line, &args(files)) {
        Ok(TerminalParsed::Read(path)) => path,
        _ => panic!("a file must be asked for"),
    };
    assert_eq!(path(&[]), "f");
    assert_eq!(path(&["a/b"]), "g");
    assert!(parse_terminal_args(&line, &args(&["a/b", "c/d"])).is_err());
}

#[test]
fn the_client_asks_for_little() {
    let payload = client_payload("1.2");
    assert_eq!(payload.jumphost, Some(false));
    assert!(payload.reversetunnels.is_empty());
    assert_eq!(payload.environmentvariables.len(), 1);
    assert_eq!(payload.environmentvariables.get("ET_VERSION"), Some("rust-1.2"));
    let fresh = IdPasskey { id: "a".into(), passkey: "b".into() };
    let told = IdPasskey { id: "c".into(), passkey: "d".into() };
    let none = IdPasskey { id: "".into(), passkey: "d".into() };
    assert!(told_credentials(fresh.clone(), told.clone()) == told);
    assert!(told_credentials(fresh.clone(), none) == fresh);
    assert_eq!(keepalive_period(5), 5_000_000_000);
    assert_eq!(keepalive_period(18_446_744_073), 18_446_744_073_000_000_000);
    assert_eq!(keepalive_period(18_446_744_074), u64::MAX);
}

#[test]
fn credentials_in_texts_and_files() {
    assert_eq!(parse_idpasskey("a/b"), Some(("a".into(), "b".into())));
    assert_eq!(parse_idpasskey("a/b/c_d/e"), Some(("a".into(), "b/c".into())));
    assert_eq!(parse_idpasskey("ab_c/d"), None);
    assert_eq!(parse_idpasskey_file("a/b\r\n"), Some(("a".into(), "b".into())));
}

#[test]
fn the_socket_has_its_place() {
    let path = |o, root, xdg, home| path_for_creation(o, root, xdg, home);
    assert_eq!(path(Some("rel"), true, None, None), Ok("rel".into()));
    assert_eq!(
        path(None, true, Some("/run"), None),
        Ok("/var/run/etserver.idpasskey.fifo".into())
    );
    assert_eq!(
        path(None, false, Some("/run/user/1"), None),
        Ok("/run/user/1/etserver/etserver.idpasskey.fifo".into())
    );
    assert_eq!(
        path(None, false, Some("relative"), Some("/home/me/")),
        Ok("/home/me/.local/share/etserver/etserver.idpasskey.fifo".into())
    );
    assert_eq!(
        path(None, false, None, Some("home")),
        Err(ServerError::Other("$HOME is missing or relative".into()))
    );
    assert!(path(None, false, None, None).is_err());
    assert_eq!(path_below("", "x"), "x");
    assert_eq!(path_below("/", "x"), "/x");
}

#[test]
fn directories_are_made_for_the_default_place_only() {
    assert!(matches!(create_directories_if_required(Some("/x"), false, None, None), Ok(None)));
    assert!(matches!(create_directories_if_required(None, true, None, None), Ok(None)));
    let plan = create_directories_if_required(None, false, Some("/run"), None).unwrap().unwrap();
    assert_eq!((plan.parents.len(), plan.own.as_str()), (0, "/run/etserver"));
    let plan = create_directories_if_required(None, false, None, Some("/h")).unwrap().unwrap();
    assert_eq!(plan.parents, vec!["/h/.local", "/h/.local/share"]);
    assert_eq!(plan.own, "/h/.local/share/etserver");
    assert!(create_directories_if_required(None, false, None, None).is_err());
}

#[test]
fn the_directory_must_do() {
    let says = |state| match check_directory("/d", state) {
        Ok(()) => String::new(),
        Err(e) => e.message(),
    };
    assert_eq!(says(DirectoryState::Found { is_dir: true, owned: true }), "");
    assert_eq!(
        says(DirectoryState::Found { is_dir: false, owned: true }),
        "\"/d\" is not a directory"
    );
    assert_eq!(
        says(DirectoryState::Found { is_dir: true, owned: false }),
        "\"/d\" is not owned by the current user"
    );
    assert_eq!(says(DirectoryState::NoStat("gone".into())), "failed to stat \"/d\": gone");
    assert_eq!(says(DirectoryState::NoChmod("denied".into())), "failed to chmod \"/d\": denied");
}

#[test]
fn a_terminal_looks_for_its_server() {
    let root = "/var/run/etserver.idpasskey.fifo";
    let probe = detect_paths(true, Some("/run"), None);
    assert_eq!(probe.paths, vec![root]);
    assert!(probe.failure.message().starts_with("The Eternal Terminal daemon is not running."));
    let probe = detect_paths(false, Some("/run"), None);
    assert_eq!(probe.paths, vec![root, "/run/etserver/etserver.idpasskey.fifo"]);
    let probe = detect_paths(false, None, None);
    assert_eq!(probe.paths, vec![root]);
    assert_eq!(probe.failure.message(), "$HOME is missing or relative");
    let e = IoFailure { unexpected_eof: false, message: "denied".into() };
    assert_eq!(map_connect_error(false, e.clone()), ServerError::Io(e.clone()));
    assert_eq!(map_connect_error(true, e), detect_paths(true, None, None).failure);
    assert_eq!(
        ServerError::from_frame_error(FrameError::InvalidPacket).message(),
        "truncated or malformed packet"
    );
}
