//! Credentials, and the handshake over ssh.

use eternal_terminal::ids::{
    client_credentials, draw_symbols, drawn_credentials, drawn_number, drawn_regen,
    generate_id_passkey as generate_pair, number_of, random_alphanum, regen_if_client_chosen,
    take_symbols, Drawing, RandomError, ID_LEN, PASSKEY_LEN,
};
use eternal_terminal::ssh::{
    build_ssh_args, default_client_term, etterminal_command, generate_id_passkey,
    parse_idpasskey_bytes, parse_idpasskey_output, ssh_outcome, IdPasskey, SshDestination,
    SshHandshakeError, TerminalCommandOptions,
};

const ALPHANUM: &[u8; 62] = b"0123456789ABCDEFGHIJKLMNOPQRSTUVWXYZabcdefghijklmnopqrstuvwxyz";

#[test]
fn shapes_and_charset() {
    for _ in 0..64 {
        let (id, passkey) = generate_pair().unwrap();
        assert_eq!(id.len(), ID_LEN);
        assert_eq!(&id[..3], "XXX");
        assert_eq!(passkey.len(), PASSKEY_LEN);
        assert!(id.bytes().chain(passkey.bytes()).all(|b| ALPHANUM.contains(&b)));
    }
}

#[test]
fn idpasskey_debug_does_not_leak_the_passkey() {
    let ip = generate_id_passkey().unwrap();
    let rendered = ip.redacted();
    assert!(
        !rendered.contains(&ip.passkey),
        "the passkey must be redacted, got: {rendered}"
    );
    let ip = IdPasskey { id: "a\"b".into(), passkey: "secret".into() };
    assert_eq!(ip.redacted(), "IdPasskey { id: \"a\\\"b\", passkey: \"[REDACTED]\" }");
}

#[test]
fn generated_ids_have_upstream_shape() {
    for _ in 0..32 {
        let ip = generate_id_passkey().unwrap();
        assert_eq!(ip.id.len(), ID_LEN);
        assert_eq!(&ip.id[..3], "XXX");
        assert_eq!(ip.passkey.len(), PASSKEY_LEN);
        assert!(
            ip.id.bytes().all(|b| ALPHANUM.contains(&b))
                && ip.passkey.bytes().all(|b| ALPHANUM.contains(&b))
        );
    }
}

#[test]
fn command_matches_upstream_format() {
    let opts = TerminalCommandOptions::default();
    assert_eq!(
        etterminal_command("XXXabc", "key123", "xterm-256color", &opts),
        "echo 'XXXabc/key123_xterm-256color' | etterminal --verbose=0"
    );
    let opts = TerminalCommandOptions {
        verbose: 3,
        server_fifo: Some("/tmp/fifo".into()),
        ..Default::default()
    };
    assert_eq!(
        etterminal_command("i", "p", "t", &opts),
        "echo 'i/p_t' | etterminal --verbose=3 --serverfifo=/tmp/fifo"
    );
    let opts = TerminalCommandOptions {
        kill_existing: true,
        user: "joe".into(),
        ..Default::default()
    };
    assert_eq!(
        etterminal_command("i", "p", "t", &opts),
        "pkill etterminal -u joe; sleep 0.5; echo 'i/p_t' | etterminal --verbose=0"
    );
    let opts = TerminalCommandOptions {
        verbose: -1,
        kill_existing: true,
        etterminal_path: "/opt/et".into(),
        ..Default::default()
    };
    assert_eq!(
        etterminal_command("i", "p", "t", &opts),
        "pkill etterminal -u $USER; sleep 0.5; echo 'i/p_t' | /opt/et --verbose=-1"
    );
}

#[test]
fn parse_idpasskey_survives_non_ascii_noise() {
    let ip = generate_id_passkey().unwrap();
    let mut noisy = b"\xe5\xba\x8f\x1b[0m ".to_vec();
    noisy.extend_from_slice(format!("IDPASSKEY:{}/{}", ip.id, ip.passkey).as_bytes());
    noisy.extend_from_slice(b" trailing \xe5\xba\x8f");
    assert!(parse_idpasskey_bytes(&noisy).unwrap() == ip);
    assert!(parse_idpasskey_bytes(b"IDPASSKEY:\xff\xfe/xxx").is_none());
}

#[test]
fn parse_idpasskey_rejects_non_alphanumeric_payloads() {
    let shell_breakout = format!(
        "IDPASSKEY:XXXabcdefghijklmnop/{}'{}",
        "a".repeat(15),
        "b".repeat(16)
    );
    assert!(
        parse_idpasskey_output(&shell_breakout).is_none(),
        "a payload with shell metacharacters must be rejected"
    );
    let honest = format!("IDPASSKEY:XXXabcdefghijklmnop/{}", "k".repeat(32));
    assert!(parse_idpasskey_output(&honest).is_some());
}

#[test]
fn parse_idpasskey_finds_marker_after_noise() {
    let ip = generate_id_passkey().unwrap();
    let output = format!(
        "Last login: today\nsome motd\nIDPASSKEY:{}/{}",
        ip.id, ip.passkey
    );
    assert!(parse_idpasskey_output(&output).unwrap() == ip);
    assert!(parse_idpasskey_output("hello world").is_none());
    let truncated = format!("IDPASSKEY:{}/{}", ip.id, &ip.passkey[..10]);
    assert!(parse_idpasskey_output(&truncated).is_none());
}

#[test]
fn only_the_first_marker_counts() {
    let good = format!("IDPASSKEY:{}/{}", "a".repeat(16), "b".repeat(32));
    let twice = format!("IDPASSKEY:?{good}{good}");
    assert!(parse_idpasskey_output(&twice).is_none());
    assert_eq!(parse_idpasskey_output(&good).unwrap().id, "a".repeat(16));
    let no_slash = format!("IDPASSKEY:{}", "a".repeat(49));
    assert!(parse_idpasskey_output(&no_slash).is_none());
}

#[test]
fn ssh_args_match_upstream_order() {
    let dest = SshDestination {
        user: "me".into(),
        host: "example.com".into(),
        port: Some(2222),
        jumphost: Some("jump@bastion".into()),
        ssh_options: vec!["BatchMode=yes".into()],
    };
    assert_eq!(
        build_ssh_args(&dest, "echo hi"),
        vec![
            "-J",
            "jump@bastion",
            "me@example.com",
            "-p",
            "2222",
            "-oBatchMode=yes",
            "echo hi"
        ]
    );
    let plain = SshDestination { host: "h".into(), ..Default::default() };
    assert_eq!(build_ssh_args(&plain, "c"), vec!["h", "c"]);
}

#[test]
fn a_run_of_ssh_is_judged_by_its_output() {
    let good = format!("IDPASSKEY:{}/{}", "a".repeat(16), "b".repeat(32));
    assert!(ssh_outcome(false, good.as_bytes()).is_ok());
    assert_eq!(ssh_outcome(false, b"").err(), Some(SshHandshakeError::SshFailed));
    assert_eq!(ssh_outcome(true, b"").err(), Some(SshHandshakeError::MissingMarker));
    assert_eq!(SshHandshakeError::SshFailed.message(), "ssh exited unsuccessfully");
    assert!(SshHandshakeError::MissingMarker.message().starts_with("no IDPASSKEY in server output"));
}

#[test]
fn terminal_type_comes_from_the_environment() {
    assert_eq!(default_client_term(Some("vt100".into())), "vt100");
    assert_eq!(default_client_term(None), "xterm-256color");
}

#[test]
fn random_bytes_become_symbols_without_bias() {
    let mut out = Vec::new();
    take_symbols(&mut out, &[0, 61, 62, 247, 248, 255, 10], 10);
    assert_eq!(out, b"0z0zA");
    take_symbols(&mut out, &[1, 2, 3, 4, 5, 6, 7], 7);
    assert_eq!(out, b"0z0zA12");
    let mut count = [0u32; 256];
    for b in 0..=255u8 {
        let mut one = Vec::new();
        take_symbols(&mut one, &[b], 1);
        for c in one {
            count[c as usize] += 1;
        }
    }
    assert!(ALPHANUM.iter().all(|&c| count[c as usize] == 4));
}

#[test]
fn random_texts_differ() {
    assert_eq!(random_alphanum(0).unwrap(), b"");
    assert_ne!(random_alphanum(40).unwrap(), random_alphanum(40).unwrap());
    assert_eq!(number_of(1, 2, 3, 4), 0x04030201);
}

#[test]
fn what_is_drawn_decides() {
    let mut block = [9u8; 64];
    block[..4].copy_from_slice(&[1, 2, 3, 4]);
    assert_eq!(drawn_number(Some(block)), Ok(0x04030201));
    assert_eq!(drawn_number(None), Err(RandomError::Unavailable));

    let id = || Ok(b"0123456789abcdef".to_vec());
    let passkey = || Ok(b"k".to_vec());
    assert_eq!(
        drawn_credentials(id(), passkey()),
        Ok(("XXX3456789abcdef".into(), "k".into()))
    );
    let unavailable = Err(RandomError::Unavailable);
    let exhausted = Err(RandomError::Exhausted);
    assert_eq!(
        drawn_credentials(exhausted.clone(), unavailable.clone()),
        Err(RandomError::Exhausted)
    );
    assert_eq!(drawn_credentials(unavailable, passkey()), Err(RandomError::Unavailable));
    assert_eq!(drawn_credentials(id(), exhausted), Err(RandomError::Exhausted));
}

#[test]
fn blocks_are_drawn_until_there_are_enough_symbols() {
    let mut block = [255u8; 64];
    block[..3].copy_from_slice(&[0, 10, 36]);
    let step = |have: &[u8], block, left, len| draw_symbols(have.to_vec(), block, left, len);
    assert_eq!(step(b"", Some(block), 5, 3), Drawing::Done(b"0Aa".to_vec()));
    assert_eq!(step(b"", Some(block), 0, 2), Drawing::Done(b"0A".to_vec()));
    assert_eq!(step(b"xy", Some(block), 5, 6), Drawing::More(b"xy0Aa".to_vec()));
    assert_eq!(step(b"xy0Aa", Some(block), 5, 6), Drawing::Done(b"xy0Aa0".to_vec()));
    assert_eq!(
        step(b"xy", Some(block), 0, 6),
        Drawing::Failed(RandomError::Exhausted)
    );
    assert_eq!(step(b"xy", None, 5, 6), Drawing::Failed(RandomError::Unavailable));
}

#[test]
fn what_is_drawn_replaces_what_a_client_made_up() {
    let id = || Ok(b"new".to_vec());
    let passkey = || Ok(b"key".to_vec());
    let failed = || Err(RandomError::Unavailable);
    assert_eq!(
        drawn_regen("XXXid", id(), passkey()),
        Ok(Some(("new".into(), "key".into())))
    );
    assert_eq!(drawn_regen("XXid", id(), failed()), Ok(None));
    assert_eq!(
        drawn_regen("XXXid", Err(RandomError::Exhausted), failed()),
        Err(RandomError::Exhausted)
    );
    assert_eq!(drawn_regen("XXXid", id(), failed()), Err(RandomError::Unavailable));
}

#[test]
fn announcements_arrive_whole_or_not_at_all() {
    let ip = generate_id_passkey().unwrap();
    let line = format!("IDPASSKEY:{}/{}", ip.id, ip.passkey);
    for noise in ["", "IDPASSKEY", "\u{1F600}IDPASSKEYIDPASS", "IDPASSKEY\u{e9}:"] {
        for tail in ["", "\n", "IDPASSKEY:x", "\u{e9}"] {
            let read = parse_idpasskey_output(&format!("{noise}{line}{tail}")).unwrap();
            assert!(read == ip);
        }
        for cut in 0..32 {
            let short = &line[..line.len() - 32 + cut];
            assert!(parse_idpasskey_output(&format!("{noise}{short}")).is_none());
        }
        assert!(parse_idpasskey_output(noise).is_none());
    }
}

#[test]
fn made_up_ids_are_replaced() {
    let (id, passkey) = client_credentials(vec![b'a'; 16], b"k1".to_vec());
    assert_eq!((id.as_str(), passkey.as_str()), ("XXXaaaaaaaaaaaaa", "k1"));
    let (new_id, new_passkey) = regen_if_client_chosen(&id).unwrap().unwrap();
    assert_ne!(new_id, id);
    assert_eq!((new_id.len(), new_passkey.len()), (16, 32));
    assert!(regen_if_client_chosen("XXabc").unwrap().is_none());
    assert!(regen_if_client_chosen("").unwrap().is_none());
}

#[test]
fn wiped_credentials_are_gone() {
    let mut ip = IdPasskey { id: "i".into(), passkey: "p".into() };
    ip.wipe();
    assert_eq!((ip.id.as_str(), ip.passkey.as_str()), ("", ""));
}
