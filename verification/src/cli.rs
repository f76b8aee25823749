//! The command lines of the three programs.

use vstd::prelude::*;
use crate::env::{lemma_with_var, var_in, with_var};
use crate::messages::{requests, InitialPayload, InitialPayloadView};
use crate::server::{ServerOptions, DEFAULT_PORT};
use crate::ssh::{IdPasskey, SshDestination, TerminalCommandOptions};
use crate::terminal::{opt_pair, TerminalOptions};
use crate::text::{
    chars_of, copy_text, decimal, decimal_int, joined, law_decimal_has_only,
    law_decimal_reads_back, law_signed_decimal_reads_back, law_split_in_two, law_without_eol,
    lemma_find, number_within, opt_text, parse_i64, parse_unsigned, push_decimal,
    quoted, quoted_text, rsplit_once, same_text, split, split_at_char, split_first, split_last,
    split_once, string_of, strip_eol, texts, without_eol,
};

verus! {

// ---------------------------------------------------------------------------
// The client
// ---------------------------------------------------------------------------

/// How to call the client.
pub open spec fn usage_text() -> Seq<char> {
    "et [user@]host[:port] [-c CMD] [--keepalive N] [--no-exit] [--serverfifo PATH] [--etterminal-path PATH] [--kill] [-o SSH_OPT]... [-v LEVEL]"@
}

/// How to call the client.
pub fn usage() -> (res: &'static str)
    ensures
        res@ == usage_text(),
{
    "et [user@]host[:port] [-c CMD] [--keepalive N] [--no-exit] [--serverfifo PATH] [--etterminal-path PATH] [--kill] [-o SSH_OPT]... [-v LEVEL]"
}

/// What the client is asked to do.
#[derive(Debug, Clone, PartialEq, Eq)]
pub struct Cli {
    pub destination: SshDestination,
    pub et_port: u16,
    pub command: Option<String>,
    pub no_exit: bool,
    /// Seconds of silence before a probe.
    pub keepalive: u64,
    pub term_opts: TerminalCommandOptions,
    pub server_fifo: Option<String>,
}

/// What a command line amounts to.
pub enum Parsed<T> {
    Run(T),
    Help,
}

/// What was read of a command line of the client.
#[verifier::ext_equal]
pub struct CliView {
    pub command: Option<Seq<char>>,
    pub no_exit: bool,
    pub keepalive: u64,
    pub server_fifo: Option<Seq<char>>,
    pub etterminal_path: Seq<char>,
    pub kill: bool,
    pub user: Seq<char>,
    pub options: Seq<Seq<char>>,
    pub et_port: u16,
    pub verbose: i32,
    pub positional: Option<Seq<char>>,
}

/// What was read of a command line of the client.
struct CliState {
    command: Option<String>,
    no_exit: bool,
    keepalive: u64,
    server_fifo: Option<String>,
    etterminal_path: String,
    kill: bool,
    user: String,
    options: Vec<String>,
    et_port: u16,
    verbose: i32,
    positional: Option<String>,
}

impl View for CliState {
    type V = CliView;

    closed spec fn view(&self) -> CliView {
        CliView {
            command: opt_text(self.command),
            no_exit: self.no_exit,
            keepalive: self.keepalive,
            server_fifo: opt_text(self.server_fifo),
            etterminal_path: self.etterminal_path@,
            kill: self.kill,
            user: self.user@,
            options: texts(self.options@),
            et_port: self.et_port,
            verbose: self.verbose,
            positional: opt_text(self.positional),
        }
    }
}

/// Before anything was read.
pub open spec fn cli_start() -> CliView {
    CliView {
        command: None,
        no_exit: false,
        keepalive: 5,
        server_fifo: None,
        etterminal_path: Seq::empty(),
        kill: false,
        user: Seq::empty(),
        options: Seq::empty(),
        et_port: 2022,
        verbose: 0,
        positional: None,
    }
}

/// What the first of the remaining arguments comes to.
pub enum CliStep {
    /// What is read now, and how many arguments it took.
    Next(CliView, int),
    Fail(Seq<char>),
    Help,
}

/// An option with a value: the value, or what is said when it is missing.
pub open spec fn valued(
    args: Seq<Seq<char>>,
    missing: Seq<char>,
    step: spec_fn(Seq<char>) -> CliStep,
) -> CliStep {
    if args.len() < 2 {
        CliStep::Fail(missing)
    } else {
        step(args[1])
    }
}

/// What the first of the remaining arguments comes to.
pub open spec fn cli_step(st: CliView, args: Seq<Seq<char>>) -> CliStep {
    let arg = args[0];
    if arg == "-c"@ || arg == "--command"@ {
        valued(
            args,
            "-c needs a value"@,
            |v: Seq<char>| CliStep::Next(CliView { command: Some(v), ..st }, 2),
        )
    } else if arg == "--no-exit"@ {
        CliStep::Next(CliView { no_exit: true, ..st }, 1)
    } else if arg == "-k"@ || arg == "--keepalive"@ {
        valued(
            args,
            "--keepalive needs seconds"@,
            |v: Seq<char>|
                match number_within(v, false, 0, u64::MAX as int) {
                    Some(n) => CliStep::Next(CliView { keepalive: n as u64, ..st }, 2),
                    None => CliStep::Fail("--keepalive needs a number"@),
                },
        )
    } else if arg == "-t"@ || arg == "--tunnel"@ || arg == "-r"@ || arg == "--reversetunnel"@ {
        CliStep::Fail(
            arg
                + ": port forwarding is not implemented in this build (documented in the README)"@,
        )
    } else if arg == "--jumphost"@ || arg == "-J"@ {
        CliStep::Fail("--jumphost: jumphost mode is not implemented in this build"@)
    } else if arg == "--serverfifo"@ {
        valued(
            args,
            "--serverfifo needs a value"@,
            |v: Seq<char>| CliStep::Next(CliView { server_fifo: Some(v), ..st }, 2),
        )
    } else if arg == "--etterminal-path"@ {
        valued(
            args,
            "--etterminal-path needs a value"@,
            |v: Seq<char>| CliStep::Next(CliView { etterminal_path: v, ..st }, 2),
        )
    } else if arg == "--kill"@ {
        CliStep::Next(CliView { kill: true, ..st }, 1)
    } else if arg == "-u"@ || arg == "--user"@ {
        valued(
            args,
            "--user needs a value"@,
            |v: Seq<char>| CliStep::Next(CliView { user: v, ..st }, 2),
        )
    } else if arg == "-o"@ || arg == "--ssh-option"@ {
        valued(
            args,
            "-o needs a value"@,
            |v: Seq<char>| CliStep::Next(CliView { options: st.options.push(v), ..st }, 2),
        )
    } else if arg == "-p"@ || arg == "--port"@ {
        valued(
            args,
            "--port needs a value"@,
            |v: Seq<char>|
                match number_within(v, false, 0, u16::MAX as int) {
                    Some(n) => CliStep::Next(CliView { et_port: n as u16, ..st }, 2),
                    None => CliStep::Fail("--port needs a number"@),
                },
        )
    } else if arg == "-v"@ || arg == "--verbose"@ {
        valued(
            args,
            "--verbose needs a level"@,
            |v: Seq<char>|
                match number_within(v, true, i32::MIN as int, i32::MAX as int) {
                    Some(n) => CliStep::Next(CliView { verbose: n as i32, ..st }, 2),
                    None => CliStep::Fail("--verbose needs a number"@),
                },
        )
    } else if arg == "-h"@ || arg == "--help"@ {
        CliStep::Help
    } else if arg.len() > 1 && arg[0] == '-' {
        CliStep::Fail("unrecognized argument "@ + quoted_text(arg))
    } else if st.positional is Some {
        CliStep::Fail("unexpected extra argument "@ + quoted_text(arg))
    } else {
        CliStep::Next(CliView { positional: Some(arg), ..st }, 1)
    }
}

/// What a command line comes to: what was read, or `None` where help is asked
/// for, or what is wrong.
pub open spec fn cli_read(st: CliView, args: Seq<Seq<char>>) -> Result<Option<CliView>, Seq<char>>
    decreases args.len(),
{
    if args.len() == 0 {
        Ok(Some(st))
    } else {
        match cli_step(st, args) {
            CliStep::Next(next, n) => if n <= 0 || n > args.len() {
                Ok(None)
            } else {
                cli_read(next, args.skip(n))
            },
            CliStep::Fail(m) => Err(m),
            CliStep::Help => Ok(None),
        }
    }
}

/// User, host and port of a target `[user@]host[:port]`, the user being `user`
/// where none is named.
pub open spec fn target_parts(target: Seq<char>, user: Seq<char>) -> Result<
    (Seq<char>, Seq<char>, u16),
    Seq<char>,
> {
    let (who, hostport) = match split_first(target, '@') {
        Some((u, rest)) => (u, rest),
        None => (user, target),
    };
    match split_last(hostport, ':') {
        Some((h, p)) => if h.len() > 0 {
            match number_within(p, false, 0, u16::MAX as int) {
                Some(n) => Ok((who, h, n as u16)),
                None => Err("bad port in "@ + quoted_text(hostport)),
            }
        } else {
            Ok((who, hostport, 2022))
        },
        None => Ok((who, hostport, 2022)),
    }
}

/// Whether `cli` is what was read, with a target that came apart into user,
/// host and port. A port of the target other than the default one goes before
/// that of an option.
pub open spec fn cli_made(cli: Cli, st: CliView, parts: (Seq<char>, Seq<char>, u16)) -> bool {
    &&& cli.destination.user@ == parts.0
    &&& cli.destination.host@ == parts.1
    &&& cli.destination.port is None
    &&& cli.destination.jumphost is None
    &&& texts(cli.destination.ssh_options@) == st.options
    &&& cli.et_port == if parts.2 != 2022 {
        parts.2
    } else {
        st.et_port
    }
    &&& opt_text(cli.command) == st.command
    &&& cli.no_exit == st.no_exit
    &&& cli.keepalive == st.keepalive
    &&& cli.term_opts.verbose == st.verbose
    &&& cli.term_opts.server_fifo is None
    &&& cli.term_opts.etterminal_path@ == st.etterminal_path
    &&& cli.term_opts.kill_existing == st.kill
    &&& cli.term_opts.user@ == st.user
    &&& opt_text(cli.server_fifo) == st.server_fifo
}

/// What is said when there is no target.
pub open spec fn no_destination() -> Seq<char> {
    "missing destination\nusage: "@ + usage_text()
}

enum StepOut {
    Next(usize),
    Fail(String),
    Help,
}

impl StepOut {
    spec fn agrees(self, st: CliView, want: CliStep) -> bool {
        match (self, want) {
            (StepOut::Next(n), CliStep::Next(next, m)) => st == next && n == m,
            (StepOut::Fail(a), CliStep::Fail(b)) => a@ == b,
            (StepOut::Help, CliStep::Help) => true,
            _ => false,
        }
    }
}

/// Whether an argument is one of two spellings.
fn is_either(arg: &str, a: &str, b: &str) -> (res: bool)
    ensures
        res == (arg@ == a@ || arg@ == b@),
{
    same_text(arg, a) || same_text(arg, b)
}

/// The value that follows argument `i`.
fn value_after(args: &Vec<String>, i: usize) -> (res: Option<String>)
    requires
        i < args@.len(),
    ensures
        match res {
            Some(v) => i + 1 < args@.len() && v@ == args@[i + 1]@,
            None => i + 1 == args@.len(),
        },
{
    if args.len() - i > 1 {
        Some(copy_text(args[i + 1].as_str()))
    } else {
        None
    }
}

fn fail(m: &str) -> (res: StepOut)
    ensures
        res matches StepOut::Fail(s) && s@ == m@,
{
    StepOut::Fail(copy_text(m))
}

impl CliState {
    fn step(&mut self, args: &Vec<String>, i: usize) -> (res: StepOut)
        requires
            i < args@.len(),
        ensures
            res.agrees(final(self)@, cli_step(old(self)@, texts(args@).skip(i as int))),
    {
        let ghost rest = texts(args@).skip(i as int);
        let ghost st = self@;
        assert(rest.len() == args@.len() - i);
        assert(rest[0] == args@[i as int]@);
        assert(rest.len() >= 2 ==> rest[1] == args@[i + 1]@);
        let arg = args[i].as_str();
        if is_either(arg, "-c", "--command") {
            match value_after(args, i) {
                Some(v) => {
                    self.command = Some(v);
                    assert(self@ =~= (CliView { command: Some(rest[1]), ..st }));
                    StepOut::Next(2)
                },
                None => fail("-c needs a value"),
            }
        } else if same_text(arg, "--no-exit") {
            self.no_exit = true;
            StepOut::Next(1)
        } else if is_either(arg, "-k", "--keepalive") {
            match value_after(args, i) {
                Some(v) => match parse_unsigned(chars_of(v.as_str()).as_slice(), u64::MAX) {
                    Some(n) => {
                        self.keepalive = n;
                        StepOut::Next(2)
                    },
                    None => fail("--keepalive needs a number"),
                },
                None => fail("--keepalive needs seconds"),
            }
        } else if is_either(arg, "-t", "--tunnel") || is_either(arg, "-r", "--reversetunnel") {
            StepOut::Fail(
                joined(
                    arg,
                    ": port forwarding is not implemented in this build (documented in the README)",
                ),
            )
        } else if is_either(arg, "--jumphost", "-J") {
            fail("--jumphost: jumphost mode is not implemented in this build")
        } else {
            self.step_more(args, i)
        }
    }

    /// The rest of [`CliState::step`].
    fn step_more(&mut self, args: &Vec<String>, i: usize) -> (res: StepOut)
        requires
            i < args@.len(),
            ({
                let arg = args@[i as int]@;
                &&& arg != "-c"@ && arg != "--command"@ && arg != "--no-exit"@
                &&& arg != "-k"@ && arg != "--keepalive"@
                &&& arg != "-t"@ && arg != "--tunnel"@ && arg != "-r"@ && arg != "--reversetunnel"@
                &&& arg != "--jumphost"@ && arg != "-J"@
            }),
        ensures
            res.agrees(final(self)@, cli_step(old(self)@, texts(args@).skip(i as int))),
    {
        let ghost rest = texts(args@).skip(i as int);
        let ghost st = self@;
        assert(rest.len() == args@.len() - i);
        assert(rest[0] == args@[i as int]@);
        assert(rest.len() >= 2 ==> rest[1] == args@[i + 1]@);
        let arg = args[i].as_str();
        if same_text(arg, "--serverfifo") {
            match value_after(args, i) {
                Some(v) => {
                    self.server_fifo = Some(v);
                    assert(self@ =~= (CliView { server_fifo: Some(rest[1]), ..st }));
                    StepOut::Next(2)
                },
                None => fail("--serverfifo needs a value"),
            }
        } else if same_text(arg, "--etterminal-path") {
            match value_after(args, i) {
                Some(v) => {
                    self.etterminal_path = v;
                    StepOut::Next(2)
                },
                None => fail("--etterminal-path needs a value"),
            }
        } else if same_text(arg, "--kill") {
            self.kill = true;
            StepOut::Next(1)
        } else if is_either(arg, "-u", "--user") {
            match value_after(args, i) {
                Some(v) => {
                    self.user = v;
                    StepOut::Next(2)
                },
                None => fail("--user needs a value"),
            }
        } else if is_either(arg, "-o", "--ssh-option") {
            match value_after(args, i) {
                Some(v) => {
                    let ghost before = texts(self.options@);
                    self.options.push(v);
                    assert(texts(self.options@) =~= before.push(v@));
                    StepOut::Next(2)
                },
                None => fail("-o needs a value"),
            }
        } else if is_either(arg, "-p", "--port") {
            match value_after(args, i) {
                Some(v) => match parse_unsigned(chars_of(v.as_str()).as_slice(), 65535) {
                    Some(n) => {
                        self.et_port = n as u16;
                        StepOut::Next(2)
                    },
                    None => fail("--port needs a number"),
                },
                None => fail("--port needs a value"),
            }
        } else if is_either(arg, "-v", "--verbose") {
            match value_after(args, i) {
                Some(v) => match parse_i64(chars_of(v.as_str()).as_slice()) {
                    Some(n) => {
                        if n < -0x8000_0000 || n > 0x7fff_ffff {
                            return fail("--verbose needs a number");
                        }
                        self.verbose = n as i32;
                        StepOut::Next(2)
                    },
                    None => fail("--verbose needs a number"),
                },
                None => fail("--verbose needs a level"),
            }
        } else if is_either(arg, "-h", "--help") {
            StepOut::Help
        } else {
            let chars = chars_of(arg);
            if chars.len() > 1 && chars[0] == '-' {
                StepOut::Fail(joined("unrecognized argument ", quoted(arg).as_str()))
            } else if self.positional.is_some() {
                StepOut::Fail(joined("unexpected extra argument ", quoted(arg).as_str()))
            } else {
                self.positional = Some(copy_text(arg));
                assert(self@ =~= (CliView { positional: Some(rest[0]), ..st }));
                StepOut::Next(1)
            }
        }
    }
}

/// User, host and port of a target.
fn split_target(target: &str, user: &str) -> (res: Result<(String, String, u16), String>)
    ensures
        match (res, target_parts(target@, user@)) {
            (Ok((u, h, p)), Ok(parts)) => u@ == parts.0 && h@ == parts.1 && p == parts.2,
            (Err(m), Err(e)) => m@ == e,
            _ => false,
        },
{
    let chars = chars_of(target);
    let (who, hostport) = match split_once(chars.as_slice(), '@') {
        Some((u, rest)) => (string_of(u.as_slice()), rest),
        None => (copy_text(user), chars),
    };
    match rsplit_once(hostport.as_slice(), ':') {
        Some((h, p)) => {
            if h.len() > 0 {
                match parse_unsigned(p.as_slice(), 65535) {
                    Some(n) => Ok((who, string_of(h.as_slice()), n as u16)),
                    None => {
                        let text = string_of(hostport.as_slice());
                        Err(joined("bad port in ", quoted(text.as_str()).as_str()))
                    },
                }
            } else {
                Ok((who, string_of(hostport.as_slice()), 2022))
            }
        },
        None => Ok((who, string_of(hostport.as_slice()), 2022)),
    }
}

/// Reads a command line of the client, without the program's name. `user` is
/// the user's name in the environment, empty where there is none.
pub fn parse_args(args: &Vec<String>, user: &str) -> (res: Result<Parsed<Cli>, String>)
    ensures
        match cli_read(cli_start(), texts(args@)) {
            Err(m) => res matches Err(e) && e@ == m,
            Ok(None) => res matches Ok(Parsed::Help),
            Ok(Some(st)) => match st.positional {
                None => res matches Err(e) && e@ == no_destination(),
                Some(target) => match target_parts(target, user@) {
                    Err(m) => res matches Err(e) && e@ == m,
                    Ok(parts) => res matches Ok(Parsed::Run(cli)) && cli_made(cli, st, parts),
                },
            },
        },
{
    let mut st = CliState {
        command: None,
        no_exit: false,
        keepalive: 5,
        server_fifo: None,
        etterminal_path: String::new(),
        kill: false,
        user: String::new(),
        options: Vec::new(),
        et_port: 2022,
        verbose: 0,
        positional: None,
    };
    let ghost all = texts(args@);
    assert(st@ =~= cli_start()) by {
        assert(texts(st.options@) =~= Seq::<Seq<char>>::empty());
        assert(st.etterminal_path@ =~= Seq::<char>::empty());
        assert(st.user@ =~= Seq::<char>::empty());
    }
    let mut i: usize = 0;
    assert(all.skip(0) =~= all);
    while i < args.len()
        invariant
            i <= args@.len(),
            all == texts(args@),
            cli_read(cli_start(), all) == cli_read(st@, all.skip(i as int)),
        decreases args.len() - i,
    {
        let ghost before = st@;
        let ghost rest = all.skip(i as int);
        match st.step(args, i) {
            StepOut::Next(n) => {
                assert(1 <= n <= rest.len());
                assert(rest.skip(n as int) =~= all.skip(i + n));
                i = i + n;
            },
            StepOut::Fail(m) => {
                return Err(m);
            },
            StepOut::Help => {
                return Ok(Parsed::Help);
            },
        }
    }
    assert(cli_read(cli_start(), all) == Ok::<Option<CliView>, Seq<char>>(Some(st@)));
    let target = match &st.positional {
        Some(t) => copy_text(t.as_str()),
        None => {
            return Err(joined("missing destination\nusage: ", usage()));
        },
    };
    let (who, host, port) = match split_target(target.as_str(), user) {
        Ok(x) => x,
        Err(m) => {
            return Err(m);
        },
    };
    let et_port: u16 = if port != 2022 {
        port
    } else {
        st.et_port
    };
    Ok(
        Parsed::Run(
            Cli {
                destination: SshDestination {
                    user: who,
                    host,
                    port: None,
                    jumphost: None,
                    ssh_options: st.options,
                },
                et_port,
                command: st.command,
                no_exit: st.no_exit,
                keepalive: st.keepalive,
                term_opts: TerminalCommandOptions {
                    verbose: st.verbose,
                    server_fifo: None,
                    etterminal_path: st.etterminal_path,
                    kill_existing: st.kill,
                    user: st.user,
                },
                server_fifo: st.server_fifo,
            },
        ),
    )
}

/// The input that runs a command: the shell ends after it unless it is to
/// stay.
pub open spec fn run_input(command: Seq<char>, no_exit: bool) -> Seq<char> {
    if no_exit {
        command + "\n"@
    } else {
        command + "; exit\n"@
    }
}

/// The input that runs a command: the shell ends after it unless it is to
/// stay.
pub fn command_input(command: &str, no_exit: bool) -> (res: String)
    ensures
        res@ == run_input(command@, no_exit),
{
    if no_exit {
        joined(command, "\n")
    } else {
        joined(command, "; exit\n")
    }
}

/// Where the client connects.
pub open spec fn endpoint_text(host: Seq<char>, port: u16) -> Seq<char> {
    host + ":"@ + decimal(port as nat)
}

/// Where the client connects.
pub fn endpoint(host: &str, port: u16) -> (res: String)
    ensures
        res@ == endpoint_text(host@, port),
{
    let mut s = copy_text(host);
    s.append(":");
    push_decimal(&mut s, port as u64);
    s
}

/// What the client asks of its server: no relay, no tunnels, and the version
/// of the client in the environment of the shell.
pub open spec fn client_request(version: Seq<char>) -> InitialPayloadView {
    InitialPayloadView {
        jumphost: Some(false),
        reversetunnels: Seq::empty(),
        environmentvariables: with_var(Seq::empty(), "ET_VERSION"@, "rust-"@ + version),
    }
}

/// What the client asks of its server: no relay, no tunnels, and the version
/// of the client in the environment of the shell.
pub fn client_payload(version: &str) -> (res: InitialPayload)
    ensures
        res@ == client_request(version@),
{
    let mut payload = InitialPayload::default();
    payload.jumphost = Some(false);
    assert(payload.environmentvariables@ =~= Seq::empty());
    payload.environmentvariables.insert("ET_VERSION".to_owned(), joined("rust-", version));
    assert(requests(payload.reversetunnels@) =~= Seq::empty());
    payload
}

/// The credentials to go on with: those that the terminal told, unless it told
/// no id.
pub open spec fn credentials_after(fresh: IdPasskey, told: IdPasskey) -> IdPasskey {
    if told.id@.len() == 0 {
        fresh
    } else {
        told
    }
}

/// The credentials to go on with: those that the terminal told, unless it told
/// no id.
pub fn told_credentials(fresh: IdPasskey, told: IdPasskey) -> (res: IdPasskey)
    ensures
        res == credentials_after(fresh, told),
{
    let id = chars_of(told.id.as_str());
    if id.len() == 0 {
        fresh
    } else {
        told
    }
}

/// Seconds as nanoseconds, or the longest time there is.
pub open spec fn period_of(seconds: nat) -> nat {
    if seconds * 1_000_000_000 <= u64::MAX {
        seconds * 1_000_000_000
    } else {
        u64::MAX as nat
    }
}

/// Seconds as nanoseconds, or the longest time there is.
pub fn keepalive_period(seconds: u64) -> (res: u64)
    ensures
        res == period_of(seconds as nat),
{
    if seconds <= 18_446_744_073 {
        seconds * 1_000_000_000
    } else {
        u64::MAX
    }
}

// ---------------------------------------------------------------------------
// The server
// ---------------------------------------------------------------------------

/// What was read of a command line of the server.
pub struct ServerArgs {
    pub port: u16,
    pub socket_path: Option<Seq<char>>,
}

/// What a command line of the server comes to. A port that is no number, and
/// a missing value, leave things as they were.
pub open spec fn server_read(st: ServerArgs, args: Seq<Seq<char>>) -> Result<
    Option<ServerArgs>,
    Seq<char>,
>
    decreases args.len(),
{
    if args.len() == 0 {
        Ok(Some(st))
    } else {
        let arg = args[0];
        let after = if args.len() >= 2 {
            args.skip(2)
        } else {
            Seq::empty()
        };
        if arg == "--port"@ {
            let port = if args.len() >= 2 {
                match number_within(args[1], false, 0, u16::MAX as int) {
                    Some(n) => n as u16,
                    None => st.port,
                }
            } else {
                st.port
            };
            server_read(ServerArgs { port, ..st }, after)
        } else if arg == "--serverfifo"@ {
            let socket_path = if args.len() >= 2 {
                Some(args[1])
            } else {
                st.socket_path
            };
            server_read(ServerArgs { socket_path, ..st }, after)
        } else if arg == "-v"@ || arg == "--verbose"@ || arg == "--logtostdout"@ || arg
            == "--logdir"@ {
            server_read(st, after)
        } else if arg == "-h"@ || arg == "--help"@ {
            Ok(None)
        } else {
            Err("unrecognized argument "@ + quoted_text(arg))
        }
    }
}

/// Reads a command line of the server, without the program's name.
pub fn parse_server_args(args: &Vec<String>) -> (res: Result<Parsed<ServerOptions>, String>)
    ensures
        match server_read(ServerArgs { port: DEFAULT_PORT, socket_path: None }, texts(args@)) {
            Err(m) => res matches Err(e) && e@ == m,
            Ok(None) => res matches Ok(Parsed::Help),
            Ok(Some(st)) => res matches Ok(Parsed::Run(o)) && o.port == st.port && opt_text(
                o.socket_path,
            ) == st.socket_path,
        },
{
    let mut port: u16 = DEFAULT_PORT;
    let mut socket_path: Option<String> = None;
    let ghost all = texts(args@);
    let ghost want = server_read(ServerArgs { port: DEFAULT_PORT, socket_path: None }, all);
    let mut i: usize = 0;
    assert(all.skip(0) =~= all);
    while i < args.len()
        invariant
            i <= args@.len(),
            all == texts(args@),
            want == server_read(ServerArgs { port: DEFAULT_PORT, socket_path: None }, all),
            want == server_read(
                ServerArgs { port, socket_path: opt_text(socket_path) },
                all.skip(i as int),
            ),
        decreases args.len() - i,
    {
        let ghost rest = all.skip(i as int);
        assert(rest[0] == args@[i as int]@);
        assert(rest.len() >= 2 ==> rest[1] == args@[i + 1]@);
        assert(rest.len() >= 2 ==> rest.skip(2) =~= all.skip(i + 2));
        assert(rest.len() < 2 ==> all.skip(all.len() as int) =~= Seq::<Seq<char>>::empty());
        let arg = args[i].as_str();
        if same_text(arg, "--port") {
            if let Some(v) = value_after(args, i) {
                if let Some(n) = parse_unsigned(chars_of(v.as_str()).as_slice(), 65535) {
                    port = n as u16;
                }
            }
        } else if same_text(arg, "--serverfifo") {
            if let Some(v) = value_after(args, i) {
                socket_path = Some(v);
            }
        } else if is_either(arg, "-v", "--verbose") || is_either(arg, "--logtostdout", "--logdir") {
        } else if is_either(arg, "-h", "--help") {
            return Ok(Parsed::Help);
        } else {
            return Err(joined("unrecognized argument ", quoted(arg).as_str()));
        }
        i = if args.len() - i >= 2 {
            i + 2
        } else {
            args.len()
        };
    }
    Ok(Parsed::Run(ServerOptions { port, socket_path }))
}

// ---------------------------------------------------------------------------
// The terminal
// ---------------------------------------------------------------------------

/// Id and passkey in a text of the form `id/passkey` or `id/passkey_TERM`.
pub open spec fn idpasskey_of(value: Seq<char>) -> Option<(Seq<char>, Seq<char>)> {
    split_first(split(value, '_')[0], '/')
}

/// Id and passkey in a text of the form `id/passkey` or `id/passkey_TERM`.
pub fn parse_idpasskey(value: &str) -> (res: Option<(String, String)>)
    ensures
        match res {
            Some((id, passkey)) => idpasskey_of(value@) == Some((id@, passkey@)),
            None => idpasskey_of(value@) is None,
        },
{
    let chars = chars_of(value);
    let parts = split_at_char(chars.as_slice(), '_');
    assert(split(value@, '_')[0] == parts@[0]@) by {
        assert(crate::text::pieces(parts@)[0] == parts@[0]@);
    }
    match split_once(parts[0].as_slice(), '/') {
        Some((id, passkey)) => Some((string_of(id.as_slice()), string_of(passkey.as_slice()))),
        None => None,
    }
}

/// Id and passkey in the contents of a file.
pub fn parse_idpasskey_file(content: &str) -> (res: Option<(String, String)>)
    ensures
        match res {
            Some((id, passkey)) => idpasskey_of(without_eol(content@)) == Some((id@, passkey@)),
            None => idpasskey_of(without_eol(content@)) is None,
        },
{
    let chars = chars_of(content);
    let stripped = strip_eol(chars.as_slice());
    let text = string_of(stripped.as_slice());
    parse_idpasskey(text.as_str())
}

/// What was read of a command line of the terminal.
#[verifier::ext_equal]
pub struct TerminalArgs {
    pub idpasskey: Option<(Seq<char>, Seq<char>)>,
    pub socket_path: Option<Seq<char>>,
    pub jump: bool,
    pub dsthost: Seq<char>,
    pub dstport: u16,
    /// How many files with credentials were read.
    pub files: nat,
}

/// What comes of one argument.
pub enum TerminalStep {
    /// It was taken in.
    Next(TerminalArgs),
    /// It names a file that was not read yet.
    Read(Seq<char>),
    /// It is not known.
    Unknown,
}

/// What the argument `arg` with what follows it makes of what was read.
/// `contents` are the files with credentials, in the order of their arguments,
/// as far as they were read.
pub open spec fn terminal_step(
    st: TerminalArgs,
    arg: Seq<char>,
    value: Option<Seq<char>>,
    contents: Seq<Seq<char>>,
) -> TerminalStep {
    if arg == "--idpasskey"@ {
        TerminalStep::Next(
            match value {
                Some(v) => TerminalArgs { idpasskey: idpasskey_of(v), ..st },
                None => st,
            },
        )
    } else if arg == "--idpasskeyfile"@ {
        match value {
            Some(v) => if st.files < contents.len() {
                TerminalStep::Next(
                    TerminalArgs {
                        idpasskey: idpasskey_of(without_eol(contents[st.files as int])),
                        files: st.files + 1,
                        ..st
                    },
                )
            } else {
                TerminalStep::Read(v)
            },
            None => TerminalStep::Next(st),
        }
    } else if arg == "--serverfifo"@ {
        TerminalStep::Next(
            match value {
                Some(v) => TerminalArgs { socket_path: Some(v), ..st },
                None => st,
            },
        )
    } else if arg == "--dsthost"@ {
        TerminalStep::Next(
            match value {
                Some(v) => TerminalArgs { dsthost: v, ..st },
                None => st,
            },
        )
    } else if arg == "--dstport"@ {
        TerminalStep::Next(
            match value {
                Some(v) => TerminalArgs {
                    dstport: match number_within(v, false, 0, u16::MAX as int) {
                        Some(n) => n as u16,
                        None => 0,
                    },
                    ..st
                },
                None => st,
            },
        )
    } else if arg == "-v"@ || arg == "--verbose"@ || arg == "--logdir"@ || arg == "--logtostdout"@ {
        TerminalStep::Next(st)
    } else {
        TerminalStep::Unknown
    }
}

/// What a command line of the terminal comes to, as a value of the model.
pub enum TerminalOutcome {
    Run(TerminalArgs),
    Help,
    Read(Seq<char>),
}

/// What a command line of the terminal comes to.
pub open spec fn terminal_read(
    st: TerminalArgs,
    args: Seq<Seq<char>>,
    contents: Seq<Seq<char>>,
) -> Result<TerminalOutcome, Seq<char>>
    decreases args.len(),
{
    if args.len() == 0 {
        Ok(TerminalOutcome::Run(st))
    } else {
        let arg = args[0];
        if arg == "--jump"@ {
            terminal_read(TerminalArgs { jump: true, ..st }, args.skip(1), contents)
        } else if arg == "-h"@ || arg == "--help"@ {
            Ok(TerminalOutcome::Help)
        } else {
            let value = if args.len() >= 2 {
                Some(args[1])
            } else {
                None
            };
            let after = if args.len() >= 2 {
                args.skip(2)
            } else {
                Seq::empty()
            };
            match terminal_step(st, arg, value, contents) {
                TerminalStep::Next(next) => terminal_read(next, after, contents),
                TerminalStep::Read(path) => Ok(TerminalOutcome::Read(path)),
                TerminalStep::Unknown => Err("unrecognized argument "@ + quoted_text(arg)),
            }
        }
    }
}

/// Before anything was read.
pub open spec fn terminal_start() -> TerminalArgs {
    TerminalArgs {
        idpasskey: None,
        socket_path: None,
        jump: false,
        dsthost: Seq::empty(),
        dstport: 0,
        files: 0,
    }
}

/// What was read of a command line of the terminal.
struct TerminalState {
    options: TerminalOptions,
    files: usize,
}

impl View for TerminalState {
    type V = TerminalArgs;

    closed spec fn view(&self) -> TerminalArgs {
        TerminalArgs {
            idpasskey: opt_pair(self.options.idpasskey),
            socket_path: opt_text(self.options.socket_path),
            jump: self.options.jump,
            dsthost: self.options.dsthost@,
            dstport: self.options.dstport,
            files: self.files as nat,
        }
    }
}

/// What comes of one argument.
enum TerminalTaken {
    Next,
    Read(String),
    Unknown,
}

impl TerminalState {
    fn step(&mut self, arg: &str, value: Option<String>, contents: &Vec<String>) -> (res:
        TerminalTaken)
        requires
            old(self).files <= contents@.len(),
        ensures
            match terminal_step(old(self)@, arg@, opt_text(value), texts(contents@)) {
                TerminalStep::Next(next) => res is Next && final(self)@ == next,
                TerminalStep::Read(path) => res matches TerminalTaken::Read(p) && p@ == path,
                TerminalStep::Unknown => res is Unknown,
            },
            final(self).files <= contents@.len(),
            final(self).options.term == old(self).options.term,
            final(self).options.shell == old(self).options.shell,
            final(self).options.home == old(self).options.home,
    {
        let ghost st = self@;
        if same_text(arg, "--idpasskey") {
            if let Some(v) = value {
                self.options.idpasskey = parse_idpasskey(v.as_str());
                assert(self@ =~= (TerminalArgs { idpasskey: idpasskey_of(v@), ..st }));
            }
            TerminalTaken::Next
        } else if same_text(arg, "--idpasskeyfile") {
            match value {
                Some(v) => {
                    if self.files >= contents.len() {
                        return TerminalTaken::Read(v);
                    }
                    let ghost content = contents@[self.files as int]@;
                    assert(texts(contents@)[self.files as int] == content);
                    self.options.idpasskey = parse_idpasskey_file(contents[self.files].as_str());
                    self.files = self.files + 1;
                    assert(self@ =~= (TerminalArgs {
                        idpasskey: idpasskey_of(without_eol(content)),
                        files: st.files + 1,
                        ..st
                    }));
                    TerminalTaken::Next
                },
                None => TerminalTaken::Next,
            }
        } else if same_text(arg, "--serverfifo") {
            if let Some(v) = value {
                self.options.socket_path = Some(v);
                assert(self@ =~= (TerminalArgs { socket_path: Some(v@), ..st }));
            }
            TerminalTaken::Next
        } else if same_text(arg, "--dsthost") {
            if let Some(v) = value {
                self.options.dsthost = v;
            }
            TerminalTaken::Next
        } else if same_text(arg, "--dstport") {
            if let Some(v) = value {
                self.options.dstport = match parse_unsigned(
                    chars_of(v.as_str()).as_slice(),
                    65535,
                ) {
                    Some(n) => n as u16,
                    None => 0,
                };
            }
            TerminalTaken::Next
        } else if is_either(arg, "-v", "--verbose") || is_either(arg, "--logdir", "--logtostdout") {
            TerminalTaken::Next
        } else {
            TerminalTaken::Unknown
        }
    }
}

/// What a command line of the terminal amounts to.
pub enum TerminalParsed {
    Run(TerminalOptions),
    Help,
    /// A file with credentials is to be read; then the command line is to be
    /// parsed again with its contents added.
    Read(String),
}

/// Whether `res` is what was read of a command line of the terminal.
pub open spec fn terminal_made(res: TerminalParsed, want: TerminalOutcome) -> bool {
    match want {
        TerminalOutcome::Run(st) => res matches TerminalParsed::Run(o) && {
            &&& opt_pair(o.idpasskey) == st.idpasskey
            &&& opt_text(o.socket_path) == st.socket_path
            &&& o.jump == st.jump
            &&& o.dsthost@ == st.dsthost
            &&& o.dstport == st.dstport
            &&& o.term is None
            &&& o.shell is None
            &&& o.home is None
        },
        TerminalOutcome::Help => res is Help,
        TerminalOutcome::Read(path) => res matches TerminalParsed::Read(p) && p@ == path,
    }
}

/// Reads a command line of the terminal, without the program's name.
/// `contents` are the files with credentials that were read so far, in the
/// order of their arguments.
pub fn parse_terminal_args(args: &Vec<String>, contents: &Vec<String>) -> (res: Result<
    TerminalParsed,
    String,
>)
    ensures
        match terminal_read(terminal_start(), texts(args@), texts(contents@)) {
            Err(m) => res matches Err(e) && e@ == m,
            Ok(want) => res matches Ok(p) && terminal_made(p, want),
        },
{
    let mut cli = TerminalState { options: TerminalOptions::default(), files: 0 };
    let ghost all = texts(args@);
    let ghost read = texts(contents@);
    let ghost want = terminal_read(terminal_start(), all, read);
    let mut i: usize = 0;
    assert(all.skip(0) =~= all);
    assert(cli@ =~= terminal_start());
    while i < args.len()
        invariant
            i <= args@.len(),
            all == texts(args@),
            read == texts(contents@),
            want == terminal_read(terminal_start(), all, read),
            want == terminal_read(cli@, all.skip(i as int), read),
            cli.files <= contents@.len(),
            cli.options.term is None,
            cli.options.shell is None,
            cli.options.home is None,
        decreases args.len() - i,
    {
        let ghost rest = all.skip(i as int);
        let ghost st = cli@;
        assert(rest[0] == args@[i as int]@);
        assert(rest.len() >= 2 ==> rest[1] == args@[i + 1]@);
        assert(rest.len() >= 2 ==> rest.skip(2) =~= all.skip(i + 2));
        assert(rest.len() < 2 ==> all.skip(all.len() as int) =~= Seq::<Seq<char>>::empty());
        assert(rest.skip(1) =~= all.skip(i + 1));
        let arg = args[i].as_str();
        if same_text(arg, "--jump") {
            cli.options.jump = true;
            assert(cli@ =~= (TerminalArgs { jump: true, ..st }));
            i += 1;
        } else if is_either(arg, "-h", "--help") {
            return Ok(TerminalParsed::Help);
        } else {
            let value = value_after(args, i);
            match cli.step(arg, value, contents) {
                TerminalTaken::Next => {},
                TerminalTaken::Read(path) => {
                    return Ok(TerminalParsed::Read(path));
                },
                TerminalTaken::Unknown => {
                    return Err(joined("unrecognized argument ", quoted(arg).as_str()));
                },
            }
            i = if args.len() - i >= 2 {
                i + 2
            } else {
                args.len()
            };
        }
    }
    Ok(TerminalParsed::Run(cli.options))
}

// ---------------------------------------------------------------------------
// Laws
// ---------------------------------------------------------------------------

/// The names of the options differ.
proof fn lemma_names()
    ensures
        "-c"@.len() == 2 && "-c"@[0] == '-' && "-c"@[1] == 'c',
        "--command"@.len() == 9 && "--command"@[0] == '-' && "--command"@[2] == 'c',
        "--no-exit"@.len() == 9 && "--no-exit"@[0] == '-' && "--no-exit"@[2] == 'n',
        "-k"@.len() == 2 && "-k"@[0] == '-' && "-k"@[1] == 'k',
        "--keepalive"@.len() == 11 && "--keepalive"@[0] == '-' && "--keepalive"@[2] == 'k',
        "-t"@.len() == 2 && "-t"@[0] == '-' && "-t"@[1] == 't',
        "--tunnel"@.len() == 8 && "--tunnel"@[0] == '-' && "--tunnel"@[2] == 't',
        "-r"@.len() == 2 && "-r"@[0] == '-' && "-r"@[1] == 'r',
        "--reversetunnel"@.len() == 15 && "--reversetunnel"@[0] == '-' && "--reversetunnel"@[2] == 'r',
        "--jumphost"@.len() == 10 && "--jumphost"@[0] == '-',
        "-J"@.len() == 2 && "-J"@[0] == '-' && "-J"@[1] == 'J',
        "--serverfifo"@.len() == 12 && "--serverfifo"@[0] == '-' && "--serverfifo"@[3] == 'e',
        "--etterminal-path"@.len() == 17 && "--etterminal-path"@[0] == '-',
        "--kill"@.len() == 6 && "--kill"@[0] == '-' && "--kill"@[2] == 'k',
        "-u"@.len() == 2 && "-u"@[0] == '-' && "-u"@[1] == 'u',
        "--user"@.len() == 6 && "--user"@[0] == '-' && "--user"@[2] == 'u',
        "-o"@.len() == 2 && "-o"@[0] == '-' && "-o"@[1] == 'o',
        "--ssh-option"@.len() == 12 && "--ssh-option"@[0] == '-' && "--ssh-option"@[3] == 's',
        "-p"@.len() == 2 && "-p"@[0] == '-' && "-p"@[1] == 'p',
        "--port"@.len() == 6 && "--port"@[0] == '-' && "--port"@[2] == 'p',
        "-v"@.len() == 2 && "-v"@[0] == '-' && "-v"@[1] == 'v',
        "--verbose"@.len() == 9 && "--verbose"@[0] == '-' && "--verbose"@[2] == 'v',
        "-h"@.len() == 2 && "-h"@[0] == '-' && "-h"@[1] == 'h',
        "--help"@.len() == 6 && "--help"@[0] == '-' && "--help"@[2] == 'h',
        "--idpasskey"@.len() == 11 && "--idpasskey"@[0] == '-' && "--idpasskey"@[2] == 'i',
        "--idpasskeyfile"@.len() == 15 && "--idpasskeyfile"@[0] == '-' && "--idpasskeyfile"@[2] == 'i',
        "--dsthost"@.len() == 9 && "--dsthost"@[0] == '-' && "--dsthost"@[2] == 'd' && "--dsthost"@[5] == 'h',
        "--dstport"@.len() == 9 && "--dstport"@[0] == '-' && "--dstport"@[2] == 'd' && "--dstport"@[5] == 'p',
        "--logdir"@.len() == 8 && "--logdir"@[0] == '-' && "--logdir"@[2] == 'l',
        "--logtostdout"@.len() == 13 && "--logtostdout"@[0] == '-',
        "--jump"@.len() == 6 && "--jump"@[0] == '-' && "--jump"@[2] == 'j',
{
    reveal_strlit("-c");
    reveal_strlit("--command");
    reveal_strlit("--no-exit");
    reveal_strlit("-k");
    reveal_strlit("--keepalive");
    reveal_strlit("-t");
    reveal_strlit("--tunnel");
    reveal_strlit("-r");
    reveal_strlit("--reversetunnel");
    reveal_strlit("--jumphost");
    reveal_strlit("-J");
    reveal_strlit("--serverfifo");
    reveal_strlit("--etterminal-path");
    reveal_strlit("--kill");
    reveal_strlit("-u");
    reveal_strlit("--user");
    reveal_strlit("-o");
    reveal_strlit("--ssh-option");
    reveal_strlit("-p");
    reveal_strlit("--port");
    reveal_strlit("-v");
    reveal_strlit("--verbose");
    reveal_strlit("-h");
    reveal_strlit("--help");
    reveal_strlit("--idpasskey");
    reveal_strlit("--idpasskeyfile");
    reveal_strlit("--dsthost");
    reveal_strlit("--dstport");
    reveal_strlit("--logdir");
    reveal_strlit("--logtostdout");
    reveal_strlit("--jump");
}

proof fn lemma_two(a: Seq<char>, b: Seq<char>, rest: Seq<Seq<char>>)
    ensures
        (seq![a, b] + rest).len() == rest.len() + 2,
        (seq![a, b] + rest)[0] == a,
        (seq![a, b] + rest)[1] == b,
        (seq![a, b] + rest).skip(2) == rest,
{
    assert((seq![a, b] + rest).skip(2) =~= rest);
}

proof fn lemma_one(a: Seq<char>, rest: Seq<Seq<char>>)
    ensures
        (seq![a] + rest).len() == rest.len() + 1,
        (seq![a] + rest)[0] == a,
        (seq![a] + rest).skip(1) == rest,
{
    assert((seq![a] + rest).skip(1) =~= rest);
}

/// Each option of the client sets one thing, to the value that follows it if
/// it takes one, and leaves the rest of what was read as it was. A later one
/// takes the place of an earlier one; options for ssh add up.
#[verifier::rlimit(40)]
pub proof fn law_client_options(
    st: CliView,
    v: Seq<char>,
    n: u64,
    p: u16,
    l: i32,
    rest: Seq<Seq<char>>,
)
    ensures
        cli_read(st, seq!["-c"@, v] + rest) == cli_read((CliView { command: Some(v), ..st }), rest),
        cli_read(st, seq!["--command"@, v] + rest) == cli_read((CliView { command: Some(v), ..st }), rest),
        cli_read(st, seq!["-k"@, decimal(n as nat)] + rest) == cli_read((CliView { keepalive: n, ..st }), rest),
        cli_read(st, seq!["--keepalive"@, decimal(n as nat)] + rest) == cli_read((CliView { keepalive: n, ..st }), rest),
        cli_read(st, seq!["--serverfifo"@, v] + rest) == cli_read((CliView { server_fifo: Some(v), ..st }), rest),
        cli_read(st, seq!["--etterminal-path"@, v] + rest) == cli_read((CliView { etterminal_path: v, ..st }), rest),
        cli_read(st, seq!["-u"@, v] + rest) == cli_read((CliView { user: v, ..st }), rest),
        cli_read(st, seq!["--user"@, v] + rest) == cli_read((CliView { user: v, ..st }), rest),
        cli_read(st, seq!["-o"@, v] + rest) == cli_read((CliView { options: st.options.push(v), ..st }), rest),
        cli_read(st, seq!["--ssh-option"@, v] + rest) == cli_read((CliView { options: st.options.push(v), ..st }), rest),
        cli_read(st, seq!["-p"@, decimal(p as nat)] + rest) == cli_read((CliView { et_port: p, ..st }), rest),
        cli_read(st, seq!["--port"@, decimal(p as nat)] + rest) == cli_read((CliView { et_port: p, ..st }), rest),
        cli_read(st, seq!["-v"@, decimal_int(l as int)] + rest) == cli_read((CliView { verbose: l, ..st }), rest),
        cli_read(st, seq!["--verbose"@, decimal_int(l as int)] + rest) == cli_read((CliView { verbose: l, ..st }), rest),
        cli_read(st, seq!["--no-exit"@] + rest) == cli_read((CliView { no_exit: true, ..st }), rest),
        cli_read(st, seq!["--kill"@] + rest) == cli_read((CliView { kill: true, ..st }), rest),
{
    lemma_names();
    law_decimal_reads_back(n as nat);
    law_decimal_reads_back(p as nat);
    law_signed_decimal_reads_back(l as int);
    lemma_two("-c"@, v, rest);
    lemma_two("--command"@, v, rest);
    lemma_two("-k"@, decimal(n as nat), rest);
    lemma_two("--keepalive"@, decimal(n as nat), rest);
    lemma_two("--serverfifo"@, v, rest);
    lemma_two("--etterminal-path"@, v, rest);
    lemma_two("-u"@, v, rest);
    lemma_two("--user"@, v, rest);
    lemma_two("-o"@, v, rest);
    lemma_two("--ssh-option"@, v, rest);
    lemma_two("-p"@, decimal(p as nat), rest);
    lemma_two("--port"@, decimal(p as nat), rest);
    lemma_two("-v"@, decimal_int(l as int), rest);
    lemma_two("--verbose"@, decimal_int(l as int), rest);
    lemma_one("--no-exit"@, rest);
    lemma_one("--kill"@, rest);
}

/// Without options, a command line names a target and leaves everything else
/// at its default: five seconds of silence before a probe, port 2022, a shell
/// and no command.
#[verifier::rlimit(40)]
pub proof fn law_client_defaults(target: Seq<char>)
    requires
        target.len() > 0,
        target[0] != '-',
    ensures
        cli_read(cli_start(), seq![target]) == Ok::<Option<CliView>, Seq<char>>(
            Some(
                (CliView {
                    command: None,
                    no_exit: false,
                    keepalive: 5,
                    server_fifo: None,
                    etterminal_path: Seq::empty(),
                    kill: false,
                    user: Seq::empty(),
                    options: Seq::empty(),
                    et_port: 2022,
                    verbose: 0,
                    positional: Some(target),
                }),
            ),
        ),
{
    lemma_names();
    let args = seq![target];
    assert(args.skip(1) =~= Seq::<Seq<char>>::empty());
    assert(cli_step(cli_start(), args) == CliStep::Next(
        CliView { positional: Some(target), ..cli_start() },
        1,
    ));
    assert(cli_read(cli_start(), args) == cli_read(
        CliView { positional: Some(target), ..cli_start() },
        args.skip(1),
    ));
    assert(cli_read(
        CliView { positional: Some(target), ..cli_start() },
        Seq::<Seq<char>>::empty(),
    ) == Ok::<Option<CliView>, Seq<char>>(
        Some(CliView { positional: Some(target), ..cli_start() }),
    ));
}

/// A target is taken wherever it stands, once; a second one is refused, and so
/// is an option that is not known or that lacks its value. Help is given
/// wherever it is asked for.
#[verifier::rlimit(40)]
pub proof fn law_client_arguments(st: CliView, arg: Seq<char>, rest: Seq<Seq<char>>)
    ensures
        (arg.len() <= 1 || arg[0] != '-') && st.positional is None ==> cli_read(
            st,
            seq![arg] + rest,
        ) == cli_read((CliView { positional: Some(arg), ..st }), rest),
        (arg.len() <= 1 || arg[0] != '-') && st.positional is Some ==> cli_read(
            st,
            seq![arg] + rest,
        ) is Err,
        arg.len() > 17 && arg[0] == '-' ==> cli_read(st, seq![arg] + rest) is Err,
        arg.len() > 2 && arg[0] == '-' && arg[1] != '-' ==> cli_read(st, seq![arg] + rest) is Err,
        cli_read(st, seq!["-h"@] + rest) == Ok::<Option<CliView>, Seq<char>>(None),
        cli_read(st, seq!["--help"@] + rest) == Ok::<Option<CliView>, Seq<char>>(None),
        cli_read(st, seq!["-c"@]) is Err,
        cli_read(st, seq!["--keepalive"@]) is Err,
        cli_read(st, seq!["--port"@]) is Err,
        cli_read(st, seq!["-o"@]) is Err,
{
    lemma_names();
    lemma_second_char();
    lemma_one(arg, rest);
    lemma_one("-h"@, rest);
    lemma_one("--help"@, rest);
}

proof fn lemma_second_char()
    ensures
        "--command"@[1] == '-',
        "--no-exit"@[1] == '-',
        "--keepalive"@[1] == '-',
        "--tunnel"@[1] == '-',
        "--reversetunnel"@[1] == '-',
        "--jumphost"@[1] == '-',
        "--serverfifo"@[1] == '-',
        "--etterminal-path"@[1] == '-',
        "--kill"@[1] == '-',
        "--user"@[1] == '-',
        "--ssh-option"@[1] == '-',
        "--port"@[1] == '-',
        "--verbose"@[1] == '-',
        "--help"@[1] == '-',
        "--idpasskey"@[1] == '-',
        "--idpasskeyfile"@[1] == '-',
        "--dsthost"@[1] == '-',
        "--dstport"@[1] == '-',
        "--logdir"@[1] == '-',
        "--logtostdout"@[1] == '-',
        "--jump"@[1] == '-',
{
    reveal_strlit("--command");
    reveal_strlit("--no-exit");
    reveal_strlit("--keepalive");
    reveal_strlit("--tunnel");
    reveal_strlit("--reversetunnel");
    reveal_strlit("--jumphost");
    reveal_strlit("--serverfifo");
    reveal_strlit("--etterminal-path");
    reveal_strlit("--kill");
    reveal_strlit("--user");
    reveal_strlit("--ssh-option");
    reveal_strlit("--port");
    reveal_strlit("--verbose");
    reveal_strlit("--help");
    reveal_strlit("--idpasskey");
    reveal_strlit("--idpasskeyfile");
    reveal_strlit("--dsthost");
    reveal_strlit("--dstport");
    reveal_strlit("--logdir");
    reveal_strlit("--logtostdout");
    reveal_strlit("--jump");
}

/// A target comes apart at its first at-sign and its last colon: a user before
/// the one, or else the user of the environment, a port after the other, or
/// else the default one.
#[verifier::rlimit(40)]
pub proof fn law_target(u: Seq<char>, h: Seq<char>, p: u16, user: Seq<char>)
    requires
        !u.contains('@'),
        h.len() > 0,
    ensures
        !h.contains(':') ==> target_parts(u + "@"@ + h, user) == Ok::<
            (Seq<char>, Seq<char>, u16),
            Seq<char>,
        >((u, h, 2022)),
        !h.contains(':') && !h.contains('@') ==> target_parts(h, user) == Ok::<
            (Seq<char>, Seq<char>, u16),
            Seq<char>,
        >((user, h, 2022)),
        target_parts(u + "@"@ + h + ":"@ + decimal(p as nat), user) == Ok::<
            (Seq<char>, Seq<char>, u16),
            Seq<char>,
        >((u, h, p)),
        !h.contains('@') ==> target_parts(h + ":"@ + decimal(p as nat), user) == Ok::<
            (Seq<char>, Seq<char>, u16),
            Seq<char>,
        >((user, h, p)),
{
    reveal_strlit("@");
    reveal_strlit(":");
    assert("@"@ =~= seq!['@']);
    assert(":"@ =~= seq![':']);
    let d = decimal(p as nat);
    law_decimal_reads_back(p as nat);
    law_decimal_has_only(p as nat, ':');
    law_decimal_has_only(p as nat, '@');
    law_split_in_two(u, '@', h);
    law_split_in_two(h, '@', Seq::empty());
    law_split_in_two(h, ':', d);
    let hp = h + seq![':'] + d;
    law_split_in_two(u, '@', hp);
    assert(u + seq!['@'] + hp =~= u + seq!['@'] + h + seq![':'] + d);
    if !h.contains('@') {
        assert forall|i: int| 0 <= i < hp.len() implies hp[i] != '@' by {
            if i < h.len() {
                assert(h.contains(h[i]));
            } else if i > h.len() {
                assert(d.contains(d[i - h.len() - 1]));
            }
        }
        law_split_in_two(hp, '@', Seq::empty());
    }
}

/// A target whose port is no number up to 65535 is refused.
pub proof fn law_target_with_bad_port(u: Seq<char>, h: Seq<char>, p: Seq<char>, user: Seq<char>)
    requires
        !u.contains('@'),
        h.len() > 0,
        !p.contains(':'),
        number_within(p, false, 0, 65535) is None,
    ensures
        target_parts(u + "@"@ + h + ":"@ + p, user) is Err,
{
    reveal_strlit("@");
    reveal_strlit(":");
    assert("@"@ =~= seq!['@']);
    assert(":"@ =~= seq![':']);
    law_split_in_two(h, ':', p);
    let hp = h + seq![':'] + p;
    law_split_in_two(u, '@', hp);
    assert(u + seq!['@'] + hp =~= u + seq!['@'] + h + seq![':'] + p);
}

/// What the client does with its target: it logs in as the user and at the host
/// named there, and connects to the port named there; to that of the option
/// where the target names none.
pub proof fn law_client_goes_to_its_target(
    cli: Cli,
    st: CliView,
    u: Seq<char>,
    h: Seq<char>,
    p: u16,
    user: Seq<char>,
    with_port: bool,
)
    requires
        !u.contains('@'),
        h.len() > 0,
        !h.contains(':'),
        p != 2022,
        ({
            let target = if with_port {
                u + "@"@ + h + ":"@ + decimal(p as nat)
            } else {
                u + "@"@ + h
            };
            &&& target_parts(target, user) is Ok
            &&& cli_made(cli, st, target_parts(target, user)->Ok_0)
        }),
    ensures
        cli.destination.user@ == u,
        cli.destination.host@ == h,
        cli.destination.port is None,
        cli.destination.jumphost is None,
        with_port ==> cli.et_port == p,
        !with_port ==> cli.et_port == st.et_port,
        texts(cli.destination.ssh_options@) == st.options,
        opt_text(cli.command) == st.command,
        cli.no_exit == st.no_exit,
        cli.keepalive == st.keepalive,
        cli.term_opts.kill_existing == st.kill,
        cli.term_opts.user@ == st.user,
        cli.term_opts.verbose == st.verbose,
        cli.term_opts.etterminal_path@ == st.etterminal_path,
        opt_text(cli.server_fifo) == st.server_fifo,
{
    law_target(u, h, p, user);
}

/// The address that the client connects to is a target of that host and port.
pub proof fn law_endpoint(h: Seq<char>, p: u16, user: Seq<char>)
    requires
        h.len() > 0,
        !h.contains('@'),
    ensures
        target_parts(endpoint_text(h, p), user) == Ok::<(Seq<char>, Seq<char>, u16), Seq<char>>(
            (user, h, p),
        ),
{
    law_target(Seq::empty(), h, p, user);
}

/// A command is a line of its own, and the shell ends after it unless it is to
/// stay.
pub proof fn law_command_line(command: Seq<char>)
    ensures
        run_input(command, true) == command.push('\n'),
        run_input(command, false) == run_input(command + "; exit"@, true),
{
    reveal_strlit("\n");
    reveal_strlit("; exit\n");
    reveal_strlit("; exit");
    assert(run_input(command, true) =~= command.push('\n'));
    assert(run_input(command, false) =~= run_input(command + "; exit"@, true));
}

/// The client asks for a shell of its own, and tells its version there.
pub proof fn law_client_request(version: Seq<char>)
    ensures
        client_request(version).jumphost == Some(false),
        client_request(version).reversetunnels.len() == 0,
        var_in(client_request(version).environmentvariables, "ET_VERSION"@) == Some(
            "rust-"@ + version,
        ),
{
    lemma_with_var(Seq::empty(), "ET_VERSION"@, "rust-"@ + version);
}

/// Each option of the server that sets something sets one thing; a port that is
/// no number sets nothing. Options on logging, with what follows them, count
/// for nothing.
#[verifier::rlimit(40)]
pub proof fn law_server_options(st: ServerArgs, v: Seq<char>, p: u16, rest: Seq<Seq<char>>)
    ensures
        server_read(st, Seq::empty()) == Ok::<Option<ServerArgs>, Seq<char>>(Some(st)),
        server_read(st, seq!["--port"@, decimal(p as nat)] + rest) == server_read(
            (ServerArgs { port: p, ..st }),
            rest,
        ),
        number_within(v, false, 0, 65535) is None ==> server_read(st, seq!["--port"@, v] + rest)
            == server_read(st, rest),
        server_read(st, seq!["--serverfifo"@, v] + rest) == server_read(
            (ServerArgs { socket_path: Some(v), ..st }),
            rest,
        ),
        server_read(st, seq!["-v"@, v] + rest) == server_read(st, rest),
        server_read(st, seq!["--verbose"@, v] + rest) == server_read(st, rest),
        server_read(st, seq!["--logdir"@, v] + rest) == server_read(st, rest),
        server_read(st, seq!["--logtostdout"@, v] + rest) == server_read(st, rest),
        server_read(st, seq!["-h"@] + rest) == Ok::<Option<ServerArgs>, Seq<char>>(None),
        server_read(st, seq!["--help"@] + rest) == Ok::<Option<ServerArgs>, Seq<char>>(None),
        v.len() > 0 && v[0] != '-' ==> server_read(st, seq![v] + rest) is Err,
{
    lemma_names();
    law_decimal_reads_back(p as nat);
    lemma_two("--port"@, decimal(p as nat), rest);
    lemma_two("--port"@, v, rest);
    lemma_two("--serverfifo"@, v, rest);
    lemma_two("-v"@, v, rest);
    lemma_two("--verbose"@, v, rest);
    lemma_two("--logdir"@, v, rest);
    lemma_two("--logtostdout"@, v, rest);
    lemma_one("-h"@, rest);
    lemma_one("--help"@, rest);
    lemma_one(v, rest);
}

/// The credentials that a text carries, with or without the name of a terminal
/// after them, and with or without a line end in a file.
pub proof fn law_idpasskey(id: Seq<char>, passkey: Seq<char>, term: Seq<char>)
    requires
        !id.contains('/'),
        !id.contains('_'),
        !passkey.contains('_'),
    ensures
        idpasskey_of(id + "/"@ + passkey) == Some((id, passkey)),
        idpasskey_of(id + "/"@ + passkey + "_"@ + term) == Some((id, passkey)),
        passkey.len() > 0 && passkey.last() != '\n' && passkey.last() != '\r' ==> idpasskey_of(
            without_eol((id + "/"@ + passkey).push('\n')),
        ) == Some((id, passkey)),
        idpasskey_of(id) is None,
{
    reveal_strlit("/");
    reveal_strlit("_");
    assert("/"@ =~= seq!['/']);
    assert("_"@ =~= seq!['_']);
    let both = id + seq!['/'] + passkey;
    assert forall|i: int| 0 <= i < both.len() implies both[i] != '_' by {
        if i < id.len() {
            assert(id.contains(id[i]));
        } else if i > id.len() {
            assert(passkey.contains(passkey[i - id.len() - 1]));
        }
    }
    law_split_in_two(id, '/', passkey);
    law_split_in_two(both, '_', term);
    law_split_in_two(id, '_', Seq::empty());
    law_split_in_two(id, '/', Seq::empty());
    lemma_first_piece(both, '_');
    lemma_first_piece(id, '_');
    lemma_first_piece(both + seq!['_'] + term, '_');
    law_without_eol(both);
}

proof fn lemma_first_piece(s: Seq<char>, c: char)
    ensures
        split(s, c)[0] == match split_first(s, c) {
            Some((a, _)) => a,
            None => s,
        },
{
    lemma_find(s, c);
}

/// Each option of the terminal sets one thing, to the value that follows it. A
/// port that is no number counts as none.
#[verifier::rlimit(40)]
pub proof fn law_terminal_options(
    st: TerminalArgs,
    v: Seq<char>,
    p: u16,
    rest: Seq<Seq<char>>,
    contents: Seq<Seq<char>>,
)
    ensures
        terminal_read(st, seq!["--idpasskey"@, v] + rest, contents) == terminal_read(
            (TerminalArgs { idpasskey: idpasskey_of(v), ..st }),
            rest,
            contents,
        ),
        terminal_read(st, seq!["--serverfifo"@, v] + rest, contents) == terminal_read(
            (TerminalArgs { socket_path: Some(v), ..st }),
            rest,
            contents,
        ),
        terminal_read(st, seq!["--dsthost"@, v] + rest, contents) == terminal_read(
            (TerminalArgs { dsthost: v, ..st }),
            rest,
            contents,
        ),
        terminal_read(st, seq!["--dstport"@, decimal(p as nat)] + rest, contents) == terminal_read(
            (TerminalArgs { dstport: p, ..st }),
            rest,
            contents,
        ),
        terminal_read(st, seq!["--jump"@] + rest, contents) == terminal_read(
            (TerminalArgs { jump: true, ..st }),
            rest,
            contents,
        ),
        terminal_read(st, seq!["-v"@, v] + rest, contents) == terminal_read(st, rest, contents),
        terminal_read(st, seq!["--verbose"@, v] + rest, contents) == terminal_read(
            st,
            rest,
            contents,
        ),
        terminal_read(st, seq!["--logdir"@, v] + rest, contents) == terminal_read(st, rest, contents),
        terminal_read(st, seq!["--logtostdout"@, v] + rest, contents) == terminal_read(
            st,
            rest,
            contents,
        ),
        v.len() > 0 && v[0] != '-' ==> terminal_read(st, seq![v] + rest, contents) is Err,
        terminal_read(st, seq!["--help"@] + rest, contents) == Ok::<TerminalOutcome, Seq<char>>(
            TerminalOutcome::Help,
        ),
{
    lemma_names();
    law_decimal_reads_back(p as nat);
    lemma_two("--idpasskey"@, v, rest);
    lemma_two("--serverfifo"@, v, rest);
    lemma_two("--dsthost"@, v, rest);
    lemma_two("--dstport"@, decimal(p as nat), rest);
    lemma_two("-v"@, v, rest);
    lemma_two("--verbose"@, v, rest);
    lemma_two("--logdir"@, v, rest);
    lemma_two("--logtostdout"@, v, rest);
    lemma_one("--jump"@, rest);
    lemma_one("--help"@, rest);
    lemma_one(v, rest);
}

/// A file with credentials is asked for by its name, and once it is there its
/// credentials count.
#[verifier::rlimit(40)]
pub proof fn law_credentials_file(
    st: TerminalArgs,
    path: Seq<char>,
    rest: Seq<Seq<char>>,
    contents: Seq<Seq<char>>,
    id: Seq<char>,
    passkey: Seq<char>,
)
    requires
        !id.contains('/'),
        !id.contains('_'),
        !passkey.contains('_'),
        passkey.len() > 0,
        passkey.last() != '\n',
        passkey.last() != '\r',
    ensures
        contents.len() <= st.files ==> terminal_read(
            st,
            seq!["--idpasskeyfile"@, path] + rest,
            contents,
        ) == Ok::<TerminalOutcome, Seq<char>>(TerminalOutcome::Read(path)),
        st.files < contents.len() && contents[st.files as int] == (id + "/"@ + passkey).push('\n')
            ==> terminal_read(st, seq!["--idpasskeyfile"@, path] + rest, contents) == terminal_read(
            (TerminalArgs { idpasskey: Some((id, passkey)), files: st.files + 1, ..st }),
            rest,
            contents,
        ),
{
    lemma_names();
    lemma_two("--idpasskeyfile"@, path, rest);
    law_idpasskey(id, passkey, Seq::empty());
}

/// Options of the client are refused without their value, and with one that is
/// no number where a number is meant; tunnels and relays are refused outright.
#[verifier::rlimit(40)]
pub proof fn law_client_refusals(st: CliView, v: Seq<char>, rest: Seq<Seq<char>>)
    ensures
        cli_read(st, seq!["-c"@]) is Err,
        cli_read(st, seq!["--command"@]) is Err,
        cli_read(st, seq!["-k"@]) is Err,
        cli_read(st, seq!["--keepalive"@]) is Err,
        cli_read(st, seq!["--serverfifo"@]) is Err,
        cli_read(st, seq!["--etterminal-path"@]) is Err,
        cli_read(st, seq!["-u"@]) is Err,
        cli_read(st, seq!["--user"@]) is Err,
        cli_read(st, seq!["-o"@]) is Err,
        cli_read(st, seq!["--ssh-option"@]) is Err,
        cli_read(st, seq!["-p"@]) is Err,
        cli_read(st, seq!["--port"@]) is Err,
        cli_read(st, seq!["-v"@]) is Err,
        cli_read(st, seq!["--verbose"@]) is Err,
        number_within(v, false, 0, u64::MAX as int) is None ==> cli_read(st, seq!["-k"@, v] + rest) is Err,
        number_within(v, false, 0, u64::MAX as int) is None ==> cli_read(st, seq!["--keepalive"@, v] + rest) is Err,
        number_within(v, false, 0, 65535) is None ==> cli_read(st, seq!["-p"@, v] + rest) is Err,
        number_within(v, false, 0, 65535) is None ==> cli_read(st, seq!["--port"@, v] + rest) is Err,
        number_within(v, true, i32::MIN as int, i32::MAX as int) is None ==> cli_read(st, seq!["-v"@, v] + rest) is Err,
        number_within(v, true, i32::MIN as int, i32::MAX as int) is None ==> cli_read(st, seq!["--verbose"@, v] + rest) is Err,
        cli_read(st, seq!["-t"@] + rest) is Err,
        cli_read(st, seq!["--tunnel"@] + rest) is Err,
        cli_read(st, seq!["-r"@] + rest) is Err,
        cli_read(st, seq!["--reversetunnel"@] + rest) is Err,
        cli_read(st, seq!["--jumphost"@] + rest) is Err,
        cli_read(st, seq!["-J"@] + rest) is Err,
{
    lemma_names();
    lemma_two("-k"@, v, rest);
    lemma_two("--keepalive"@, v, rest);
    lemma_two("-p"@, v, rest);
    lemma_two("--port"@, v, rest);
    lemma_two("-v"@, v, rest);
    lemma_two("--verbose"@, v, rest);
    lemma_one("-t"@, rest);
    lemma_one("--tunnel"@, rest);
    lemma_one("-r"@, rest);
    lemma_one("--reversetunnel"@, rest);
    lemma_one("--jumphost"@, rest);
    lemma_one("-J"@, rest);
}

/// A colon with no host before it is no mark of a port: it belongs to the host.
pub proof fn law_target_without_host(p: Seq<char>, user: Seq<char>)
    requires
        !p.contains(':'),
        !p.contains('@'),
    ensures
        target_parts(":"@ + p, user) == Ok::<(Seq<char>, Seq<char>, u16), Seq<char>>(
            (user, ":"@ + p, 2022),
        ),
{
    reveal_strlit(":");
    assert(":"@ =~= seq![':']);
    let h = seq![':'] + p;
    assert forall|i: int| 0 <= i < h.len() implies h[i] != '@' by {
        if i > 0 {
            assert(p.contains(p[i - 1]));
        }
    }
    law_split_in_two(h, '@', Seq::empty());
    law_split_in_two(Seq::empty(), ':', p);
    assert(Seq::<char>::empty() + seq![':'] + p =~= h);
}

/// Periods add up like the seconds that they are made of, up to the longest time
/// there is, and a longer one is never cut to a shorter.
pub proof fn law_periods_add_up(a: nat, b: nat)
    ensures
        a <= b ==> period_of(a) <= period_of(b),
        period_of(a) + period_of(b) <= u64::MAX ==> period_of(a + b) == period_of(a) + period_of(b),
        period_of(a) + period_of(b) > u64::MAX ==> period_of(a + b) == u64::MAX,
        period_of(1) == 1_000_000_000,
        period_of(0) == 0,
{
}

/// A session goes on with credentials that belong together: id and passkey both
/// as the terminal told them, or both as they were made. It has an id wherever
/// one was made or told.
pub proof fn law_credentials_stay_together(fresh: IdPasskey, told: IdPasskey)
    ensures
        ({
            let used = credentials_after(fresh, told);
            &&& told.id@.len() > 0 ==> used.id == told.id && used.passkey == told.passkey
            &&& told.id@.len() == 0 ==> used.id == fresh.id && used.passkey == fresh.passkey
            &&& fresh.id@.len() > 0 || told.id@.len() > 0 ==> used.id@.len() > 0
        }),
{
}

} // verus!
