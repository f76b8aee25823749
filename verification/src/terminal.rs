//! The terminal's side: the credentials it starts with, its registration, and
//! the loop between the local socket and the shell.

use vstd::prelude::*;
use crate::env::{var_in, with_var, without_var, EnvMap, Var};
use crate::error::ServerError;
use crate::fault::{complaint, Shape};
use crate::fifo::opt_str;
use crate::framing::{proto_frame, write_packet_frame, FrameError, IoFailure};
use crate::ids::{
    alphanumeric, alphanumeric_text, client_chosen, regen_if_client_chosen, RandomError, ID_LEN,
    PASSKEY_LEN,
};
use crate::jump::{check_jump, jump_endpoint};
use crate::messages::{
    TermInit, TermInitView, TerminalBuffer, TerminalBufferView, TerminalInfo, TerminalInfoView,
    TerminalUserInfo, TerminalUserInfoView,
};
use crate::packet::{clear_packet, Packet, PacketView};
use crate::terminal_packet_type::{
    TERMINAL_BUFFER, TERMINAL_INFO, TERMINAL_INIT, TERMINAL_USER_INFO,
};
use crate::text::{
    chars_of, copy_text, decimal, is_empty_text, joined, opt_text, preferred, push_decimal, split_first, split_once, string_of,
    strip_eol, texts, without_eol,
};

verus! {

/// What announces the credentials.
pub const IDPASSKEY_MARKER: &'static str = "IDPASSKEY:";

/// How much shell output is read at once.
pub const PTY_CHUNK: usize = 16 * 1024;

/// How much input may wait for the shell.
pub const MAX_PENDING_INPUT: usize = 256 * 1024;

/// How a terminal is set up.
#[derive(Debug, Clone, PartialEq, Eq)]
pub struct TerminalOptions {
    /// Id and passkey; without them they are read from standard input.
    pub idpasskey: Option<(String, String)>,
    pub term: Option<String>,
    /// The local socket; `None` stands for the default place.
    pub socket_path: Option<String>,
    /// The shell; `None` stands for that of the environment.
    pub shell: Option<String>,
    /// The home of the shell; `None` stands for that of the environment.
    pub home: Option<String>,
    /// Whether to relay to another server in place of running a shell.
    pub jump: bool,
    pub dsthost: String,
    pub dstport: u16,
}

impl Default for TerminalOptions {
    fn default() -> (res: TerminalOptions)
        ensures
            res.idpasskey is None,
            res.term is None,
            res.socket_path is None,
            res.shell is None,
            res.home is None,
            !res.jump,
            res.dsthost@ == Seq::<char>::empty(),
            res.dstport == 0,
    {
        TerminalOptions {
            idpasskey: None,
            term: None,
            socket_path: None,
            shell: None,
            home: None,
            jump: false,
            dsthost: String::new(),
            dstport: 0,
        }
    }
}

// ---------------------------------------------------------------------------
// Credentials
// ---------------------------------------------------------------------------

/// Id, passkey and terminal type in a line of the form
/// `<id>/<passkey>_<TERM>`.
pub open spec fn handshake_line(line: Seq<char>) -> Result<
    (Seq<char>, Seq<char>, Seq<char>),
    Seq<char>,
> {
    match split_first(without_eol(line), '_') {
        None => Err("invalid stdin handshake: expected '<id>/<passkey>_<TERM>'"@),
        Some((idpasskey, term)) => match split_first(idpasskey, '/') {
            None => Err("invalid stdin handshake: missing '/'"@),
            Some((id, passkey)) => Ok((id, passkey, term)),
        },
    }
}

/// Reads a line of the form `<id>/<passkey>_<TERM>`.
pub fn parse_handshake(line: &str) -> (res: Result<(String, String, String), ServerError>)
    ensures
        match (res, handshake_line(line@)) {
            (Ok((i, p, t)), Ok((id, passkey, term))) => i@ == id && p@ == passkey && t@ == term,
            (Err(e), Err(m)) => e.says(m),
            _ => false,
        },
{
    let chars = chars_of(line);
    let stripped = strip_eol(chars.as_slice());
    match split_once(stripped.as_slice(), '_') {
        None => Err(
            ServerError::other("invalid stdin handshake: expected '<id>/<passkey>_<TERM>'"),
        ),
        Some((idpasskey, term)) => match split_once(idpasskey.as_slice(), '/') {
            None => Err(ServerError::other("invalid stdin handshake: missing '/'")),
            Some((id, passkey)) => Ok(
                (
                    string_of(id.as_slice()),
                    string_of(passkey.as_slice()),
                    string_of(term.as_slice()),
                ),
            ),
        },
    }
}

/// The terminal type where none is given otherwise: the one asked for, that
/// of the environment, or a common one.
pub fn default_term(asked: Option<String>, environment: Option<String>) -> (res: String)
    ensures
        res@ == preferred(opt_text(asked), opt_text(environment), "xterm-256color"@),
{
    match asked {
        Some(t) => t,
        None => match environment {
            Some(t) => t,
            None => "xterm-256color".to_owned(),
        },
    }
}

/// Whether `out` are the credentials to use in place of those given: an id
/// that a client made up is replaced, with its passkey, by random ones; any
/// other stands.
pub open spec fn settled(
    id: Seq<char>,
    passkey: Seq<char>,
    new_id: Seq<char>,
    new_passkey: Seq<char>,
) -> bool {
    if client_chosen(id) {
        alphanumeric_text(new_id, ID_LEN as nat) && alphanumeric_text(
            new_passkey,
            PASSKEY_LEN as nat,
        )
    } else {
        new_id == id && new_passkey == passkey
    }
}

/// The credentials to use in place of those given, once new ones were drawn
/// for an id that asks for them.
pub fn settle(
    id: String,
    passkey: String,
    drawn: Result<Option<(String, String)>, RandomError>,
) -> (res: Result<(String, String), ServerError>)
    ensures
        match drawn {
            Err(_) => res matches Err(e) && e.says("system randomness unavailable"@),
            Ok(Some(fresh)) => res == Ok::<(String, String), ServerError>(fresh),
            Ok(None) => res == Ok::<(String, String), ServerError>((id, passkey)),
        },
{
    match drawn {
        Err(_) => Err(ServerError::other("system randomness unavailable")),
        Ok(Some(fresh)) => Ok(fresh),
        Ok(None) => Ok((id, passkey)),
    }
}

/// The credentials and terminal type that a terminal is given: explicitly, or
/// by a line of standard input.
pub open spec fn given(
    explicit: Option<(Seq<char>, Seq<char>)>,
    line: Seq<char>,
    term_default: Seq<char>,
) -> Result<(Seq<char>, Seq<char>, Seq<char>), Seq<char>> {
    match explicit {
        Some((id, passkey)) => Ok((id, passkey, term_default)),
        None => handshake_line(line),
    }
}

/// What a pair of strings holds.
pub open spec fn opt_pair(p: Option<(String, String)>) -> Option<(Seq<char>, Seq<char>)> {
    match p {
        Some((a, b)) => Some((a@, b@)),
        None => None,
    }
}

/// The credentials and terminal type that a terminal is given.
pub fn given_idpasskey(
    explicit: Option<(String, String)>,
    line: &str,
    term_default: String,
) -> (res: Result<(String, String, String), ServerError>)
    ensures
        match (res, given(opt_pair(explicit), line@, term_default@)) {
            (Ok((i, p, t)), Ok((id, passkey, term))) => i@ == id && p@ == passkey && t@ == term,
            (Err(e), Err(m)) => e.says(m),
            _ => false,
        },
{
    match explicit {
        Some((id, passkey)) => Ok((id, passkey, term_default)),
        None => parse_handshake(line),
    }
}

/// The credentials and terminal type that a terminal runs with: those that it
/// is given, or new ones in place of those that a client made up. [`settle`]
/// says what is made of the new ones that were drawn.
pub fn resolve_idpasskey(
    explicit: Option<(String, String)>,
    line: &str,
    term_default: String,
) -> (res: Result<(String, String, String), ServerError>)
    ensures
        match given(opt_pair(explicit), line@, term_default@) {
            Err(m) => res matches Err(e) && e.says(m),
            Ok((id, passkey, term)) => match res {
                Ok((i, p, t)) => settled(id, passkey, i@, p@) && t@ == term,
                Err(e) => client_chosen(id) && e.says("system randomness unavailable"@),
            },
        },
{
    let (id, passkey, term) = match given_idpasskey(explicit, line, term_default) {
        Ok(x) => x,
        Err(e) => {
            return Err(e);
        },
    };
    let drawn = regen_if_client_chosen(id.as_str());
    match settle(id, passkey, drawn) {
        Ok((i, p)) => Ok((i, p, term)),
        Err(e) => Err(e),
    }
}

/// The line that tells a client its credentials.
pub open spec fn announced_line(id: Seq<char>, passkey: Seq<char>) -> Seq<char> {
    "IDPASSKEY:"@ + id + "/"@ + passkey
}

/// The line that tells a client its credentials.
pub fn announcement(id: &str, passkey: &str) -> (res: String)
    ensures
        res@ == announced_line(id@, passkey@),
{
    let mut s = "IDPASSKEY:".to_owned();
    s.append(id);
    s.append("/");
    s.append(passkey);
    s
}

/// The packet that registers a terminal with its server.
pub open spec fn registration_view(id: Seq<char>, passkey: Seq<char>, uid: u32, gid: u32) -> PacketView {
    clear_packet(
        TERMINAL_USER_INFO,
        TerminalUserInfoView {
            id: Some(id),
            passkey: Some(passkey),
            uid: Some(uid as i64),
            gid: Some(gid as i64),
            fd: None,
        }.bytes(),
    )
}

/// The packet that registers a terminal with its server.
pub fn registration_packet(id: &str, passkey: &str, uid: u32, gid: u32) -> (res: Packet)
    ensures
        res@ == registration_view(id@, passkey@, uid, gid),
{
    let info = TerminalUserInfo {
        id: Some(copy_text(id)),
        passkey: Some(copy_text(passkey)),
        uid: Some(uid as i64),
        gid: Some(gid as i64),
        fd: None,
    };
    Packet::new(TERMINAL_USER_INFO, info.encode_to_vec())
}

/// What is said of a packet of a kind that is not due.
pub open spec fn wrong_packet(expected: u8, header: u8) -> Seq<char> {
    "expected packet header "@ + decimal(expected as nat) + ", got "@ + decimal(header as nat)
}

/// The payload of a packet of the kind that is due.
pub fn expected_payload(packet: Packet, expected: u8) -> (res: Result<Vec<u8>, ServerError>)
    ensures
        if packet@.header == expected {
            res matches Ok(p) && p@ == packet@.payload
        } else {
            res matches Err(e) && e.says(wrong_packet(expected, packet@.header))
        },
{
    if packet.header() != expected {
        let mut s = "expected packet header ".to_owned();
        push_decimal(&mut s, expected as u64);
        s.append(", got ");
        push_decimal(&mut s, packet.header() as u64);
        return Err(ServerError::Other(s));
    }
    Ok(packet.into_payload())
}

// ---------------------------------------------------------------------------
// Environment
// ---------------------------------------------------------------------------

/// The variables that names and values make up, pair by pair, for as long as
/// there are both.
pub open spec fn zipped(names: Seq<Seq<char>>, values: Seq<Seq<char>>, n: nat) -> Seq<Var>
    decreases n,
{
    if n == 0 {
        Seq::empty()
    } else {
        with_var(zipped(names, values, (n - 1) as nat), names[n - 1], values[n - 1])
    }
}

/// The environment that the server asks for.
pub open spec fn session_env(t: TermInitView) -> Seq<Var> {
    zipped(
        t.environmentnames,
        t.environmentvalues,
        if t.environmentnames.len() < t.environmentvalues.len() {
            t.environmentnames.len()
        } else {
            t.environmentvalues.len()
        },
    )
}

/// The environment and terminal type of a session: the type that the server
/// names takes the place of the terminal's own and leaves the environment.
pub fn session_environment(init: &[u8], term: String) -> (res: Result<
    (EnvMap, String),
    ServerError,
>)
    ensures
        match TermInitView::parse(init@) {
            None => res matches Err(e) && e.says(
                complaint("bad TermInit: "@, Shape::TermInit, init@),
            ),
            Some(t) => res matches Ok((env, chosen)) && env@ == without_var(
                session_env(t),
                "TERM"@,
            ) && chosen@ == match var_in(session_env(t), "TERM"@) {
                Some(v) => v,
                None => term@,
            },
        },
{
    let init = match TermInit::decode(init) {
        Ok(t) => t,
        Err(e) => {
            return Err(ServerError::Other(joined("bad TermInit: ", e.message().as_str())));
        },
    };
    let ghost names = texts(init.environmentnames@);
    let ghost values = texts(init.environmentvalues@);
    let mut env = EnvMap::new();
    let mut i: usize = 0;
    while i < init.environmentnames.len() && i < init.environmentvalues.len()
        invariant
            i <= init.environmentnames@.len(),
            i <= init.environmentvalues@.len(),
            names == texts(init.environmentnames@),
            values == texts(init.environmentvalues@),
            env@ == zipped(names, values, i as nat),
        decreases init.environmentnames.len() - i,
    {
        assert(names[i as int] == init.environmentnames@[i as int]@);
        assert(values[i as int] == init.environmentvalues@[i as int]@);
        env.insert(
            copy_text(init.environmentnames[i].as_str()),
            copy_text(init.environmentvalues[i].as_str()),
        );
        i += 1;
    }
    assert(env@ == session_env(init@));
    let chosen = match env.get("TERM") {
        Some(v) => copy_text(v),
        None => term,
    };
    env.remove("TERM");
    Ok((env, chosen))
}

/// The variables of `base`, with those of `more` on top.
pub open spec fn overlaid(base: Seq<Var>, more: Seq<Var>) -> Seq<Var>
    decreases more.len(),
{
    if more.len() == 0 {
        base
    } else {
        with_var(overlaid(base, more.drop_last()), more.last().0, more.last().1)
    }
}

/// The home of a shell: the one that was asked for, the user's, or none.
pub open spec fn shell_home(asked: Option<Seq<char>>, home: Option<Seq<char>>) -> Seq<char> {
    match (asked, home) {
        (Some(h), _) => h,
        (None, Some(h)) => h,
        (None, None) => Seq::empty(),
    }
}

/// The variables that a shell gets on top of the terminal's own: type, version
/// and home, and then those of the session.
pub open spec fn shell_env(
    term: Seq<char>,
    version: Seq<char>,
    home: Seq<char>,
    session: Seq<Var>,
) -> Seq<Var> {
    let own = with_var(Seq::empty(), "TERM"@, term);
    let own = with_var(own, "ET_VERSION"@, "rust-"@ + version);
    overlaid(with_var(own, "HOME"@, home), session)
}

/// The directory that a shell starts in: its home, and without one the root.
pub open spec fn shell_dir(home: Seq<char>) -> Seq<char> {
    if home.len() == 0 {
        "/"@
    } else {
        home
    }
}

/// How a shell is started.
pub struct ShellPlan {
    /// The variables set on top of the terminal's own.
    pub env: EnvMap,
    /// The directory it starts in.
    pub dir: String,
}

/// How the shell of a session is started, where `asked` is the home that was
/// asked for and `home` that of the user. It starts in its home, and without
/// one at the root.
pub fn plan_shell(
    term: &str,
    version: &str,
    session: &EnvMap,
    asked: Option<&str>,
    home: Option<&str>,
) -> (res: ShellPlan)
    ensures
        ({
            let home = shell_home(opt_str(asked), opt_str(home));
            &&& res.env@ == shell_env(term@, version@, home, session@)
            &&& res.dir@ == shell_dir(home)
        }),
{
    let place = match (asked, home) {
        (Some(h), _) => copy_text(h),
        (None, Some(h)) => copy_text(h),
        (None, None) => String::new(),
    };
    assert(place@ =~= shell_home(opt_str(asked), opt_str(home)));
    let mut env = EnvMap::new();
    env.insert("TERM".to_owned(), copy_text(term));
    env.insert("ET_VERSION".to_owned(), joined("rust-", version));
    env.insert("HOME".to_owned(), copy_text(place.as_str()));
    let ghost own = env@;
    let ghost all = session@;
    let mut i: usize = 0;
    assert(all.take(0) =~= Seq::<Var>::empty());
    while i < session.len()
        invariant
            i <= all.len(),
            all == session@,
            env@ == overlaid(own, all.take(i as int)),
        decreases all.len() - i,
    {
        assert(all.take(i + 1).drop_last() =~= all.take(i as int));
        env.insert(copy_text(session.name(i)), copy_text(session.value(i)));
        i += 1;
    }
    assert(all.take(i as int) =~= all);
    let dir = if is_empty_text(place.as_str()) {
        "/".to_owned()
    } else {
        place
    };
    ShellPlan { env, dir }
}

/// The window size of a shell until its client tells one.
pub fn start_size() -> (res: WindowSize)
    ensures
        res == (WindowSize { rows: 24, columns: 80, width: 0, height: 0 }),
{
    WindowSize { rows: 24, columns: 80, width: 0, height: 0 }
}

/// The shell to run: the one asked for, that of the environment, or `/bin/sh`.
pub fn choose_shell(asked: Option<String>, environment: Option<String>) -> (res: String)
    ensures
        res@ == preferred(opt_text(asked), opt_text(environment), "/bin/sh"@),
{
    match asked {
        Some(t) => t,
        None => match environment {
            Some(t) => t,
            None => "/bin/sh".to_owned(),
        },
    }
}

// ---------------------------------------------------------------------------
// Starting
// ---------------------------------------------------------------------------

/// What a terminal is at before it runs.
#[derive(Debug, Clone, Copy, PartialEq, Eq, Structural)]
pub enum StartupStage {
    /// It is registering with its server.
    Registering,
    /// It is telling its credentials.
    Announcing,
    /// It waits for the server's first packet.
    AwaitInit,
    /// It runs, or has failed.
    Over,
}

/// What happens to a terminal before it runs.
pub enum StartupInput {
    /// The registration was written, or was not.
    Registered(Result<(), IoFailure>),
    /// The credentials were told.
    Announced,
    /// The server's first packet came, or could not be read. `shell` is the
    /// shell of the environment.
    Init { packet: Result<Packet, FrameError>, shell: Option<String> },
}

/// What a terminal asks for before it runs.
pub enum StartupAction {
    /// Nothing.
    Nothing,
    /// Print a line.
    Announce(String),
    /// Read the server's first packet.
    AwaitInit,
    /// Relay to another server.
    Relay { endpoint: String },
    /// Run a shell.
    Spawn { shell: String, term: String, env: EnvMap },
    Fail(ServerError),
}

/// A terminal before it runs: it registers, tells its credentials, and then
/// either relays to another server or runs the shell that its server asks for.
pub struct Startup {
    id: String,
    passkey: String,
    term: String,
    shell: Option<String>,
    jump: bool,
    dsthost: String,
    dstport: u16,
    stage: StartupStage,
}

/// What a terminal holds before it runs.
pub struct StartupView {
    pub id: Seq<char>,
    pub passkey: Seq<char>,
    pub term: Seq<char>,
    pub shell: Option<Seq<char>>,
    pub jump: bool,
    pub dsthost: Seq<char>,
    pub dstport: u16,
    pub stage: StartupStage,
}

impl View for Startup {
    type V = StartupView;

    closed spec fn view(&self) -> StartupView {
        StartupView {
            id: self.id@,
            passkey: self.passkey@,
            term: self.term@,
            shell: opt_text(self.shell),
            jump: self.jump,
            dsthost: self.dsthost@,
            dstport: self.dstport,
            stage: self.stage,
        }
    }
}

impl StartupView {
    /// A terminal with its credentials, which has just been started.
    pub open spec fn fresh(
        opts: TerminalOptions,
        id: Seq<char>,
        passkey: Seq<char>,
        term: Seq<char>,
    ) -> StartupView {
        StartupView {
            id,
            passkey,
            term,
            shell: opt_text(opts.shell),
            jump: opts.jump,
            dsthost: opts.dsthost@,
            dstport: opts.dstport,
            stage: StartupStage::Registering,
        }
    }
}

/// The bytes that register a terminal with its server.
pub open spec fn registering(id: Seq<char>, passkey: Seq<char>, uid: u32, gid: u32) -> Seq<u8> {
    proto_frame(registration_view(id, passkey, uid, gid).bytes())
}

/// Whether a terminal with `v` fails with words of its own.
pub open spec fn startup_fails(
    v: StartupView,
    after: StartupView,
    res: StartupAction,
    why: Seq<char>,
) -> bool {
    after == (StartupView { stage: StartupStage::Over, ..v }) && (res matches StartupAction::Fail(e)
        && e.says(why))
}

/// How a terminal goes on with its server's first packet.
pub open spec fn startup_inits(
    v: StartupView,
    packet: Result<Packet, FrameError>,
    shell: Option<String>,
    after: StartupView,
    res: StartupAction,
) -> bool {
    match packet {
        Err(FrameError::Io(io)) => after == (StartupView { stage: StartupStage::Over, ..v }) && res
            == StartupAction::Fail(ServerError::Io(io)),
        Err(f) => startup_fails(v, after, res, f.words()),
        Ok(p) => if p@.header != TERMINAL_INIT {
            startup_fails(v, after, res, wrong_packet(TERMINAL_INIT, p@.header))
        } else {
            match TermInitView::parse(p@.payload) {
                None => startup_fails(
                    v,
                    after,
                    res,
                    complaint("bad TermInit: "@, Shape::TermInit, p@.payload),
                ),
                Some(t) => {
                    &&& after == (StartupView { stage: StartupStage::Over, ..v })
                    &&& res matches StartupAction::Spawn { shell: run, term, env } && {
                        &&& run@ == preferred(v.shell, opt_text(shell), "/bin/sh"@)
                        &&& env@ == without_var(session_env(t), "TERM"@)
                        &&& term@ == match var_in(session_env(t), "TERM"@) {
                            Some(x) => x,
                            None => v.term,
                        }
                    }
                },
            }
        },
    }
}

/// Whether a terminal goes from `v` to `after` and asks for `res` when `input`
/// happens to it. What it did not ask for it passes over.
pub open spec fn startup_steps(
    v: StartupView,
    input: StartupInput,
    after: StartupView,
    res: StartupAction,
) -> bool {
    match (v.stage, input) {
        (StartupStage::Registering, StartupInput::Registered(r)) => match r {
            Ok(_) => {
                &&& after == (StartupView { stage: StartupStage::Announcing, ..v })
                &&& res matches StartupAction::Announce(s) && s@ == announced_line(v.id, v.passkey)
            },
            Err(e) => after == (StartupView { stage: StartupStage::Over, ..v }) && res
                == StartupAction::Fail(ServerError::Io(e)),
        },
        (StartupStage::Announcing, StartupInput::Announced) => if !v.jump {
            after == (StartupView { stage: StartupStage::AwaitInit, ..v }) && res is AwaitInit
        } else if v.dsthost.len() == 0 || v.dstport == 0 {
            startup_fails(v, after, res, "jump mode requires --dsthost and --dstport"@)
        } else {
            after == (StartupView { stage: StartupStage::Over, ..v }) && (res matches StartupAction::Relay {
                endpoint,
            } && endpoint@ == v.dsthost + ":"@ + decimal(v.dstport as nat))
        },
        (StartupStage::AwaitInit, StartupInput::Init { packet, shell }) => startup_inits(
            v,
            packet,
            shell,
            after,
            res,
        ),
        _ => after == v && res is Nothing,
    }
}

impl Startup {
    /// A terminal with its credentials, run by the user `uid` of group `gid`.
    /// The bytes register it with its server.
    pub fn new(
        opts: TerminalOptions,
        id: String,
        passkey: String,
        term: String,
        uid: u32,
        gid: u32,
    ) -> (res: (Startup, Vec<u8>))
        ensures
            res.0@ == StartupView::fresh(opts, id@, passkey@, term@),
            res.1@ == registering(id@, passkey@, uid, gid),
    {
        let packet = registration_packet(id.as_str(), passkey.as_str(), uid, gid);
        let mut out: Vec<u8> = Vec::new();
        write_packet_frame(&mut out, &packet);
        assert(out@ =~= proto_frame(packet@.bytes()));
        (
            Startup {
                id,
                passkey,
                term,
                shell: opts.shell,
                jump: opts.jump,
                dsthost: opts.dsthost,
                dstport: opts.dstport,
                stage: StartupStage::Registering,
            },
            out,
        )
    }

    fn fail(&mut self, why: ServerError) -> (res: StartupAction)
        ensures
            final(self)@ == (StartupView { stage: StartupStage::Over, ..old(self)@ }),
            res == StartupAction::Fail(why),
    {
        self.stage = StartupStage::Over;
        StartupAction::Fail(why)
    }

    fn init(&mut self, packet: Result<Packet, FrameError>, shell: Option<String>) -> (res:
        StartupAction)
        ensures
            startup_inits(old(self)@, packet, shell, final(self)@, res),
    {
        let packet = match packet {
            Ok(p) => p,
            Err(e) => {
                return self.fail(ServerError::from_frame_error(e));
            },
        };
        let payload = match expected_payload(packet, TERMINAL_INIT) {
            Ok(p) => p,
            Err(e) => {
                return self.fail(e);
            },
        };
        match session_environment(payload.as_slice(), copy_text(self.term.as_str())) {
            Ok((env, term)) => {
                let asked = match &self.shell {
                    Some(s) => Some(copy_text(s.as_str())),
                    None => None,
                };
                let shell = choose_shell(asked, shell);
                self.stage = StartupStage::Over;
                StartupAction::Spawn { shell, term, env }
            },
            Err(e) => self.fail(e),
        }
    }

    /// Something happened: what is to be done about it.
    pub fn step(&mut self, input: StartupInput) -> (res: StartupAction)
        ensures
            startup_steps(old(self)@, input, final(self)@, res),
    {
        match (self.stage, input) {
            (StartupStage::Registering, StartupInput::Registered(r)) => match r {
                Ok(_) => {
                    self.stage = StartupStage::Announcing;
                    StartupAction::Announce(announcement(self.id.as_str(), self.passkey.as_str()))
                },
                Err(e) => self.fail(ServerError::Io(e)),
            },
            (StartupStage::Announcing, StartupInput::Announced) => {
                if !self.jump {
                    self.stage = StartupStage::AwaitInit;
                    return StartupAction::AwaitInit;
                }
                match check_jump(self.dsthost.as_str(), self.dstport) {
                    Ok(_) => {
                        self.stage = StartupStage::Over;
                        StartupAction::Relay {
                            endpoint: jump_endpoint(self.dsthost.as_str(), self.dstport),
                        }
                    },
                    Err(e) => self.fail(e),
                }
            },
            (StartupStage::AwaitInit, StartupInput::Init { packet, shell }) => self.init(
                packet,
                shell,
            ),
            _ => StartupAction::Nothing,
        }
    }
}

// ---------------------------------------------------------------------------
// Frames of the server
// ---------------------------------------------------------------------------

/// A frame of the server.
pub enum TypedFrame {
    /// Input for the shell.
    TerminalBuffer(Vec<u8>),
    /// A new window size.
    TerminalInfo(TerminalInfo),
    /// Something that a terminal does not act on.
    Ignored,
    /// The server is gone.
    Eof,
}

/// How far the reading of a frame got.
pub enum TypedIo {
    /// The type byte could not be read.
    NoType(IoFailure),
    /// The message could not be read.
    NoMessage(FrameError),
    /// Type byte and message.
    Frame { packet_type: u8, message: Vec<u8> },
}

/// Whether `res` is what a type byte and a message mean.
pub open spec fn frame_meaning(t: u8, m: Seq<u8>, res: Result<TypedFrame, ServerError>) -> bool {
    if t == TERMINAL_BUFFER {
        match TerminalBufferView::parse(m) {
            Some(b) => res matches Ok(TypedFrame::TerminalBuffer(x)) && x@ == match b.buffer {
                Some(y) => y,
                None => Seq::empty(),
            },
            None => res matches Err(e) && e.says(
                complaint("bad TerminalBuffer: "@, Shape::TerminalBuffer, m),
            ),
        }
    } else if t == TERMINAL_INFO {
        match TerminalInfoView::parse(m) {
            Some(i) => res matches Ok(TypedFrame::TerminalInfo(x)) && x@ == i,
            None => res matches Err(e) && e.says(
                complaint("bad TerminalInfo: "@, Shape::TerminalInfo, m),
            ),
        }
    } else {
        res matches Ok(TypedFrame::Ignored)
    }
}

/// Whether `res` is what was read amounts to.
pub open spec fn typed_reading(io: TypedIo, res: Result<TypedFrame, ServerError>) -> bool {
    match io {
        TypedIo::NoType(e) => if e.unexpected_eof {
            res matches Ok(TypedFrame::Eof)
        } else {
            res == Err::<TypedFrame, ServerError>(ServerError::Io(e))
        },
        TypedIo::NoMessage(FrameError::Io(e)) => res == Err::<TypedFrame, ServerError>(
            ServerError::Io(e),
        ),
        TypedIo::NoMessage(f) => res matches Err(e) && e.says(f.words()),
        TypedIo::Frame { packet_type, message } => frame_meaning(packet_type, message@, res),
    }
}

/// What was read amounts to.
pub fn read_typed_frame(io: TypedIo) -> (res: Result<TypedFrame, ServerError>)
    ensures
        typed_reading(io, res),
{
    match io {
        TypedIo::NoType(e) => {
            if e.unexpected_eof {
                Ok(TypedFrame::Eof)
            } else {
                Err(ServerError::Io(e))
            }
        },
        TypedIo::NoMessage(f) => Err(ServerError::from_frame_error(f)),
        TypedIo::Frame { packet_type, message } => {
            if packet_type == TERMINAL_BUFFER {
                match TerminalBuffer::decode(message.as_slice()) {
                    Ok(tb) => {
                        let bytes = match tb.buffer {
                            Some(b) => b,
                            None => Vec::new(),
                        };
                        Ok(TypedFrame::TerminalBuffer(bytes))
                    },
                    Err(e) => Err(
                        ServerError::Other(joined("bad TerminalBuffer: ", e.message().as_str())),
                    ),
                }
            } else if packet_type == TERMINAL_INFO {
                match TerminalInfo::decode(message.as_slice()) {
                    Ok(ti) => Ok(TypedFrame::TerminalInfo(ti)),
                    Err(e) => Err(
                        ServerError::Other(joined("bad TerminalInfo: ", e.message().as_str())),
                    ),
                }
            } else {
                Ok(TypedFrame::Ignored)
            }
        },
    }
}

// ---------------------------------------------------------------------------
// The loop
// ---------------------------------------------------------------------------

/// A window size, in characters and in pixels.
#[derive(Debug, Clone, Copy, PartialEq, Eq, Structural)]
pub struct WindowSize {
    pub rows: u16,
    pub columns: u16,
    pub width: u16,
    pub height: u16,
}

/// A number as a window size holds it: its low 16 bits; a missing one is zero.
pub open spec fn low_u16(n: Option<i32>) -> u16 {
    match n {
        Some(x) => (x as int % 65536) as u16,
        None => 0,
    }
}

fn to_u16(n: Option<i32>) -> (res: u16)
    ensures
        res == low_u16(n),
{
    match n {
        Some(x) => {
            let p: i64 = x as i64;
            if p >= 0 {
                (p % 65536) as u16
            } else {
                ((p + 0x8000_0000) % 65536) as u16
            }
        },
        None => 0,
    }
}

/// What is to be done.
pub enum LoopAction {
    /// Nothing.
    Nothing,
    /// Send bytes to the server as they are.
    Send(Vec<u8>),
    /// Resize the window.
    Resize(WindowSize),
    /// Stop. The shell has ended by itself, or is to be ended.
    Stop { shell_exited: bool },
}

/// The loop between the local socket and the shell: the input that waits for
/// the shell.
pub struct TerminalLoop {
    pending: Vec<u8>,
}

impl View for TerminalLoop {
    type V = Seq<u8>;

    closed spec fn view(&self) -> Seq<u8> {
        self.pending@
    }
}

/// Whether `res` is what is to be done about what the shell put out, or about
/// its end.
pub open spec fn puts_out(read: Option<Vec<u8>>, res: LoopAction) -> bool {
    match read {
        Some(b) => if b@.len() > 0 {
            res == LoopAction::Send(b)
        } else {
            res == (LoopAction::Stop { shell_exited: true })
        },
        None => res == (LoopAction::Stop { shell_exited: true }),
    }
}

/// Whether the input that waits goes from `before` to `after`, with `res` to be
/// done, when a frame of the server comes.
pub open spec fn takes(
    before: Seq<u8>,
    frame: TypedFrame,
    after: Seq<u8>,
    res: LoopAction,
) -> bool {
    match frame {
        TypedFrame::TerminalBuffer(b) => after == before + b@ && res is Nothing,
        TypedFrame::TerminalInfo(i) => after == before && res == LoopAction::Resize(
            WindowSize {
                rows: low_u16(i.row),
                columns: low_u16(i.column),
                width: low_u16(i.width),
                height: low_u16(i.height),
            },
        ),
        TypedFrame::Ignored => after == before && res is Nothing,
        TypedFrame::Eof => after == before && res == (LoopAction::Stop { shell_exited: false }),
    }
}

/// Whether the input that waits goes from `before` to `after`, with `res` to be
/// done, when the shell takes the first `n` bytes of it, or takes no more.
pub open spec fn drains(before: Seq<u8>, n: Option<usize>, after: Seq<u8>, res: LoopAction) -> bool {
    match n {
        Some(k) => after == before.skip(k as int) && res is Nothing,
        None => after == before && res == (LoopAction::Stop { shell_exited: true }),
    }
}

/// Whether frames of the server are to be read while `pending` waits for the
/// shell.
pub open spec fn wants(pending: Seq<u8>) -> bool {
    pending.len() < 256 * 1024
}

impl TerminalLoop {
    /// Nothing waits.
    pub fn new() -> (res: TerminalLoop)
        ensures
            res@ == Seq::<u8>::empty(),
    {
        TerminalLoop { pending: Vec::new() }
    }

    /// Whether frames of the server are to be read: not while the input that
    /// waits has reached its bound, so that the pressure gets back to the
    /// client.
    pub fn wants_frames(&self) -> (res: bool)
        ensures
            res == wants(self@),
    {
        self.pending.len() < MAX_PENDING_INPUT
    }

    /// The input that waits.
    pub fn pending(&self) -> (res: &[u8])
        ensures
            res@ == self@,
    {
        self.pending.as_slice()
    }

    /// The shell put something out, or has ended.
    pub fn on_output(&self, read: Option<Vec<u8>>) -> (res: LoopAction)
        ensures
            puts_out(read, res),
    {
        match read {
            Some(b) => {
                if b.len() > 0 {
                    LoopAction::Send(b)
                } else {
                    LoopAction::Stop { shell_exited: true }
                }
            },
            None => LoopAction::Stop { shell_exited: true },
        }
    }

    /// A frame of the server came. Input joins what waits; none is lost.
    pub fn on_frame(&mut self, frame: TypedFrame) -> (res: LoopAction)
        ensures
            takes(old(self)@, frame, final(self)@, res),
    {
        match frame {
            TypedFrame::TerminalBuffer(b) => {
                self.pending.extend_from_slice(b.as_slice());
                assert(self.pending@ =~= old(self)@ + b@);
                LoopAction::Nothing
            },
            TypedFrame::TerminalInfo(i) => LoopAction::Resize(
                WindowSize {
                    rows: to_u16(i.row),
                    columns: to_u16(i.column),
                    width: to_u16(i.width),
                    height: to_u16(i.height),
                },
            ),
            TypedFrame::Ignored => LoopAction::Nothing,
            TypedFrame::Eof => LoopAction::Stop { shell_exited: false },
        }
    }

    /// The shell took the first `n` bytes of what waits, or takes no more.
    pub fn on_written(&mut self, n: Option<usize>) -> (res: LoopAction)
        requires
            n matches Some(k) ==> k <= old(self)@.len(),
        ensures
            drains(old(self)@, n, final(self)@, res),
    {
        match n {
            Some(k) => {
                let rest = crate::wire::byte_range(self.pending.as_slice(), k, self.pending.len());
                assert(rest@ =~= self.pending@.skip(k as int));
                self.pending = rest;
                LoopAction::Nothing
            },
            None => LoopAction::Stop { shell_exited: true },
        }
    }
}

// ---------------------------------------------------------------------------
// Laws
// ---------------------------------------------------------------------------

/// The environment that a server sends is the environment that a terminal
/// gets.
pub proof fn law_environment_arrives(e: Seq<Var>)
    requires
        crate::env::ascending(e),
    ensures
        session_env(crate::server::init_view(e)) == e,
{
    lemma_zipped(e, e.len());
    assert(e.take(e.len() as int) =~= e);
    crate::messages::lemma_collect_ascending(e);
}

proof fn lemma_zipped(e: Seq<Var>, n: nat)
    requires
        n <= e.len(),
    ensures
        zipped(crate::server::var_names(e), crate::server::var_values(e), n)
            == crate::messages::collect(e.take(n as int)),
    decreases n,
{
    if n > 0 {
        lemma_zipped(e, (n - 1) as nat);
        assert(e.take(n as int).drop_last() =~= e.take(n - 1));
        assert(e.take(n as int).last() == e[n - 1]);
    }
}

/// The line that a client sends names the credentials that the terminal then
/// reads, as long as neither the id nor the passkey holds a separator.
pub proof fn law_credentials_arrive(id: Seq<char>, passkey: Seq<char>, term: Seq<char>)
    requires
        !id.contains('_'),
        !id.contains('/'),
        !passkey.contains('_'),
        without_eol(term) == term,
    ensures
        handshake_line(id + seq!['/'] + passkey + seq!['_'] + term) == Ok::<
            (Seq<char>, Seq<char>, Seq<char>),
            Seq<char>,
        >((id, passkey, term)),
{
    let head = id + seq!['/'] + passkey;
    let line = head + seq!['_'] + term;
    assert(without_eol(line) == line) by {
        if term.len() == 0 {
            assert(line.last() == '_');
        } else {
            assert(line.last() == term.last());
            if term.last() == '\r' || term.last() == '\n' {
                lemma_eol_shrinks(term.drop_last());
                assert(without_eol(term).len() <= term.len() - 1);
            }
        }
    }
    let k = head.len() as int;
    assert forall|i: int| 0 <= i < k implies line[i] != '_' by {
        if i < id.len() {
            assert(line[i] == id[i]);
            assert(id.contains(id[i]));
        } else if i == id.len() {
            assert(line[i] == '/');
        } else {
            assert(line[i] == passkey[i - id.len() - 1]);
            assert(passkey.contains(passkey[i - id.len() - 1]));
        }
    }
    crate::text::lemma_find_is(line, '_', k);
    assert(line.take(k) =~= head);
    assert(line.skip(k + 1) =~= term);
    let j = id.len() as int;
    assert forall|i: int| 0 <= i < j implies head[i] != '/' by {
        assert(head[i] == id[i]);
        assert(id.contains(id[i]));
    }
    crate::text::lemma_find_is(head, '/', j);
    assert(head.take(j) =~= id);
    assert(head.skip(j + 1) =~= passkey);
}

proof fn lemma_eol_shrinks(s: Seq<char>)
    ensures
        without_eol(s).len() <= s.len(),
    decreases s.len(),
{
    if s.len() > 0 {
        lemma_eol_shrinks(s.drop_last());
    }
}

/// Credentials that a client makes up arrive at the terminal, whatever the
/// terminal type, as long as it does not end in a line end.
pub proof fn law_fresh_credentials_arrive(id: Seq<char>, passkey: Seq<char>, term: Seq<char>)
    requires
        alphanumeric_text(id, ID_LEN as nat),
        alphanumeric_text(passkey, PASSKEY_LEN as nat),
        without_eol(term) == term,
    ensures
        handshake_line(id + seq!['/'] + passkey + seq!['_'] + term) == Ok::<
            (Seq<char>, Seq<char>, Seq<char>),
            Seq<char>,
        >((id, passkey, term)),
{
    assert forall|i: int| 0 <= i < id.len() implies id[i] != '_' && id[i] != '/' by {
        assert(alphanumeric(id[i] as u8) && (id[i] as u32) < 128);
    }
    assert forall|i: int| 0 <= i < passkey.len() implies passkey[i] != '_' by {
        assert(alphanumeric(passkey[i] as u8) && (passkey[i] as u32) < 128);
    }
    law_credentials_arrive(id, passkey, term);
}

/// A server learns from a registration what the terminal put into it.
pub proof fn law_registration_arrives(id: Seq<char>, passkey: Seq<char>, uid: u32, gid: u32)
    requires
        vstd::utf8::encode_utf8(id).len() <= u64::MAX,
        vstd::utf8::encode_utf8(passkey).len() <= u64::MAX,
    ensures
        TerminalUserInfoView::parse(registration_view(id, passkey, uid, gid).payload) == Some(
            TerminalUserInfoView {
                id: Some(id),
                passkey: Some(passkey),
                uid: Some(uid as i64),
                gid: Some(gid as i64),
                fd: None,
            },
        ),
        crate::server::kept_number(Some(uid as i64)) == uid,
        crate::server::kept_number(Some(gid as i64)) == gid,
{
    let t = TerminalUserInfoView {
        id: Some(id),
        passkey: Some(passkey),
        uid: Some(uid as i64),
        gid: Some(gid as i64),
        fd: None,
    };
    let fs = t.fields();
    assert forall|i: int| 0 <= i < fs.len() implies crate::wire::plain(#[trigger] fs[i]) by {}
    crate::messages::law_terminal_user_info_round_trip(t);
}

/// What a shell finds in its environment: a variable of the session, if there
/// is one of the name; or else its terminal type, its home and the version of
/// the terminal; and nothing else is set for it.
pub proof fn law_shell_environment(
    term: Seq<char>,
    version: Seq<char>,
    home: Seq<char>,
    session: Seq<Var>,
    k: Seq<char>,
)
    requires
        crate::env::ascending(session),
    ensures
        var_in(shell_env(term, version, home, session), k) == match var_in(session, k) {
            Some(v) => Some(v),
            None => if k == "HOME"@ {
                Some(home)
            } else if k == "ET_VERSION"@ {
                Some("rust-"@ + version)
            } else if k == "TERM"@ {
                Some(term)
            } else {
                None
            },
        },
{
    reveal_strlit("HOME");
    reveal_strlit("TERM");
    reveal_strlit("ET_VERSION");
    assert("HOME"@[0] != "TERM"@[0]);
    let one = with_var(Seq::empty(), "TERM"@, term);
    let two = with_var(one, "ET_VERSION"@, "rust-"@ + version);
    let three = with_var(two, "HOME"@, home);
    crate::env::lemma_with_var(Seq::empty(), "TERM"@, term);
    crate::env::lemma_with_var(one, "ET_VERSION"@, "rust-"@ + version);
    crate::env::lemma_with_var(two, "HOME"@, home);
    lemma_overlaid(three, session, k);
    assert(var_in(Seq::<Var>::empty(), k) is None);
}

proof fn lemma_overlaid(base: Seq<Var>, more: Seq<Var>, k: Seq<char>)
    requires
        crate::env::ascending(base),
        crate::env::ascending(more),
    ensures
        crate::env::ascending(overlaid(base, more)),
        var_in(overlaid(base, more), k) == match var_in(more, k) {
            Some(v) => Some(v),
            None => var_in(base, k),
        },
    decreases more.len(),
{
    if more.len() > 0 {
        let front = more.drop_last();
        assert forall|i: int, j: int| 0 <= i < j < front.len() implies crate::env::text_less(
            (#[trigger] front[i]).0,
            (#[trigger] front[j]).0,
        ) by {
            assert(front[i] == more[i] && front[j] == more[j]);
        }
        lemma_overlaid(base, front, k);
        crate::env::lemma_with_var(overlaid(base, front), more.last().0, more.last().1);
        lemma_last_var(more, k);
    }
}

/// The last of ordered variables is the only one of its name.
proof fn lemma_last_var(s: Seq<Var>, k: Seq<char>)
    requires
        crate::env::ascending(s),
        s.len() > 0,
    ensures
        var_in(s, k) == if s.last().0 == k {
            Some(s.last().1)
        } else {
            var_in(s.drop_last(), k)
        },
    decreases s.len(),
{
    if s.len() > 1 {
        let t = s.skip(1);
        assert forall|i: int, j: int| 0 <= i < j < t.len() implies crate::env::text_less(
            (#[trigger] t[i]).0,
            (#[trigger] t[j]).0,
        ) by {
            assert(t[i] == s[i + 1] && t[j] == s[j + 1]);
        }
        lemma_last_var(t, k);
        assert(t.drop_last() =~= s.drop_last().skip(1));
        assert(s.drop_last()[0] == s[0]);
        assert(t.last() == s.last());
        if s[0].0 == k && s.last().0 == k {
            assert(crate::env::text_less(s[0].0, s[s.len() - 1].0));
            crate::env::lemma_text_less_irreflexive(k);
        }
    } else {
        assert(s.skip(1) =~= Seq::<Var>::empty());
        assert(s.drop_last() =~= Seq::<Var>::empty());
        assert(var_in(Seq::<Var>::empty(), k) is None);
    }
}

/// Where a shell starts: in the home that was asked for, or else the user's,
/// whatever the environment says.
pub proof fn law_shell_home(asked: Seq<char>, home: Option<Seq<char>>, own: Seq<char>)
    ensures
        shell_home(Some(asked), home) == asked,
        shell_home(None, Some(own)) == own,
        shell_home(None, None).len() == 0,
{
}

/// Credentials that are given go before those of the line, which then is not
/// read; the terminal type of the line counts only with its credentials.
pub proof fn law_given_credentials_come_first(
    id: Seq<char>,
    passkey: Seq<char>,
    line: Seq<char>,
    term: Seq<char>,
)
    ensures
        given(Some((id, passkey)), line, term) == Ok::<
            (Seq<char>, Seq<char>, Seq<char>),
            Seq<char>,
        >((id, passkey, term)),
        given(None, line, term) == handshake_line(line),
{
}

/// A line without its separators is refused.
pub proof fn law_bad_lines_are_refused(line: Seq<char>)
    requires
        !line.contains('_') || !line.contains('/'),
        line.len() > 0,
        line.last() != '\n',
        line.last() != '\r',
    ensures
        handshake_line(line) is Err,
{
    crate::text::law_without_eol(line);
    crate::text::law_split_in_two(line, '_', Seq::empty());
    crate::text::lemma_find(line, '_');
    if let Some((a, b)) = split_first(line, '_') {
        if a.contains('/') {
            let i = choose|i: int| 0 <= i < a.len() && a[i] == '/';
            assert(line[i] == '/');
            assert(line.contains('/'));
            let k = crate::text::find(line, '_');
            assert(line[k] == '_');
        }
        crate::text::law_split_in_two(a, '/', Seq::empty());
    }
}

/// A window size is taken as it is where it fits, and by its low 16 bits where
/// it does not; a missing one is zero.
pub proof fn law_window_numbers(n: i32)
    ensures
        0 <= n <= 65535 ==> low_u16(Some(n)) == n,
        low_u16(None) == 0,
        (low_u16(Some(n)) - n) % 65536 == 0,
{
}

/// The end of the shell's output stops the loop; anything it puts out is sent
/// as it is.
pub proof fn law_output_is_sent(read: Option<Vec<u8>>, res: LoopAction)
    requires
        puts_out(read, res),
    ensures
        read matches Some(b) && b@.len() > 0 ==> res == LoopAction::Send(read->0),
        res is Stop <==> (read is None || read->0@.len() == 0),
        res matches LoopAction::Stop { shell_exited } ==> shell_exited,
{
}

/// Of a name that the server names twice the last value counts, and a name
/// without a value counts for nothing.
pub proof fn law_last_of_a_name_counts(
    t: TermInitView,
    i: int,
    k: Seq<char>,
)
    requires
        forall|j: int|
            i < j < t.environmentnames.len() && j < t.environmentvalues.len()
                ==> #[trigger] t.environmentnames[j] != k,
    ensures
        0 <= i < t.environmentnames.len() && i < t.environmentvalues.len()
            && t.environmentnames[i] == k ==> var_in(session_env(t), k) == Some(
            t.environmentvalues[i],
        ),
        i < 0 ==> var_in(session_env(t), k) is None,
{
    let n = if t.environmentnames.len() < t.environmentvalues.len() {
        t.environmentnames.len()
    } else {
        t.environmentvalues.len()
    };
    lemma_zipped_var(t.environmentnames, t.environmentvalues, n, i, k);
}

proof fn lemma_zipped_var(
    names: Seq<Seq<char>>,
    values: Seq<Seq<char>>,
    n: nat,
    i: int,
    k: Seq<char>,
)
    requires
        forall|j: int| i < j < n ==> #[trigger] names[j] != k,
    ensures
        crate::env::ascending(zipped(names, values, n)),
        0 <= i < n && names[i] == k ==> var_in(zipped(names, values, n), k) == Some(values[i]),
        i < 0 ==> var_in(zipped(names, values, n), k) is None,
    decreases n,
{
    if n > 0 {
        let before = zipped(names, values, (n - 1) as nat);
        lemma_zipped_var(names, values, (n - 1) as nat, i, k);
        crate::env::lemma_with_var(before, names[n - 1], values[n - 1]);
        if i < n - 1 {
            assert(names[n - 1] != k);
        }
    }
}

/// A frame of a kind that a terminal does not know is passed over; the end of
/// the server's stream between frames ends the loop, and the shell with it; any
/// other failure is told.
pub proof fn law_frames_of_the_server(
    t: u8,
    message: Vec<u8>,
    one: Result<TypedFrame, ServerError>,
    e: IoFailure,
    two: Result<TypedFrame, ServerError>,
    f: FrameError,
    three: Result<TypedFrame, ServerError>,
    waiting: Seq<u8>,
    left: Seq<u8>,
    res: LoopAction,
)
    requires
        t != 1 && t != 2,
        typed_reading((TypedIo::Frame { packet_type: t, message }), one),
        typed_reading(TypedIo::NoType(e), two),
        typed_reading(TypedIo::NoMessage(f), three),
        takes(waiting, TypedFrame::Eof, left, res),
    ensures
        one == Ok::<TypedFrame, ServerError>(TypedFrame::Ignored),
        e.unexpected_eof ==> two == Ok::<TypedFrame, ServerError>(TypedFrame::Eof),
        !e.unexpected_eof ==> two is Err,
        three is Err,
        left == waiting && res == (LoopAction::Stop { shell_exited: false }),
{
}

/// A terminal that cannot register, or whose server starts with another packet,
/// fails.
pub proof fn law_startup_fails(
    v: StartupView,
    io: IoFailure,
    one: StartupView,
    first: StartupAction,
    w: StartupView,
    p: Packet,
    shell: Option<String>,
    two: StartupView,
    second: StartupAction,
)
    requires
        v.stage == StartupStage::Registering,
        startup_steps(v, StartupInput::Registered(Err(io)), one, first),
        w.stage == StartupStage::AwaitInit,
        p@.header != 9,
        startup_steps(w, (StartupInput::Init { packet: Ok(p), shell }), two, second),
    ensures
        first == StartupAction::Fail(ServerError::Io(io)),
        one.stage == StartupStage::Over,
        second is Fail,
        two.stage == StartupStage::Over,
{
}

/// A terminal that comes up passes over what it did not ask for.
pub proof fn law_startup_passes_over_the_unasked(
    v: StartupView,
    input: StartupInput,
    after: StartupView,
    res: StartupAction,
)
    requires
        startup_steps(v, input, after, res),
        match v.stage {
            StartupStage::Registering => !(input is Registered),
            StartupStage::Announcing => !(input is Announced),
            StartupStage::AwaitInit => !(input is Init),
            StartupStage::Over => true,
        },
    ensures
        after == v,
        res is Nothing,
{
}

/// An id that a server made stands, with its passkey; one that a client made up
/// does not stay, unless chance makes the same.
pub proof fn law_which_credentials_stand(
    id: Seq<char>,
    passkey: Seq<char>,
    new_id: Seq<char>,
    new_passkey: Seq<char>,
    rest: Seq<char>,
)
    requires
        settled(id, passkey, new_id, new_passkey),
    ensures
        id.len() < 3 || id.take(3) != seq!['X', 'X', 'X'] ==> new_id == id && new_passkey
            == passkey,
        id == seq!['X', 'X', 'X'] + rest ==> new_id.len() == 16 && new_passkey.len() == 32,
        client_chosen(seq!['X', 'X', 'X'] + rest),
{
    if client_chosen(id) {
        assert(id.take(3) =~= seq!['X', 'X', 'X']);
    }
}

/// The shell takes its input in order: what it took, with what waits then, is
/// what waited. A shell that takes no more leaves all of it and ends the loop;
/// frames that hold no input leave it too.
pub proof fn law_input_waits_in_order(
    before: Seq<u8>,
    k: usize,
    one: Seq<u8>,
    first: LoopAction,
    two: Seq<u8>,
    second: LoopAction,
    frame: TypedFrame,
    three: Seq<u8>,
    third: LoopAction,
)
    requires
        k <= before.len(),
        drains(before, Some(k), one, first),
        drains(before, None, two, second),
        !(frame is TerminalBuffer),
        takes(before, frame, three, third),
    ensures
        before == before.take(k as int) + one,
        first is Nothing,
        two == before,
        second == (LoopAction::Stop { shell_exited: true }),
        three == before,
        third is Stop <==> frame is Eof,
        third is Resize <==> frame is TerminalInfo,
{
    assert(before =~= before.take(k as int) + before.skip(k as int));
}

/// A shell starts where its `HOME` is, or at the root where that is empty.
pub proof fn law_shell_starts_at_home(
    term: Seq<char>,
    version: Seq<char>,
    home: Seq<char>,
    asked: Option<Seq<char>>,
)
    ensures
        home.len() > 0 ==> Some(shell_dir(home)) == var_in(
            shell_env(term, version, home, Seq::empty()),
            "HOME"@,
        ),
        shell_dir(Seq::empty()) == seq!['/'],
        shell_dir(shell_home(asked, Some(home))).len() > 0,
{
    reveal_strlit("/");
    assert("/"@ =~= seq!['/']);
    if home.len() > 0 {
        law_shell_environment(term, version, home, Seq::empty(), "HOME"@);
    }
}

/// Input is read until 262144 bytes wait, and again as soon as the shell has
/// taken enough of them. An empty loop reads.
pub proof fn law_pressure_goes_back(before: Seq<u8>, k: usize, after: Seq<u8>, res: LoopAction)
    requires
        k <= before.len(),
        drains(before, Some(k), after, res),
    ensures
        wants(after) <==> before.len() < k + 262144,
        wants(Seq::empty()),
{
}

/// A terminal that relays goes to the host and port that it was given: the place
/// that it names comes apart into them again. Without a host or without a port
/// it fails, and one that does not relay waits for its server.
pub proof fn law_relay_goes_to_its_destination(
    v: StartupView,
    user: Seq<char>,
    after: StartupView,
    res: StartupAction,
)
    requires
        v.stage is Announcing,
        startup_steps(v, StartupInput::Announced, after, res),
    ensures
        !v.jump ==> res is AwaitInit && after.stage is AwaitInit,
        v.jump && (v.dsthost.len() == 0 || v.dstport == 0) ==> res is Fail,
        v.jump && v.dsthost.len() > 0 && v.dstport != 0 ==> res is Relay,
        v.jump ==> after.stage is Over,
        res matches StartupAction::Relay { endpoint } ==> v.dsthost.contains('@')
            || crate::cli::target_parts(endpoint@, user) == Ok::<
            (Seq<char>, Seq<char>, u16),
            Seq<char>,
        >((user, v.dsthost, v.dstport)),
{
    if v.jump && v.dsthost.len() > 0 && !v.dsthost.contains('@') {
        crate::cli::law_endpoint(v.dsthost, v.dstport, user);
    }
}

} // verus!
