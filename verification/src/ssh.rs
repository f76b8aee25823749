//! The handshake over ssh: the remote command, the arguments of `ssh`, and
//! the credentials in its output.

use vstd::prelude::*;
use vstd::utf8::{encode_scalar, encode_utf8};
use crate::crypto::wipe_text;
use crate::ids::{
    alphanumeric, alphanumeric_text, ascii_text, client_chosen, text_of_ascii, RandomError,
    ID_LEN, PASSKEY_LEN,
};
use crate::text::{
    copy_text, decimal, decimal_int, decimal_int_text, is_empty_text, joined, opt_text, preferred, push_decimal, quoted, quoted_text,
    same_text, texts,
};
use crate::wire::byte_range;

verus! {

/// The terminal type where none is known.
pub const DEFAULT_TERMINAL: &'static str = "xterm-256color";

/// What announces the credentials.
pub const IDPASSKEY_MARKER: &'static str = "IDPASSKEY:";

/// The credentials of a session.
#[derive(Clone, PartialEq, Eq)]
pub struct IdPasskey {
    pub id: String,
    pub passkey: String,
}

impl IdPasskey {
    /// The credentials in words, without the passkey.
    pub fn redacted(&self) -> (res: String)
        ensures
            res@ == "IdPasskey { id: "@ + quoted_text(self.id@)
                + ", passkey: \"[REDACTED]\" }"@,
    {
        let mut s = "IdPasskey { id: ".to_owned();
        s.append(quoted(self.id.as_str()).as_str());
        s.append(", passkey: \"[REDACTED]\" }");
        s
    }

    /// Overwrites the credentials.
    pub fn wipe(&mut self)
        ensures
            final(self).id@ == Seq::<char>::empty(),
            final(self).passkey@ == Seq::<char>::empty(),
        opens_invariants none
        no_unwind
    {
        wipe_text(&mut self.id);
        wipe_text(&mut self.passkey);
    }
}

/// Credentials do not stay behind in memory.
impl Drop for IdPasskey {
    fn drop(&mut self)
        opens_invariants none
        no_unwind
    {
        self.wipe();
    }
}

/// How the remote command is built.
#[derive(Debug, Clone, PartialEq, Eq)]
pub struct TerminalCommandOptions {
    pub verbose: i32,
    /// The local socket of the server.
    pub server_fifo: Option<String>,
    /// The program; when empty it is looked up by its name.
    pub etterminal_path: String,
    /// Whether to end earlier terminals of the user first.
    pub kill_existing: bool,
    /// That user; when empty the shell's own.
    pub user: String,
}

impl Default for TerminalCommandOptions {
    fn default() -> (res: TerminalCommandOptions)
        ensures
            res.verbose == 0,
            res.server_fifo is None,
            res.etterminal_path@ == Seq::<char>::empty(),
            !res.kill_existing,
            res.user@ == Seq::<char>::empty(),
    {
        TerminalCommandOptions {
            verbose: 0,
            server_fifo: None,
            etterminal_path: String::new(),
            kill_existing: false,
            user: String::new(),
        }
    }
}

/// The part of the remote command that starts the terminal.
pub open spec fn start_command(
    id: Seq<char>,
    passkey: Seq<char>,
    term: Seq<char>,
    opts: TerminalCommandOptions,
) -> Seq<char> {
    let bin = if opts.etterminal_path@.len() == 0 {
        "etterminal"@
    } else {
        opts.etterminal_path@
    };
    let base = "echo '"@ + id + "/"@ + passkey + "_"@ + term + "' | "@ + bin + " --verbose="@
        + decimal_int(opts.verbose as int);
    match opts.server_fifo {
        Some(f) => base + " --serverfifo="@ + f@,
        None => base,
    }
}

/// The remote command.
pub open spec fn remote_command(
    id: Seq<char>,
    passkey: Seq<char>,
    term: Seq<char>,
    opts: TerminalCommandOptions,
) -> Seq<char> {
    let start = start_command(id, passkey, term, opts);
    if opts.kill_existing {
        let user = if opts.user@.len() == 0 {
            "$USER"@
        } else {
            opts.user@
        };
        "pkill etterminal -u "@ + user + "; sleep 0.5; "@ + start
    } else {
        start
    }
}

/// The command to run on the server. Nothing in it is escaped: what stands
/// between the quotes must be free of quotes.
pub fn etterminal_command(
    id: &str,
    passkey: &str,
    client_term: &str,
    opts: &TerminalCommandOptions,
) -> (res: String)
    ensures
        res@ == remote_command(id@, passkey@, client_term@, *opts),
{
    let mut s = "echo '".to_owned();
    s.append(id);
    s.append("/");
    s.append(passkey);
    s.append("_");
    s.append(client_term);
    s.append("' | ");
    if is_empty_text(opts.etterminal_path.as_str()) {
        s.append("etterminal");
    } else {
        s.append(opts.etterminal_path.as_str());
    }
    s.append(" --verbose=");
    s.append(decimal_int_text(opts.verbose as i64).as_str());
    if let Some(fifo) = &opts.server_fifo {
        s.append(" --serverfifo=");
        s.append(fifo.as_str());
    }
    if !opts.kill_existing {
        return s;
    }
    let mut c = "pkill etterminal -u ".to_owned();
    if is_empty_text(opts.user.as_str()) {
        c.append("$USER");
    } else {
        c.append(opts.user.as_str());
    }
    c.append("; sleep 0.5; ");
    c.append(s.as_str());
    c
}

/// Fresh credentials: the id tells the server to make new ones.
pub fn generate_id_passkey() -> (res: Result<IdPasskey, RandomError>)
    ensures
        res matches Ok(ip) ==> {
            &&& alphanumeric_text(ip.id@, ID_LEN as nat)
            &&& client_chosen(ip.id@)
            &&& alphanumeric_text(ip.passkey@, PASSKEY_LEN as nat)
        },
{
    match crate::ids::generate_id_passkey() {
        Ok((id, passkey)) => Ok(IdPasskey { id, passkey }),
        Err(e) => Err(e),
    }
}

/// The terminal type for the remote shell: that of the environment, or a
/// common one.
pub fn default_client_term(environment: Option<String>) -> (res: String)
    ensures
        res@ == preferred(None, opt_text(environment), "xterm-256color"@),
{
    match environment {
        Some(t) => t,
        None => "xterm-256color".to_owned(),
    }
}

/// Where to connect by ssh.
#[derive(Debug, Clone, PartialEq, Eq)]
pub struct SshDestination {
    pub user: String,
    pub host: String,
    pub port: Option<u16>,
    /// A host to go through.
    pub jumphost: Option<String>,
    /// Further options.
    pub ssh_options: Vec<String>,
}

impl Default for SshDestination {
    fn default() -> (res: SshDestination)
        ensures
            res.user@ == Seq::<char>::empty(),
            res.host@ == Seq::<char>::empty(),
            res.port is None,
            res.jumphost is None,
            res.ssh_options@.len() == 0,
    {
        SshDestination {
            user: String::new(),
            host: String::new(),
            port: None,
            jumphost: None,
            ssh_options: Vec::new(),
        }
    }
}

/// The arguments of `ssh`: the host to go through, the target, the port, the
/// options, the command.
pub open spec fn ssh_args(dest: SshDestination, command: Seq<char>) -> Seq<Seq<char>> {
    let jump = match dest.jumphost {
        Some(j) => seq!["-J"@, j@],
        None => Seq::empty(),
    };
    let target = if dest.user@.len() == 0 {
        dest.host@
    } else {
        dest.user@ + "@"@ + dest.host@
    };
    let port = match dest.port {
        Some(p) => seq!["-p"@, decimal(p as nat)],
        None => Seq::empty(),
    };
    let options = texts(dest.ssh_options@).map_values(|o: Seq<char>| "-o"@ + o);
    jump + seq![target] + port + options + seq![command]
}

fn push_text(v: &mut Vec<String>, s: String)
    ensures
        texts(final(v)@) == texts(old(v)@).push(s@),
{
    v.push(s);
    assert(texts(v@) =~= texts(old(v)@).push(s@));
}

/// The arguments of `ssh`.
pub fn build_ssh_args(dest: &SshDestination, command: &str) -> (res: Vec<String>)
    ensures
        texts(res@) == ssh_args(*dest, command@),
{
    let mut args: Vec<String> = Vec::new();
    if let Some(jump) = &dest.jumphost {
        push_text(&mut args, "-J".to_owned());
        push_text(&mut args, copy_text(jump.as_str()));
    }
    let ghost jump = texts(args@);
    let mut target = String::new();
    if !is_empty_text(dest.user.as_str()) {
        target.append(dest.user.as_str());
        target.append("@");
        target.append(dest.host.as_str());
        assert(target@ =~= dest.user@ + "@"@ + dest.host@);
    } else {
        target.append(dest.host.as_str());
        assert(target@ =~= dest.host@);
    }
    push_text(&mut args, target);
    if let Some(port) = dest.port {
        push_text(&mut args, "-p".to_owned());
        let mut p = String::new();
        push_decimal(&mut p, port as u64);
        assert(p@ =~= decimal(port as nat));
        push_text(&mut args, p);
    }
    let ghost before = texts(args@);
    let ghost options = texts(dest.ssh_options@).map_values(|o: Seq<char>| "-o"@ + o);
    let mut i: usize = 0;
    assert(before + options.take(0) =~= before);
    while i < dest.ssh_options.len()
        invariant
            i <= dest.ssh_options@.len(),
            options == texts(dest.ssh_options@).map_values(|o: Seq<char>| "-o"@ + o),
            texts(args@) == before + options.take(i as int),
        decreases dest.ssh_options.len() - i,
    {
        push_text(&mut args, joined("-o", dest.ssh_options[i].as_str()));
        i += 1;
        assert(texts(args@) =~= before + options.take(i as int));
    }
    push_text(&mut args, copy_text(command));
    assert(texts(args@) =~= ssh_args(*dest, command@));
    args
}

// ---------------------------------------------------------------------------
// Reading the credentials
// ---------------------------------------------------------------------------

/// The bytes of the marker.
pub open spec fn marker() -> Seq<u8> {
    seq![73u8, 68, 80, 65, 83, 83, 75, 69, 89, 58]
}

/// The marker is the text that it stands for.
pub proof fn law_marker()
    ensures
        encode_utf8(IDPASSKEY_MARKER@) == marker(),
{
    broadcast use vstd::utf8::group_utf8_lib;

    reveal_strlit("IDPASSKEY:");
    assert(vstd::utf8::is_ascii_chars(IDPASSKEY_MARKER@));
    assert(encode_utf8(IDPASSKEY_MARKER@) =~= marker());
}

/// Whether the marker stands at `i`.
pub open spec fn marked(b: Seq<u8>, i: int) -> bool {
    0 <= i && i + 10 <= b.len() && b.subrange(i, i + 10) == marker()
}

/// The position of the first slash of `w`, or its length.
pub open spec fn slash(w: Seq<u8>) -> int
    decreases w.len(),
{
    if w.len() == 0 || w[0] == 47 {
        0
    } else {
        1 + slash(w.skip(1))
    }
}

/// The credentials in the 49 bytes after the marker: two runs of symbols with
/// a slash between them.
pub open spec fn window_credentials(w: Seq<u8>) -> Option<(Seq<char>, Seq<char>)> {
    let k = slash(w);
    if k >= w.len() {
        None
    } else if forall|i: int| 0 <= i < w.len() && i != k ==> alphanumeric(#[trigger] w[i]) {
        Some((ascii_text(w.take(k)), ascii_text(w.skip(k + 1))))
    } else {
        None
    }
}

/// Whether `res` are the credentials in an output: those after the first
/// marker, if there is one and enough follows it.
pub open spec fn credentials(b: Seq<u8>, res: Option<(Seq<char>, Seq<char>)>) -> bool {
    ||| (forall|i: int| !#[trigger] marked(b, i)) && res is None
    ||| exists|i: int|
        {
            &&& #[trigger] marked(b, i)
            &&& forall|j: int| 0 <= j < i ==> !#[trigger] marked(b, j)
            &&& res == if i + 10 + 49 <= b.len() {
                window_credentials(b.subrange(i + 10, i + 10 + 49))
            } else {
                None
            }
        }
}

proof fn lemma_slash(w: Seq<u8>)
    ensures
        0 <= slash(w) <= w.len(),
        forall|i: int| 0 <= i < slash(w) ==> w[i] != 47,
        slash(w) < w.len() ==> w[slash(w)] == 47,
    decreases w.len(),
{
    if w.len() > 0 && w[0] != 47 {
        lemma_slash(w.skip(1));
        assert forall|i: int| 0 <= i < slash(w) implies w[i] != 47 by {
            if i > 0 {
                assert(w[i] == w.skip(1)[i - 1]);
            }
        }
    }
}

fn marker_at(b: &[u8], i: usize) -> (res: bool)
    requires
        i + 10 <= b@.len(),
    ensures
        res == marked(b@, i as int),
{
    let res = b[i] == 73 && b[i + 1] == 68 && b[i + 2] == 80 && b[i + 3] == 65 && b[i + 4] == 83
        && b[i + 5] == 83 && b[i + 6] == 75 && b[i + 7] == 69 && b[i + 8] == 89 && b[i + 9] == 58;
    proof {
        let s = b@.subrange(i as int, i + 10);
        if res {
            assert(s =~= marker());
        } else if s == marker() {
            assert(s[0] == 73 && s[1] == 68 && s[2] == 80 && s[3] == 65 && s[4] == 83 && s[5] == 83
                && s[6] == 75 && s[7] == 69 && s[8] == 89 && s[9] == 58);
        }
    }
    res
}

fn read_window(w: &[u8]) -> (res: Option<IdPasskey>)
    ensures
        match res {
            Some(ip) => window_credentials(w@) == Some((ip.id@, ip.passkey@)),
            None => window_credentials(w@) is None,
        },
{
    let mut k: usize = 0;
    assert(w@.skip(0) =~= w@);
    while k < w.len() && w[k] != 47
        invariant
            k <= w@.len(),
            slash(w@) == k + slash(w@.skip(k as int)),
        decreases w@.len() - k,
    {
        assert(w@.skip(k as int).skip(1) =~= w@.skip(k + 1));
        assert(w@.skip(k as int)[0] == w@[k as int]);
        k += 1;
    }
    proof {
        lemma_slash(w@);
        if k < w@.len() {
            assert(w@.skip(k as int)[0] == w@[k as int]);
        }
        assert(slash(w@) == k);
    }
    if k == w.len() {
        return None;
    }
    let mut i: usize = 0;
    while i < w.len()
        invariant
            i <= w@.len(),
            k < w@.len(),
            slash(w@) == k,
            forall|j: int| 0 <= j < i && j != k ==> alphanumeric(#[trigger] w@[j]),
        decreases w@.len() - i,
    {
        let c: u8 = w[i];
        let ok = (48 <= c && c <= 57) || (65 <= c && c <= 90) || (97 <= c && c <= 122);
        if i != k && !ok {
            assert(!alphanumeric(w@[i as int]));
            return None;
        }
        i += 1;
    }
    let id = byte_range(w, 0, k);
    let passkey = byte_range(w, k + 1, w.len());
    assert(id@ =~= w@.take(k as int));
    assert(passkey@ =~= w@.skip(k + 1));
    Some(
        IdPasskey {
            id: text_of_ascii(id.as_slice()),
            passkey: text_of_ascii(passkey.as_slice()),
        },
    )
}

/// The credentials in the output of ssh. What stands around them may be any
/// bytes; they themselves are symbols, which keeps a command built of them
/// free of quotes.
pub fn parse_idpasskey_bytes(output: &[u8]) -> (res: Option<IdPasskey>)
    ensures
        credentials(
            output@,
            match res {
                Some(ip) => Some((ip.id@, ip.passkey@)),
                None => None,
            },
        ),
{
    let mut i: usize = 0;
    while output.len() >= 10 && i <= output.len() - 10
        invariant
            forall|j: int| 0 <= j < i ==> !#[trigger] marked(output@, j),
            i <= output@.len(),
        decreases output@.len() - i,
    {
        if marker_at(output, i) {
            let start: usize = i + 10;
            if output.len() - start < 49 {
                return None;
            }
            let w = byte_range(output, start, start + 49);
            return read_window(w.as_slice());
        }
        i += 1;
    }
    assert forall|j: int| !#[trigger] marked(output@, j) by {
        if 0 <= j < i {
            assert(!marked(output@, j));
        }
    }
    None
}

/// The credentials in the output of ssh, given as text.
pub fn parse_idpasskey_output(output: &str) -> (res: Option<IdPasskey>)
    ensures
        credentials(
            encode_utf8(output@),
            match res {
                Some(ip) => Some((ip.id@, ip.passkey@)),
                None => None,
            },
        ),
{
    parse_idpasskey_bytes(output.as_bytes())
}

/// How the handshake over ssh failed.
#[derive(Clone, Debug, PartialEq, Eq)]
pub enum SshHandshakeError {
    SshFailed,
    MissingMarker,
    Io(crate::framing::IoFailure),
}

impl SshHandshakeError {
    /// The error in words.
    pub fn message(&self) -> (res: String)
        ensures
            res@ == match self {
                SshHandshakeError::SshFailed => "ssh exited unsuccessfully"@,
                SshHandshakeError::MissingMarker =>
                    "no IDPASSKEY in server output (is anything printed in the server shell rc files?)"@,
                SshHandshakeError::Io(e) => "io error: "@ + e.message@,
            },
    {
        match self {
            SshHandshakeError::SshFailed => "ssh exited unsuccessfully".to_owned(),
            SshHandshakeError::MissingMarker => {
                "no IDPASSKEY in server output (is anything printed in the server shell rc files?)".to_owned()
            },
            SshHandshakeError::Io(e) => joined("io error: ", e.message.as_str()),
        }
    }
}

/// Whether `res` is what a run of ssh amounts to: a failure counts only when
/// nothing was put out.
pub open spec fn ssh_tells(
    success: bool,
    stdout: Seq<u8>,
    res: Result<IdPasskey, SshHandshakeError>,
) -> bool {
    if !success && stdout.len() == 0 {
        res == Err::<IdPasskey, SshHandshakeError>(SshHandshakeError::SshFailed)
    } else {
        match res {
            Ok(ip) => credentials(stdout, Some((ip.id@, ip.passkey@))),
            Err(e) => e == SshHandshakeError::MissingMarker && credentials(stdout, None),
        }
    }
}

/// What a run of ssh amounts to.
pub fn ssh_outcome(success: bool, stdout: &[u8]) -> (res: Result<IdPasskey, SshHandshakeError>)
    ensures
        ssh_tells(success, stdout@, res),
{
    if !success && stdout.len() == 0 {
        return Err(SshHandshakeError::SshFailed);
    }
    match parse_idpasskey_bytes(stdout) {
        Some(ip) => Ok(ip),
        None => Err(SshHandshakeError::MissingMarker),
    }
}

// ---------------------------------------------------------------------------
// Laws
// ---------------------------------------------------------------------------

/// Credentials that were read hold symbols only.
pub proof fn law_credentials_are_symbols(b: Seq<u8>, id: Seq<char>, passkey: Seq<char>)
    requires
        credentials(b, Some((id, passkey))),
    ensures
        alphanumeric_text(id, id.len()),
        alphanumeric_text(passkey, passkey.len()),
        id.len() + 1 + passkey.len() == ID_LEN + 1 + PASSKEY_LEN,
{
    let i = choose|i: int|
        {
            &&& #[trigger] marked(b, i)
            &&& forall|j: int| 0 <= j < i ==> !#[trigger] marked(b, j)
            &&& Some((id, passkey)) == if i + 10 + 49 <= b.len() {
                window_credentials(b.subrange(i + 10, i + 10 + 49))
            } else {
                None
            }
        };
    let w = b.subrange(i + 10, i + 10 + 49);
    lemma_slash(w);
    let k = slash(w);
    assert forall|j: int| 0 <= j < id.len() implies alphanumeric((#[trigger] id[j]) as u8) && (
    id[j] as u32) < 128 by {
        assert(id[j] == w[j] as char);
        assert(alphanumeric(w[j]));
    }
    assert forall|j: int| 0 <= j < passkey.len() implies alphanumeric((#[trigger] passkey[j]) as u8)
        && (passkey[j] as u32) < 128 by {
        assert(passkey[j] == w[k + 1 + j] as char);
        assert(alphanumeric(w[k + 1 + j]));
    }
}

proof fn lemma_ascii(c: char)
    requires
        (c as u32) < 128,
    ensures
        '\0' <= c <= '\u{7f}',
        (c as u8) as char == c,
{
}

/// What a terminal announces is what the client reads, whatever was put out
/// before it, as long as that holds no marker, and whatever follows.
pub proof fn law_announcement_arrives(
    noise: Seq<u8>,
    id: Seq<char>,
    passkey: Seq<char>,
    rest: Seq<u8>,
    res: Option<(Seq<char>, Seq<char>)>,
)
    requires
        alphanumeric_text(id, ID_LEN as nat),
        alphanumeric_text(passkey, PASSKEY_LEN as nat),
        ({
            let b = noise + encode_utf8("IDPASSKEY:"@ + id + "/"@ + passkey) + rest;
            &&& forall|j: int| 0 <= j < noise.len() ==> !#[trigger] marked(b, j)
            &&& credentials(b, res)
        }),
    ensures
        res == Some((id, passkey)),
{
    broadcast use vstd::utf8::group_utf8_lib;

    reveal_strlit("IDPASSKEY:");
    reveal_strlit("/");
    let line = "IDPASSKEY:"@ + id + "/"@ + passkey;
    let n = noise.len() as int;
    let said = encode_utf8(line);
    let b = noise + said + rest;
    assert forall|i: int| 0 <= i < line.len() implies '\0' <= #[trigger] line[i] <= '\u{7f}' by {
        if i < 10 {
            assert(line[i] == "IDPASSKEY:"@[i]);
            assert(i == 0 || i == 1 || i == 2 || i == 3 || i == 4 || i == 5 || i == 6 || i == 7 || i
                == 8 || i == 9);
        } else if i == 26 {
            assert(line[i] == "/"@[0]);
        } else if i < 26 {
            assert(line[i] == id[i - 10]);
            lemma_ascii(id[i - 10]);
        } else {
            assert(line[i] == passkey[i - 27]);
            lemma_ascii(passkey[i - 27]);
        }
    }
    assert(vstd::utf8::is_ascii_chars(line));
    assert(said.len() == line.len());
    assert(b.subrange(n, n + 10) =~= marker());
    assert(marked(b, n));
    let w = b.subrange(n + 10, n + 10 + 49);
    assert forall|i: int| 0 <= i < 49 implies #[trigger] w[i] == line[10 + i] as u8 by {
        assert(w[i] == said[10 + i]);
    }
    assert forall|i: int| 0 <= i < 49 && i != 16 implies alphanumeric(#[trigger] w[i]) by {
        if i < 16 {
            assert(line[10 + i] == id[i]);
            assert(alphanumeric(id[i] as u8));
        } else {
            assert(line[10 + i] == passkey[i - 17]);
            assert(alphanumeric(passkey[i - 17] as u8));
        }
    }
    assert(w[16] == 47);
    lemma_slash(w);
    assert(slash(w) == 16) by {
        if slash(w) < 16 {
            assert(alphanumeric(w[slash(w)]));
        }
    }
    assert(ascii_text(w.take(16)) =~= id) by {
        assert forall|i: int| 0 <= i < 16 implies ascii_text(w.take(16))[i] == id[i] by {
            assert(w[i] == line[10 + i] as u8);
            assert(line[10 + i] == id[i]);
            lemma_ascii(id[i]);
        }
    }
    assert(ascii_text(w.skip(17)) =~= passkey) by {
        assert forall|i: int| 0 <= i < 32 implies ascii_text(w.skip(17))[i] == passkey[i] by {
            assert(w[17 + i] == line[27 + i] as u8);
            assert(line[27 + i] == passkey[i]);
            lemma_ascii(passkey[i]);
        }
    }
    assert(window_credentials(w) == Some((id, passkey)));
    let i = choose|i: int|
        {
            &&& #[trigger] marked(b, i)
            &&& forall|j: int| 0 <= j < i ==> !#[trigger] marked(b, j)
            &&& res == if i + 10 + 49 <= b.len() {
                window_credentials(b.subrange(i + 10, i + 10 + 49))
            } else {
                None
            }
        };
    assert(i == n);
}

/// Whether a text holds the marker.
pub open spec fn holds_marker(t: Seq<char>) -> bool {
    exists|i: int|
        #![trigger t.subrange(i, i + 10)]
        0 <= i && i + 10 <= t.len() && t.subrange(i, i + 10) == IDPASSKEY_MARKER@
}

proof fn lemma_scalar_bytes(c: char)
    ensures
        ({
            let e = encode_scalar(c as u32);
            &&& e.len() >= 1
            &&& (c as u32) < 128 ==> e.len() == 1 && e[0] as u32 == c as u32
            &&& (c as u32) >= 128 ==> forall|j: int| 0 <= j < e.len() ==> #[trigger] e[j] >= 128
        }),
{
    let v = c as u32;
    if v < 128 {
        assert((v & 0x7f) as u8 == v as u8) by (bit_vector)
            requires
                v < 128,
        ;
    }
    assert((0xC0u8 | ((v >> 6) & 0x1F) as u8) >= 128) by (bit_vector);
    assert((0xE0u8 | ((v >> 12) & 0x0F) as u8) >= 128) by (bit_vector);
    assert((0xF0u8 | ((v >> 18) & 0x7) as u8) >= 128) by (bit_vector);
    assert((0x80u8 | (v & 0x3F) as u8) >= 128) by (bit_vector);
    assert((0x80u8 | ((v >> 6) & 0x3F) as u8) >= 128) by (bit_vector);
    assert((0x80u8 | ((v >> 12) & 0x3F) as u8) >= 128) by (bit_vector);
}

proof fn lemma_encode_concat(a: Seq<char>, b: Seq<char>)
    ensures
        encode_utf8(a + b) == encode_utf8(a) + encode_utf8(b),
    decreases a.len(),
{
    if a.len() == 0 {
        assert(a + b =~= b);
        assert(encode_utf8(a) + encode_utf8(b) =~= encode_utf8(b));
    } else {
        lemma_encode_concat(a.drop_first(), b);
        assert((a + b).drop_first() =~= a.drop_first() + b);
        assert(encode_utf8(a + b) =~= encode_utf8(a) + encode_utf8(b));
    }
}

/// Bytes below 128 at the start of an encoded text are its first characters.
proof fn lemma_ascii_prefix(t: Seq<char>, n: nat)
    requires
        n <= encode_utf8(t).len(),
        forall|j: int| 0 <= j < n ==> #[trigger] encode_utf8(t)[j] < 128,
    ensures
        n <= t.len(),
        forall|j: int|
            0 <= j < n ==> (#[trigger] t[j]) as u32 == encode_utf8(t)[j],
    decreases n,
{
    if n > 0 {
        assert(t.len() > 0);
        let rest = t.drop_first();
        let e = encode_scalar(t[0] as u32);
        lemma_scalar_bytes(t[0]);
        assert(encode_utf8(t)[0] == e[0]);
        assert((t[0] as u32) < 128);
        assert forall|j: int| 0 <= j < n - 1 implies #[trigger] encode_utf8(rest)[j] < 128 by {
            assert(encode_utf8(rest)[j] == encode_utf8(t)[j + 1]);
        }
        lemma_ascii_prefix(rest, (n - 1) as nat);
        assert forall|j: int| 0 <= j < n implies (#[trigger] t[j]) as u32 == encode_utf8(
            t,
        )[j] by {
            if j > 0 {
                assert(t[j] == rest[j - 1]);
                assert(encode_utf8(rest)[j - 1] == encode_utf8(t)[j]);
            }
        }
    }
}

/// A marker among the bytes of a text is a marker in the text.
proof fn lemma_marker_in_text(t: Seq<char>, j: int)
    requires
        marked(encode_utf8(t), j),
    ensures
        holds_marker(t),
    decreases t.len(),
{
    let b = encode_utf8(t);
    assert(t.len() > 0);
    let rest = t.drop_first();
    let e = encode_scalar(t[0] as u32);
    lemma_scalar_bytes(t[0]);
    assert forall|k: int| 0 <= k < 10 implies b[j + k] == marker()[k] by {
        assert(b.subrange(j, j + 10)[k] == b[j + k]);
    }
    if j == 0 {
        assert forall|k: int| 0 <= k < 10 implies #[trigger] b[k] < 128 by {
            assert(b[0 + k] == marker()[k]);
        }
        lemma_ascii_prefix(t, 10);
        reveal_strlit("IDPASSKEY:");
        let s = t.subrange(0, 0int + 10);
        assert forall|k: int| 0 <= k < 10 implies s[k] == IDPASSKEY_MARKER@[k] by {
            assert(t[k] as u32 == b[k]);
            assert(b[0 + k] == marker()[k]);
            lemma_same_char(t[k], IDPASSKEY_MARKER@[k]);
        }
        assert(s =~= IDPASSKEY_MARKER@);
    } else if j < e.len() {
        assert(b[j + 0] == marker()[0]);
        assert(b[j] == e[j]);
        assert(e[j] >= 128);
    } else {
        let k = j - e.len();
        assert(encode_utf8(rest).subrange(k, k + 10) =~= b.subrange(j, j + 10));
        lemma_marker_in_text(rest, k);
        let i = choose|i: int|
            #![trigger rest.subrange(i, i + 10)]
            0 <= i && i + 10 <= rest.len() && rest.subrange(i, i + 10) == IDPASSKEY_MARKER@;
        assert(t.subrange(i + 1, i + 1 + 10) =~= rest.subrange(i, i + 10));
    }
}

proof fn lemma_same_char(a: char, b: char)
    requires
        a as u32 == b as u32,
    ensures
        a == b,
{
}

/// Before an announcement that follows a text without the marker there is no
/// marker: neither in the text, nor across its end.
proof fn lemma_no_marker_before(noise: Seq<char>, rest: Seq<u8>, j: int)
    requires
        !holds_marker(noise),
        0 <= j < encode_utf8(noise).len(),
    ensures
        !marked(encode_utf8(noise) + marker() + rest, j),
{
    let n = encode_utf8(noise);
    let b = n + marker() + rest;
    if marked(b, j) {
        let w = b.subrange(j, j + 10);
        if j + 10 <= n.len() {
            assert(n.subrange(j, j + 10) =~= w);
            lemma_marker_in_text(noise, j);
        } else {
            let k = n.len() - j;
            assert(w[9] == marker()[9]);
            assert(w[9] == b[j + 9]);
            assert(b[j + 9] == marker()[9 - k]);
        }
    }
}

/// The handshake comes through: after any text without the marker, and before
/// any other, what a terminal announces is what the client reads. An
/// announcement that is cut short, and a text without one, give nothing.
pub proof fn law_announcement_arrives_in_text(
    noise: Seq<char>,
    id: Seq<char>,
    passkey: Seq<char>,
    tail: Seq<char>,
    cut: nat,
    whole: Option<(Seq<char>, Seq<char>)>,
    short: Option<(Seq<char>, Seq<char>)>,
    none: Option<(Seq<char>, Seq<char>)>,
)
    requires
        !holds_marker(noise),
        alphanumeric_text(id, ID_LEN as nat),
        alphanumeric_text(passkey, PASSKEY_LEN as nat),
        cut < PASSKEY_LEN,
        credentials(encode_utf8(noise + ("IDPASSKEY:"@ + id + "/"@ + passkey) + tail), whole),
        credentials(
            encode_utf8(noise + ("IDPASSKEY:"@ + id + "/"@ + passkey.take(cut as int))),
            short,
        ),
        credentials(encode_utf8(noise), none),
    ensures
        whole == Some((id, passkey)),
        short is None,
        none is None,
{
    lemma_whole_arrives(noise, id, passkey, tail, whole);
    lemma_short_gives_nothing(noise, id, passkey, cut, short);
    assert forall|j: int| !#[trigger] marked(encode_utf8(noise), j) by {
        if marked(encode_utf8(noise), j) {
            lemma_marker_in_text(noise, j);
        }
    }
}

proof fn lemma_whole_arrives(
    noise: Seq<char>,
    id: Seq<char>,
    passkey: Seq<char>,
    tail: Seq<char>,
    res: Option<(Seq<char>, Seq<char>)>,
)
    requires
        !holds_marker(noise),
        alphanumeric_text(id, ID_LEN as nat),
        alphanumeric_text(passkey, PASSKEY_LEN as nat),
        credentials(encode_utf8(noise + ("IDPASSKEY:"@ + id + "/"@ + passkey) + tail), res),
    ensures
        res == Some((id, passkey)),
{
    let line = "IDPASSKEY:"@ + id + "/"@ + passkey;
    let n = encode_utf8(noise);
    let said = encode_utf8(line);
    let rest = encode_utf8(tail);
    assert(passkey.take(32) =~= passkey);
    lemma_line_bytes(id, passkey, PASSKEY_LEN as nat);
    lemma_encode_concat(noise + line, tail);
    lemma_encode_concat(noise, line);
    let b = n + said + rest;
    let after = said.skip(10) + rest;
    assert(n + marker() + after =~= b);
    assert forall|j: int| 0 <= j < n.len() implies !#[trigger] marked(b, j) by {
        lemma_no_marker_before(noise, after, j);
    }
    law_announcement_arrives(n, id, passkey, rest, res);
}

proof fn lemma_short_gives_nothing(
    noise: Seq<char>,
    id: Seq<char>,
    passkey: Seq<char>,
    cut: nat,
    res: Option<(Seq<char>, Seq<char>)>,
)
    requires
        !holds_marker(noise),
        alphanumeric_text(id, ID_LEN as nat),
        alphanumeric_text(passkey, PASSKEY_LEN as nat),
        cut < PASSKEY_LEN,
        credentials(
            encode_utf8(noise + ("IDPASSKEY:"@ + id + "/"@ + passkey.take(cut as int))),
            res,
        ),
    ensures
        res is None,
{
    let part = "IDPASSKEY:"@ + id + "/"@ + passkey.take(cut as int);
    let n = encode_utf8(noise);
    let said = encode_utf8(part);
    lemma_line_bytes(id, passkey, cut);
    lemma_encode_concat(noise, part);
    let b = n + said;
    let after = said.skip(10);
    assert(n + marker() + after =~= b);
    assert forall|j: int| 0 <= j < n.len() implies !#[trigger] marked(b, j) by {
        lemma_no_marker_before(noise, after, j);
    }
    if res is Some {
        let i = choose|i: int|
            {
                &&& #[trigger] marked(b, i)
                &&& forall|j: int| 0 <= j < i ==> !#[trigger] marked(b, j)
                &&& res == if i + 10 + 49 <= b.len() {
                    window_credentials(b.subrange(i + 10, i + 10 + 49))
                } else {
                    None
                }
            };
        assert(i >= n.len());
    }
}

/// The bytes of an announcement with the first `cut` characters of its passkey.
proof fn lemma_line_bytes(id: Seq<char>, passkey: Seq<char>, cut: nat)
    requires
        alphanumeric_text(id, ID_LEN as nat),
        alphanumeric_text(passkey, PASSKEY_LEN as nat),
        cut <= PASSKEY_LEN,
    ensures
        ({
            let b = encode_utf8("IDPASSKEY:"@ + id + "/"@ + passkey.take(cut as int));
            &&& b.len() == 27 + cut
            &&& b.take(10) == marker()
            &&& b == marker() + b.skip(10)
        }),
{
    broadcast use vstd::utf8::group_utf8_lib;

    reveal_strlit("IDPASSKEY:");
    reveal_strlit("/");
    let line = "IDPASSKEY:"@ + id + "/"@ + passkey.take(cut as int);
    assert forall|i: int| 0 <= i < line.len() implies '\0' <= #[trigger] line[i] <= '\u{7f}' by {
        if i < 10 {
            assert(line[i] == "IDPASSKEY:"@[i]);
            assert(i == 0 || i == 1 || i == 2 || i == 3 || i == 4 || i == 5 || i == 6 || i == 7 || i
                == 8 || i == 9);
        } else if i == 26 {
            assert(line[i] == "/"@[0]);
        } else if i < 26 {
            assert(line[i] == id[i - 10]);
            lemma_ascii(id[i - 10]);
        } else {
            assert(line[i] == passkey[i - 27]);
            lemma_ascii(passkey[i - 27]);
        }
    }
    assert(vstd::utf8::is_ascii_chars(line));
    let b = encode_utf8(line);
    assert(b.len() == line.len());
    assert forall|i: int| 0 <= i < 10 implies b[i] == marker()[i] by {
        assert(line[i] == "IDPASSKEY:"@[i]);
        assert(i == 0 || i == 1 || i == 2 || i == 3 || i == 4 || i == 5 || i == 6 || i == 7 || i == 8
            || i == 9);
    }
    assert(b.take(10) =~= marker());
    assert(b =~= marker() + b.skip(10));
}

/// A command built of credentials that were made or read here holds no quote
/// but the two around them: neither they nor what separates them is one.
pub proof fn law_credentials_stay_quoted(id: Seq<char>, passkey: Seq<char>, term: Seq<char>)
    requires
        alphanumeric_text(id, id.len()),
        alphanumeric_text(passkey, passkey.len()),
        !term.contains('\''),
    ensures
        !(id + "/"@ + passkey + "_"@ + term).contains('\''),
{
    reveal_strlit("/");
    reveal_strlit("_");
    let t = id + "/"@ + passkey + "_"@ + term;
    assert forall|i: int| 0 <= i < t.len() implies t[i] != '\'' by {
        let a = id.len() as int;
        let b = a + 1 + passkey.len() as int;
        if i < a {
            assert(t[i] == id[i]);
            assert(alphanumeric(id[i] as u8) && (id[i] as u32) < 128);
        } else if a < i < b {
            assert(t[i] == passkey[i - a - 1]);
            assert(alphanumeric(passkey[i - a - 1] as u8) && (passkey[i - a - 1] as u32) < 128);
        } else if i > b {
            assert(t[i] == term[i - b - 1]);
            assert(term.contains(term[i - b - 1]));
        }
    }
}

/// The remote command hands the terminal its line: what stands between the
/// quotes names the credentials and the terminal type, and the terminal reads
/// them there.
pub proof fn law_command_feeds_the_terminal(
    id: Seq<char>,
    passkey: Seq<char>,
    term: Seq<char>,
    opts: TerminalCommandOptions,
)
    requires
        alphanumeric_text(id, ID_LEN as nat),
        alphanumeric_text(passkey, PASSKEY_LEN as nat),
        crate::text::without_eol(term) == term,
    ensures
        ({
            let line = id + "/"@ + passkey + "_"@ + term;
            let start = start_command(id, passkey, term, opts);
            let head = "echo '"@ + line + "' | "@;
            &&& start.take(head.len() as int) == head
            &&& crate::terminal::handshake_line(line.push('\n')) == Ok::<
                (Seq<char>, Seq<char>, Seq<char>),
                Seq<char>,
            >((id, passkey, term))
        }),
{
    reveal_strlit("/");
    reveal_strlit("_");
    assert("/"@ =~= seq!['/']);
    assert("_"@ =~= seq!['_']);
    let line = id + "/"@ + passkey + "_"@ + term;
    let start = start_command(id, passkey, term, opts);
    let head = "echo '"@ + line + "' | "@;
    assert("echo '"@ + id + "/"@ + passkey + "_"@ + term + "' | "@ =~= head);
    assert(start.take(head.len() as int) =~= head);
    crate::terminal::law_fresh_credentials_arrive(id, passkey, term);
    crate::text::law_without_eol(line);
}

/// What an option adds to the remote command: the place of the local socket at
/// its end, and the end of earlier terminals before it. A program without a
/// path is the one by its name.
pub proof fn law_command_options(
    id: Seq<char>,
    passkey: Seq<char>,
    term: Seq<char>,
    opts: TerminalCommandOptions,
    fifo: String,
    named: String,
)
    requires
        named@ == "etterminal"@,
    ensures
        ({
            let plain = TerminalCommandOptions { kill_existing: false, server_fifo: None, ..opts };
            let socket = TerminalCommandOptions { server_fifo: Some(fifo), ..plain };
            let start = remote_command(id, passkey, term, plain);
            &&& remote_command(id, passkey, term, socket) == start + " --serverfifo="@ + fifo@
            &&& opts.kill_existing && opts.server_fifo is None ==> remote_command(
                id,
                passkey,
                term,
                opts,
            ) == "pkill etterminal -u "@ + (if opts.user@.len() == 0 {
                "$USER"@
            } else {
                opts.user@
            }) + "; sleep 0.5; "@ + start
            &&& opts.etterminal_path@.len() == 0 ==> start == remote_command(
                id,
                passkey,
                term,
                (TerminalCommandOptions { etterminal_path: named, ..plain }),
            )
        }),
{
    reveal_strlit("etterminal");
}

/// The arguments of `ssh` in their places: the host to go through first, then
/// the target with its user if there is one, then the port, then the options as
/// they were given, and the command last.
pub proof fn law_ssh_arguments(dest: SshDestination, command: Seq<char>, i: int)
    ensures
        ({
            let args = ssh_args(dest, command);
            let at: int = if dest.jumphost is Some {
                2
            } else {
                0
            };
            let after: int = if dest.port is Some {
                at + 3
            } else {
                at + 1
            };
            let n = dest.ssh_options@.len();
            &&& args.len() == after + n + 1
            &&& args.last() == command
            &&& dest.jumphost matches Some(j) ==> args[0] == "-J"@ && args[1] == j@
            &&& dest.user@.len() > 0 ==> args[at] == dest.user@ + "@"@ + dest.host@
            &&& dest.user@.len() == 0 ==> args[at] == dest.host@
            &&& dest.port matches Some(p) ==> args[at + 1] == "-p"@ && args[at + 2] == decimal(
                p as nat,
            )
            &&& 0 <= i < n ==> args[after + i] == "-o"@ + dest.ssh_options@[i]@
        }),
{
    let n = dest.ssh_options@.len();
    if 0 <= i < n {
        assert(texts(dest.ssh_options@)[i] == dest.ssh_options@[i]@);
    }
}

/// An output tells one thing: no other credentials, and not none.
pub proof fn law_credentials_are_unique(
    b: Seq<u8>,
    x: Option<(Seq<char>, Seq<char>)>,
    y: Option<(Seq<char>, Seq<char>)>,
)
    requires
        credentials(b, x),
        credentials(b, y),
    ensures
        x == y,
{
    if exists|i: int| #[trigger] marked(b, i) {
        let i = choose|i: int|
            {
                &&& #[trigger] marked(b, i)
                &&& forall|j: int| 0 <= j < i ==> !#[trigger] marked(b, j)
                &&& x == if i + 10 + 49 <= b.len() {
                    window_credentials(b.subrange(i + 10, i + 10 + 49))
                } else {
                    None
                }
            };
        let k = choose|k: int|
            {
                &&& #[trigger] marked(b, k)
                &&& forall|j: int| 0 <= j < k ==> !#[trigger] marked(b, j)
                &&& y == if k + 10 + 49 <= b.len() {
                    window_credentials(b.subrange(k + 10, k + 10 + 49))
                } else {
                    None
                }
            };
        assert(marked(b, i) && marked(b, k));
        assert(i == k);
    }
}

/// A client gets the credentials that its terminal told, however ssh ended; it
/// fails where nothing was told.
pub proof fn law_told_credentials_count(
    success: bool,
    stdout: Seq<u8>,
    told: Option<(Seq<char>, Seq<char>)>,
    res: Result<IdPasskey, SshHandshakeError>,
)
    requires
        ssh_tells(success, stdout, res),
        credentials(stdout, told),
    ensures
        told matches Some((id, passkey)) ==> (res matches Ok(ip) && ip.id@ == id && ip.passkey@
            == passkey),
        told is None ==> res is Err,
        !success && stdout.len() == 0 ==> res == Err::<IdPasskey, SshHandshakeError>(
            SshHandshakeError::SshFailed,
        ),
        told is None && (success || stdout.len() > 0) ==> res == Err::<
            IdPasskey,
            SshHandshakeError,
        >(SshHandshakeError::MissingMarker),
{
    if let Ok(ip) = res {
        law_credentials_are_unique(stdout, told, Some((ip.id@, ip.passkey@)));
    } else if success || stdout.len() > 0 {
        law_credentials_are_unique(stdout, told, None);
    } else {
        assert forall|i: int| !#[trigger] marked(stdout, i) by {}
        law_credentials_are_unique(stdout, told, None);
    }
}

} // verus!
