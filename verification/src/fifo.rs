//! Where server and terminals meet: the place of the local socket.
//!
//! A server of the superuser has one fixed place. Any other has a directory of
//! its own under the user's runtime directory or, failing that, under the
//! user's home. A terminal looks at the fixed place first.

use vstd::prelude::*;
use crate::error::ServerError;
use crate::framing::IoFailure;
use crate::text::{chars_of, copy_text, joined, quoted, quoted_text, texts};

verus! {

/// Whether a path starts at the root.
pub open spec fn absolute(p: Seq<char>) -> bool {
    p.len() > 0 && p[0] == '/'
}

/// `name`, which is no absolute path, below `dir`.
pub open spec fn below(dir: Seq<char>, name: Seq<char>) -> Seq<char> {
    if dir.len() == 0 || dir.last() == '/' {
        dir + name
    } else {
        dir + "/"@ + name
    }
}

/// The user's home, which must be absolute.
pub open spec fn home_dir(home: Option<Seq<char>>) -> Option<Seq<char>> {
    match home {
        Some(h) => if absolute(h) {
            Some(h)
        } else {
            None
        },
        None => None,
    }
}

/// The directory for run-time files, and whether it is the default one below
/// the user's home.
pub open spec fn runtime_dir(xdg: Option<Seq<char>>, home: Option<Seq<char>>) -> Option<
    (Seq<char>, bool),
> {
    if xdg matches Some(d) && absolute(d) {
        Some((xdg->0, false))
    } else {
        match home_dir(home) {
            Some(h) => Some((below(h, ".local/share"@), true)),
            None => None,
        }
    }
}

/// The text of an optional string slice.
pub open spec fn opt_str(s: Option<&str>) -> Option<Seq<char>> {
    match s {
        Some(x) => Some(x@),
        None => None,
    }
}

fn is_absolute(p: &str) -> (res: bool)
    ensures
        res == absolute(p@),
{
    let c = chars_of(p);
    c.len() > 0 && c[0] == '/'
}

/// `name` below `dir`.
pub fn path_below(dir: &str, name: &str) -> (res: String)
    ensures
        res@ == below(dir@, name@),
{
    let c = chars_of(dir);
    let mut s = copy_text(dir);
    if c.len() > 0 && c[c.len() - 1] != '/' {
        s.append("/");
    }
    s.append(name);
    s
}

/// The user's home.
pub fn find_home(home: Option<&str>) -> (res: Result<String, ServerError>)
    ensures
        match home_dir(opt_str(home)) {
            Some(h) => res matches Ok(p) && p@ == h,
            None => res matches Err(e) && e.says("$HOME is missing or relative"@),
        },
{
    match home {
        Some(h) => {
            if is_absolute(h) {
                Ok(copy_text(h))
            } else {
                Err(ServerError::other("$HOME is missing or relative"))
            }
        },
        None => Err(ServerError::other("$HOME is missing or relative")),
    }
}

/// The directory for run-time files, and whether it is the default one.
pub fn xdg_runtime_dir(xdg: Option<&str>, home: Option<&str>) -> (res: Result<
    (String, bool),
    ServerError,
>)
    ensures
        match runtime_dir(opt_str(xdg), opt_str(home)) {
            Some((d, default)) => res matches Ok((p, b)) && p@ == d && b == default,
            None => res matches Err(e) && e.says("$HOME is missing or relative"@),
        },
{
    if let Some(d) = xdg {
        if is_absolute(d) {
            return Ok((copy_text(d), false));
        }
    }
    match find_home(home) {
        Ok(h) => Ok((path_below(h.as_str(), ".local/share"), true)),
        Err(e) => Err(e),
    }
}

/// The socket in a directory for run-time files.
pub open spec fn socket_in(dir: Seq<char>) -> Seq<char> {
    below(below(dir, "etserver"@), "etserver.idpasskey.fifo"@)
}

/// Where a server puts its socket: where it is told to, at the fixed place of
/// the superuser, or in its own directory.
pub open spec fn creation_path(
    told: Option<Seq<char>>,
    is_root: bool,
    xdg: Option<Seq<char>>,
    home: Option<Seq<char>>,
) -> Option<Seq<char>> {
    match told {
        Some(p) => Some(p),
        None => if is_root {
            Some("/var/run/etserver.idpasskey.fifo"@)
        } else {
            match runtime_dir(xdg, home) {
                Some((d, _)) => Some(socket_in(d)),
                None => None,
            }
        },
    }
}

/// Where a server puts its socket.
pub fn path_for_creation(
    override_path: Option<&str>,
    is_root: bool,
    xdg: Option<&str>,
    home: Option<&str>,
) -> (res: Result<String, ServerError>)
    ensures
        match creation_path(opt_str(override_path), is_root, opt_str(xdg), opt_str(home)) {
            Some(p) => res matches Ok(r) && r@ == p,
            None => res matches Err(e) && e.says("$HOME is missing or relative"@),
        },
{
    if let Some(p) = override_path {
        return Ok(copy_text(p));
    }
    if is_root {
        return Ok("/var/run/etserver.idpasskey.fifo".to_owned());
    }
    match xdg_runtime_dir(xdg, home) {
        Err(e) => Err(e),
        Ok((dir, _)) => {
            let own = path_below(dir.as_str(), "etserver");
            Ok(path_below(own.as_str(), "etserver.idpasskey.fifo"))
        },
    }
}

/// Directories to make before the socket: some that may be there already, and
/// the server's own, which must be a directory in the end.
pub struct DirectoryPlan {
    pub parents: Vec<String>,
    pub own: String,
}

/// Whether `res` are the directories that a server needs: none unless it uses
/// its own.
pub open spec fn plans_directories(
    told: Option<Seq<char>>,
    is_root: bool,
    xdg: Option<Seq<char>>,
    home: Option<Seq<char>>,
    res: Result<Option<DirectoryPlan>, ServerError>,
) -> bool {
    if told is Some || is_root {
        res matches Ok(None)
    } else {
        match runtime_dir(xdg, home) {
            None => res matches Err(e) && e.says("$HOME is missing or relative"@),
            Some((d, default)) => res matches Ok(Some(plan)) && plan.own@ == below(d, "etserver"@)
                && texts(plan.parents@) == if default {
                seq![below(home->0, ".local"@), below(home->0, ".local/share"@)]
            } else {
                Seq::empty()
            },
        }
    }
}

/// The directories that a server needs.
pub fn create_directories_if_required(
    override_path: Option<&str>,
    is_root: bool,
    xdg: Option<&str>,
    home: Option<&str>,
) -> (res: Result<Option<DirectoryPlan>, ServerError>)
    ensures
        plans_directories(opt_str(override_path), is_root, opt_str(xdg), opt_str(home), res),
{
    if override_path.is_some() || is_root {
        return Ok(None);
    }
    let (dir, default) = match xdg_runtime_dir(xdg, home) {
        Ok(x) => x,
        Err(e) => {
            return Err(e);
        },
    };
    let mut parents: Vec<String> = Vec::new();
    if default {
        let h = match find_home(home) {
            Ok(h) => h,
            Err(e) => {
                return Err(e);
            },
        };
        parents.push(path_below(h.as_str(), ".local"));
        parents.push(path_below(h.as_str(), ".local/share"));
        assert(texts(parents@) =~= seq![
            below(opt_str(home)->0, ".local"@),
            below(opt_str(home)->0, ".local/share"@),
        ]);
    } else {
        assert(texts(parents@) =~= Seq::<Seq<char>>::empty());
    }
    Ok(Some(DirectoryPlan { parents, own: path_below(dir.as_str(), "etserver") }))
}

/// What came of preparing the server's own directory.
pub enum DirectoryState {
    /// It could not be looked at.
    NoStat(String),
    /// Its permissions could not be set.
    NoChmod(String),
    /// What it is, and whether the user owns it.
    Found { is_dir: bool, owned: bool },
}

/// Whether `res` says if the server's own directory will do: it must be a
/// directory that belongs to the user.
pub open spec fn judges_directory(
    dir: Seq<char>,
    state: DirectoryState,
    res: Result<(), ServerError>,
) -> bool {
    match state {
        DirectoryState::NoStat(m) => res matches Err(e) && e.says(
            "failed to stat "@ + quoted_text(dir) + ": "@ + m@,
        ),
        DirectoryState::NoChmod(m) => res matches Err(e) && e.says(
            "failed to chmod "@ + quoted_text(dir) + ": "@ + m@,
        ),
        DirectoryState::Found { is_dir, owned } => if !is_dir {
            res matches Err(e) && e.says(quoted_text(dir) + " is not a directory"@)
        } else if !owned {
            res matches Err(e) && e.says(quoted_text(dir) + " is not owned by the current user"@)
        } else {
            res is Ok
        },
    }
}

/// Whether the server's own directory will do.
pub fn check_directory(dir: &str, state: DirectoryState) -> (res: Result<(), ServerError>)
    ensures
        judges_directory(dir@, state, res),
{
    match state {
        DirectoryState::NoStat(m) => {
            let mut s = joined("failed to stat ", quoted(dir).as_str());
            s.append(": ");
            s.append(m.as_str());
            Err(ServerError::Other(s))
        },
        DirectoryState::NoChmod(m) => {
            let mut s = joined("failed to chmod ", quoted(dir).as_str());
            s.append(": ");
            s.append(m.as_str());
            Err(ServerError::Other(s))
        },
        DirectoryState::Found { is_dir, owned } => {
            if !is_dir {
                let mut s = quoted(dir);
                s.append(" is not a directory");
                Err(ServerError::Other(s))
            } else if !owned {
                let mut s = quoted(dir);
                s.append(" is not owned by the current user");
                Err(ServerError::Other(s))
            } else {
                Ok(())
            }
        },
    }
}

/// What is said when there is no server.
pub open spec fn no_server() -> Seq<char> {
    "The Eternal Terminal daemon is not running. Please (re)start the et daemon on the server."@
}

/// Where a terminal looks for its server, in this order, and what it says when
/// none is there.
pub struct Probe {
    pub paths: Vec<String>,
    pub failure: ServerError,
}

/// Where a terminal that was not told a place looks for its server, in this
/// order.
pub open spec fn probed(is_root: bool, xdg: Option<Seq<char>>, home: Option<Seq<char>>) -> Seq<
    Seq<char>,
> {
    let root = "/var/run/etserver.idpasskey.fifo"@;
    if is_root {
        seq![root]
    } else {
        match creation_path(None, false, xdg, home) {
            Some(p) => seq![root, p],
            None => seq![root],
        }
    }
}

/// Where a terminal that was not told a place looks for its server: at the
/// fixed place and, unless it is the superuser's, at that of the user's own
/// server. Without a home there is no such place, and that is what is said.
pub fn detect_paths(is_root: bool, xdg: Option<&str>, home: Option<&str>) -> (res: Probe)
    ensures
        texts(res.paths@) == probed(is_root, opt_str(xdg), opt_str(home)),
        res.failure.says(
            if !is_root && creation_path(None, false, opt_str(xdg), opt_str(home)) is None {
                "$HOME is missing or relative"@
            } else {
                no_server()
            },
        ),
{
    let mut paths: Vec<String> = Vec::new();
    paths.push("/var/run/etserver.idpasskey.fifo".to_owned());
    let ghost root = "/var/run/etserver.idpasskey.fifo"@;
    assert(texts(paths@) =~= seq![root]);
    if !is_root {
        match path_for_creation(None, false, xdg, home) {
            Ok(p) => {
                paths.push(p);
                assert(texts(paths@) =~= seq![root, p@]);
            },
            Err(failure) => {
                return Probe { paths, failure };
            },
        }
    }
    Probe {
        paths,
        failure: ServerError::other(
            "The Eternal Terminal daemon is not running. Please (re)start the et daemon on the server.",
        ),
    }
}

/// What is said when the place that a terminal was told has no server.
pub fn map_connect_error(refused: bool, e: IoFailure) -> (res: ServerError)
    ensures
        if refused {
            res.says(no_server())
        } else {
            res == ServerError::Io(e)
        },
{
    if refused {
        ServerError::other(
            "The Eternal Terminal daemon is not running. Please (re)start the et daemon on the server.",
        )
    } else {
        ServerError::Io(e)
    }
}

/// A terminal of the same user finds its server: among the places that it
/// looks at is the one where the server puts its socket.
pub proof fn law_terminal_finds_server(
    is_root: bool,
    xdg: Option<Seq<char>>,
    home: Option<Seq<char>>,
)
    ensures
        creation_path(None, is_root, xdg, home) matches Some(p) ==> probed(
            is_root,
            xdg,
            home,
        ).contains(p),
{
    if let Some(p) = creation_path(None, is_root, xdg, home) {
        let all = probed(is_root, xdg, home);
        assert(all[all.len() - 1] == p);
    }
}

/// Where a server's socket stands: where it was told; at one fixed place for the
/// superuser; in the user's directory for run-time files, if that is absolute;
/// or else below the user's home, if that is absolute; and nowhere otherwise.
pub proof fn law_place_of_the_socket(
    told: Seq<char>,
    dir: Seq<char>,
    relative: Option<Seq<char>>,
    home: Option<Seq<char>>,
    is_root: bool,
)
    requires
        dir.len() > 1,
        dir[0] == '/',
        dir.last() != '/',
        relative matches Some(r) ==> r.len() == 0 || r[0] != '/',
    ensures
        creation_path(Some(told), is_root, Some(dir), home) == Some(told),
        creation_path(None, true, Some(dir), home) == Some("/var/run/etserver.idpasskey.fifo"@),
        creation_path(None, false, Some(dir), home) == Some(
            dir + "/etserver/etserver.idpasskey.fifo"@,
        ),
        creation_path(None, false, relative, Some(dir)) == Some(
            dir + "/.local/share/etserver/etserver.idpasskey.fifo"@,
        ),
        creation_path(None, false, relative, relative) is None,
{
    reveal_strlit("/");
    reveal_strlit("etserver");
    reveal_strlit("etserver.idpasskey.fifo");
    reveal_strlit("/etserver/etserver.idpasskey.fifo");
    reveal_strlit(".local/share");
    reveal_strlit("/.local/share/etserver/etserver.idpasskey.fifo");
    let one = below(dir, "etserver"@);
    assert(one.last() == 'r');
    assert(socket_in(dir) =~= dir + "/etserver/etserver.idpasskey.fifo"@);
    let share = below(dir, ".local/share"@);
    assert(share.last() == 'e');
    assert(below(share, "etserver"@).last() == 'r');
    assert(socket_in(share) =~= dir + "/.local/share/etserver/etserver.idpasskey.fifo"@);
}

/// The directories that a server makes are those that its socket needs: the
/// socket stands in the last one, which stands in the one before it, if there
/// are any. Where it makes none, it was told its place or is the superuser's.
pub proof fn law_directories_hold_the_socket(
    told: Option<Seq<char>>,
    is_root: bool,
    xdg: Option<Seq<char>>,
    home: Option<Seq<char>>,
    res: Result<Option<DirectoryPlan>, ServerError>,
)
    requires
        plans_directories(told, is_root, xdg, home, res),
    ensures
        res is Err <==> creation_path(told, is_root, xdg, home) is None,
        (res matches Ok(None)) <==> told is Some || is_root,
        res matches Ok(Some(plan)) ==> {
            let parents = texts(plan.parents@);
            &&& creation_path(told, is_root, xdg, home) == Some(
                below(plan.own@, "etserver.idpasskey.fifo"@),
            )
            &&& parents.len() == 0 || parents.len() == 2
            &&& parents.len() == 2 ==> parents[1] == below(parents[0], "share"@) && plan.own@
                == below(parents[1], "etserver"@) && parents[0] == below(home->0, ".local"@)
            &&& parents.len() == 0 ==> plan.own@ == below(xdg->0, "etserver"@)
        },
{
    if let Ok(Some(plan)) = res {
        if texts(plan.parents@).len() == 2 {
            reveal_strlit("/");
            reveal_strlit(".local");
            reveal_strlit("share");
            reveal_strlit(".local/share");
            let h = home->0;
            let one = below(h, ".local"@);
            assert(one.last() == 'l');
            assert(below(one, "share"@) =~= below(h, ".local/share"@));
        }
    }
}

/// Only a directory that is there, is one, and belongs to the user will do.
pub proof fn law_directory_must_be_owned(
    dir: Seq<char>,
    state: DirectoryState,
    res: Result<(), ServerError>,
)
    requires
        judges_directory(dir, state, res),
    ensures
        res is Ok <==> state == (DirectoryState::Found { is_dir: true, owned: true }),
{
}

/// A terminal looks at the fixed place first, and at no more than two.
pub proof fn law_fixed_place_comes_first(
    is_root: bool,
    xdg: Option<Seq<char>>,
    home: Option<Seq<char>>,
)
    ensures
        probed(is_root, xdg, home).len() > 0,
        probed(is_root, xdg, home)[0] == "/var/run/etserver.idpasskey.fifo"@,
        is_root ==> probed(is_root, xdg, home).len() == 1,
        probed(is_root, xdg, home).len() <= 2,
{
}

/// A name below a directory follows one slash, whether or not the directory's
/// path ends in one; below no directory it stands alone.
pub proof fn law_names_below(dir: Seq<char>, name: Seq<char>)
    requires
        dir.len() > 0,
        dir.last() != '/',
    ensures
        below(dir, name) == dir + seq!['/'] + name,
        below(dir + seq!['/'], name) == below(dir, name),
        below(Seq::empty(), name) == name,
{
    reveal_strlit("/");
    assert("/"@ =~= seq!['/']);
    assert((dir + seq!['/']).last() == '/');
    assert(below(dir + seq!['/'], name) =~= below(dir, name));
    assert(Seq::<char>::empty() + name =~= name);
}

} // verus!
