//! What a server knows of its terminals and clients, by session id:
//! - the passkeys of the terminals that registered; a client whose id is not
//!   among them is refused;
//! - the terminals themselves, with their local sockets until a session takes
//!   them over;
//! - the live connections; a client whose id has one is a returning client.
//!
//! The sockets and connections are whatever the owner uses: `S` and `C`.

use vstd::prelude::*;
use crate::text::{copy_text, same_text};

verus! {

// ---------------------------------------------------------------------------
// Tables
// ---------------------------------------------------------------------------

/// Whether no two entries have the same name.
pub open spec fn distinct<V>(e: Seq<(String, V)>) -> bool {
    forall|i: int, j: int|
        0 <= i < j < e.len() ==> (#[trigger] e[i]).0@ != (#[trigger] e[j]).0@
}

/// Whether entry `i` has the name `k`.
pub open spec fn is_named<V>(e: Seq<(String, V)>, k: Seq<char>, i: int) -> bool {
    0 <= i < e.len() && e[i].0@ == k
}

/// Entries as a map.
pub open spec fn as_map<V>(e: Seq<(String, V)>) -> Map<Seq<char>, V> {
    Map::new(
        |k: Seq<char>| exists|i: int| is_named(e, k, i),
        |k: Seq<char>| e[choose|i: int| is_named(e, k, i)].1,
    )
}

/// A map from names to values.
pub struct IdTable<V> {
    entries: Vec<(String, V)>,
}

impl<V> View for IdTable<V> {
    type V = Map<Seq<char>, V>;

    closed spec fn view(&self) -> Map<Seq<char>, V> {
        as_map(self.entries@)
    }
}

proof fn lemma_entry<V>(e: Seq<(String, V)>, i: int)
    requires
        distinct(e),
        0 <= i < e.len(),
    ensures
        as_map(e).contains_key(e[i].0@),
        as_map(e)[e[i].0@] == e[i].1,
{
    let k = e[i].0@;
    assert(is_named(e, k, i));
    let j = choose|j: int| is_named(e, k, j);
    assert(is_named(e, k, j));
    if j < i {
        assert(e[j].0@ != e[i].0@);
    } else if i < j {
        assert(e[i].0@ != e[j].0@);
    }
}

proof fn lemma_no_entry<V>(e: Seq<(String, V)>, k: Seq<char>)
    requires
        forall|i: int| 0 <= i < e.len() ==> (#[trigger] e[i]).0@ != k,
    ensures
        !as_map(e).contains_key(k),
{
    assert forall|i: int| !is_named(e, k, i) by {
        if 0 <= i < e.len() {
            assert(e[i].0@ != k);
        }
    }
}

/// Two lists with the same entries, whatever their order, are the same map.
proof fn lemma_same_map<V>(a: Seq<(String, V)>, m: Map<Seq<char>, V>)
    requires
        distinct(a),
        forall|i: int| 0 <= i < a.len() ==> m.contains_key((#[trigger] a[i]).0@) && m[a[i].0@] == a[i].1,
        forall|k: Seq<char>| #[trigger] m.contains_key(k) ==> exists|i: int| is_named(a, k, i),
    ensures
        as_map(a) == m,
{
    assert forall|k: Seq<char>| as_map(a).contains_key(k) implies m.contains_key(k) && as_map(a)[k]
        == m[k] by {
        let i = choose|i: int| is_named(a, k, i);
        assert(is_named(a, k, i));
        assert(m.contains_key(a[i].0@) && m[a[i].0@] == a[i].1);
        lemma_entry(a, i);
    }
    assert(as_map(a) =~= m);
}

impl<V> IdTable<V> {
    /// Whether the names are distinct, which every operation keeps.
    pub closed spec fn wf(self) -> bool {
        distinct(self.entries@)
    }

    /// The empty table.
    pub fn new() -> (res: IdTable<V>)
        ensures
            res.wf(),
            res@ == Map::<Seq<char>, V>::empty(),
    {
        let entries: Vec<(String, V)> = Vec::new();
        proof {
            lemma_same_map(entries@, Map::<Seq<char>, V>::empty());
        }
        IdTable { entries }
    }

    /// Where `id` stands.
    fn position(&self, id: &str) -> (res: Option<usize>)
        requires
            self.wf(),
        ensures
            match res {
                Some(i) => i < self.entries@.len() && self.entries@[i as int].0@ == id@
                    && self@.contains_key(id@) && self@[id@] == self.entries@[i as int].1,
                None => !self@.contains_key(id@) && forall|i: int|
                    0 <= i < self.entries@.len() ==> (#[trigger] self.entries@[i]).0@ != id@,
            },
    {
        let mut i: usize = 0;
        while i < self.entries.len()
            invariant
                i <= self.entries@.len(),
                distinct(self.entries@),
                forall|k: int| 0 <= k < i ==> (#[trigger] self.entries@[k]).0@ != id@,
            decreases self.entries.len() - i,
        {
            if same_text(self.entries[i].0.as_str(), id) {
                proof {
                    lemma_entry(self.entries@, i as int);
                }
                return Some(i);
            }
            i += 1;
        }
        proof {
            lemma_no_entry(self.entries@, id@);
        }
        None
    }

    /// Whether `id` is in the table.
    pub fn contains(&self, id: &str) -> (res: bool)
        requires
            self.wf(),
        ensures
            res == self@.contains_key(id@),
    {
        self.position(id).is_some()
    }

    /// The value of `id`.
    pub fn get(&self, id: &str) -> (res: Option<&V>)
        requires
            self.wf(),
        ensures
            match res {
                Some(v) => self@.contains_key(id@) && *v == self@[id@],
                None => !self@.contains_key(id@),
            },
    {
        match self.position(id) {
            Some(i) => Some(&self.entries[i].1),
            None => None,
        }
    }

    /// Takes `id` out of the table.
    pub fn remove(&mut self, id: &str) -> (res: Option<V>)
        requires
            old(self).wf(),
        ensures
            final(self).wf(),
            final(self)@ == old(self)@.remove(id@),
            match res {
                Some(v) => old(self)@.contains_key(id@) && v == old(self)@[id@],
                None => !old(self)@.contains_key(id@),
            },
    {
        match self.position(id) {
            None => {
                assert(self@ =~= old(self)@.remove(id@));
                None
            },
            Some(i) => {
                let ghost before = self.entries@;
                let (_, v) = self.entries.swap_remove(i);
                proof {
                    let after = self.entries@;
                    lemma_swap_removed(before, after, i as int);
                }
                Some(v)
            },
        }
    }

    /// Sets `id` to `v`, replacing what it was.
    pub fn insert(&mut self, id: &str, v: V)
        requires
            old(self).wf(),
        ensures
            final(self).wf(),
            final(self)@ == old(self)@.insert(id@, v),
    {
        let _ = self.remove(id);
        let ghost before = self.entries@;
        let ghost m = as_map(before);
        proof {
            assert forall|i: int| 0 <= i < before.len() implies (#[trigger] before[i]).0@ != id@ by {
                lemma_entry(before, i);
            }
        }
        let name = copy_text(id);
        proof {
            let after = before.push((name, v));
            assert(distinct(after));
            assert forall|k: Seq<char>| #[trigger] m.insert(id@, v).contains_key(k) implies exists|
                i: int,
            | is_named(after, k, i) by {
                if k == id@ {
                    assert(is_named(after, k, before.len() as int));
                } else {
                    let i = choose|i: int| is_named(before, k, i);
                    assert(is_named(before, k, i));
                    assert(is_named(after, k, i));
                }
            }
            assert forall|i: int| 0 <= i < after.len() implies m.insert(id@, v).contains_key(
                (#[trigger] after[i]).0@,
            ) && m.insert(id@, v)[after[i].0@] == after[i].1 by {
                if i < before.len() {
                    lemma_entry(before, i);
                    assert(before[i].0@ != id@);
                }
            }
            lemma_same_map(after, m.insert(id@, v));
        }
        self.entries.push((name, v));
        assert(self@ =~= old(self)@.insert(id@, v));
    }
}

/// Moving the last entry into the place of entry `i` removes its name.
proof fn lemma_swap_removed<V>(before: Seq<(String, V)>, after: Seq<(String, V)>, i: int)
    requires
        distinct(before),
        0 <= i < before.len(),
        after == before.update(i, before.last()).drop_last(),
    ensures
        distinct(after),
        as_map(after) == as_map(before).remove(before[i].0@),
{
    let n = before.len() - 1;
    let k0 = before[i].0@;
    let m = as_map(before).remove(k0);
    assert forall|a: int, b: int| 0 <= a < b < after.len() implies (#[trigger] after[a]).0@ != (
    #[trigger] after[b]).0@ by {
        let x = if a == i {
            n
        } else {
            a
        };
        let y = if b == i {
            n
        } else {
            b
        };
        assert(after[a] == before[x] && after[b] == before[y]);
        if x < y {
            assert(before[x].0@ != before[y].0@);
        } else {
            assert(before[y].0@ != before[x].0@);
        }
    }
    assert forall|a: int| 0 <= a < after.len() implies m.contains_key((#[trigger] after[a]).0@)
        && m[after[a].0@] == after[a].1 by {
        let x = if a == i {
            n
        } else {
            a
        };
        assert(after[a] == before[x]);
        lemma_entry(before, x);
        if x < i {
            assert(before[x].0@ != before[i].0@);
        } else {
            assert(before[i].0@ != before[x].0@);
        }
    }
    assert forall|k: Seq<char>| #[trigger] m.contains_key(k) implies exists|a: int|
        is_named(after, k, a) by {
        let x = choose|x: int| is_named(before, k, x);
        assert(is_named(before, k, x));
        let a = if x == n {
            i
        } else {
            x
        };
        assert(is_named(after, k, a));
    }
    lemma_same_map(after, m);
}

// ---------------------------------------------------------------------------
// The router
// ---------------------------------------------------------------------------

/// Who registered a terminal.
#[derive(Debug, Clone, PartialEq, Eq)]
pub struct TerminalInfo {
    pub passkey: String,
    pub uid: u32,
    pub gid: u32,
}

/// A registered terminal, with its socket until a session takes it.
pub struct TerminalSlot<S> {
    pub info: TerminalInfo,
    pub stream: Option<S>,
}

/// A live connection.
pub struct ClientEntry<C> {
    pub key: String,
    pub conn: C,
}

/// The tables of a server.
pub struct Router<S, C> {
    keys: IdTable<String>,
    terminals: IdTable<TerminalSlot<S>>,
    clients: IdTable<ClientEntry<C>>,
}

/// What the tables hold.
pub struct RouterView<S, C> {
    pub keys: Map<Seq<char>, String>,
    pub terminals: Map<Seq<char>, TerminalSlot<S>>,
    pub clients: Map<Seq<char>, ClientEntry<C>>,
}

impl<S, C> View for Router<S, C> {
    type V = RouterView<S, C>;

    closed spec fn view(&self) -> RouterView<S, C> {
        RouterView { keys: self.keys@, terminals: self.terminals@, clients: self.clients@ }
    }
}

impl<S, C> RouterView<S, C> {
    /// The tables once the terminal of `id` is forgotten.
    pub open spec fn without_terminal(self, id: Seq<char>) -> RouterView<S, C> {
        RouterView { terminals: self.terminals.remove(id), ..self }
    }

    /// The tables once the session of `id` is over.
    pub open spec fn without_client(self, id: Seq<char>) -> RouterView<S, C> {
        RouterView {
            keys: self.keys.remove(id),
            terminals: self.terminals.remove(id),
            clients: self.clients.remove(id),
        }
    }
}

/// Whether the tables go from `before` to `after` when a terminal registers, and
/// whether it is taken. A second one under the same id is refused.
pub open spec fn enters<S, C>(
    before: RouterView<S, C>,
    id: Seq<char>,
    passkey: Seq<char>,
    uid: u32,
    gid: u32,
    stream: S,
    after: RouterView<S, C>,
    res: bool,
) -> bool {
    let k = after.keys[id];
    let t = after.terminals[id];
    &&& res == !before.terminals.contains_key(id)
    &&& !res ==> after == before
    &&& res ==> {
        &&& after.keys == before.keys.insert(id, k)
        &&& k@ == passkey
        &&& after.terminals == before.terminals.insert(id, t)
        &&& t.info.passkey@ == passkey
        &&& t.info.uid == uid
        &&& t.info.gid == gid
        &&& t.stream == Some(stream)
        &&& after.clients == before.clients
    }
}

/// Whether the tables go from `before` to `after` when the socket of a terminal
/// is taken over, and what is handed out of them.
pub open spec fn hands_over<S, C>(
    before: RouterView<S, C>,
    id: Seq<char>,
    after: RouterView<S, C>,
    res: Option<(TerminalInfo, S)>,
) -> bool {
    let t = before.terminals[id];
    let left = after.terminals[id];
    &&& after.keys == before.keys
    &&& after.clients == before.clients
    &&& match res {
        Some((info, stream)) => {
            &&& before.terminals.contains_key(id)
            &&& t.stream == Some(stream)
            &&& info.passkey@ == t.info.passkey@
            &&& info.uid == t.info.uid
            &&& info.gid == t.info.gid
            &&& after.terminals == before.terminals.insert(id, left)
            &&& left == (TerminalSlot { info: t.info, stream: None::<S> })
        },
        None => after.terminals == before.terminals && (before.terminals.contains_key(id)
            ==> t.stream is None),
    }
}

/// Whether the tables go from `before` to `after` when a client gets a
/// connection.
pub open spec fn joins<S, C>(
    before: RouterView<S, C>,
    id: Seq<char>,
    key: Seq<char>,
    conn: C,
    after: RouterView<S, C>,
) -> bool {
    let c = after.clients[id];
    &&& after.keys == before.keys
    &&& after.terminals == before.terminals
    &&& after.clients == before.clients.insert(id, c)
    &&& c.key@ == key
    &&& c.conn == conn
}

/// Whether two passkeys are the same. Every byte is looked at, whatever the
/// others are.
pub fn verify_passkey(key: &str, target: &str) -> (res: bool)
    ensures
        res == (key@ == target@),
{
    let a = key.as_bytes();
    let b = target.as_bytes();
    let len: usize = if a.len() < b.len() {
        a.len()
    } else {
        b.len()
    };
    let mut mismatch = a.len() != b.len();
    let mut i: usize = 0;
    while i < len
        invariant
            i <= len,
            len <= a@.len(),
            len <= b@.len(),
            mismatch == (a@.len() != b@.len() || exists|k: int| 0 <= k < i && a@[k] != b@[k]),
        decreases len - i,
    {
        if a[i] != b[i] {
            mismatch = true;
        }
        i += 1;
    }
    proof {
        broadcast use vstd::utf8::group_utf8_lib;

        if !mismatch {
            assert(a@ =~= b@);
            assert(vstd::utf8::decode_utf8(a@) == key@);
            assert(vstd::utf8::decode_utf8(b@) == target@);
        }
    }
    !mismatch
}

impl<S, C> Router<S, C> {
    /// Whether the tables are well formed, which every operation keeps.
    pub closed spec fn wf(self) -> bool {
        self.keys.wf() && self.terminals.wf() && self.clients.wf()
    }

    /// Empty tables.
    pub fn new() -> (res: Router<S, C>)
        ensures
            res.wf(),
            res@.keys == Map::<Seq<char>, String>::empty(),
            res@.terminals == Map::<Seq<char>, TerminalSlot<S>>::empty(),
            res@.clients == Map::<Seq<char>, ClientEntry<C>>::empty(),
    {
        Router { keys: IdTable::new(), terminals: IdTable::new(), clients: IdTable::new() }
    }

    /// A terminal registers. A second one under the same id is refused, and
    /// changes nothing.
    pub fn register_terminal(
        &mut self,
        id: &str,
        passkey: &str,
        uid: u32,
        gid: u32,
        stream: S,
    ) -> (res: bool)
        requires
            old(self).wf(),
        ensures
            final(self).wf(),
            enters(old(self)@, id@, passkey@, uid, gid, stream, final(self)@, res),
    {
        if self.terminals.contains(id) {
            return false;
        }
        self.keys.insert(id, copy_text(passkey));
        self.terminals.insert(
            id,
            TerminalSlot {
                info: TerminalInfo { passkey: copy_text(passkey), uid, gid },
                stream: Some(stream),
            },
        );
        true
    }

    /// Takes the socket of a terminal over, with who registered it. `None`
    /// while there is no such terminal, and when its socket was taken before.
    pub fn take_terminal(&mut self, id: &str) -> (res: Option<(TerminalInfo, S)>)
        requires
            old(self).wf(),
        ensures
            final(self).wf(),
            hands_over(old(self)@, id@, final(self)@, res),
    {
        match self.terminals.remove(id) {
            None => {
                assert(self.terminals@ =~= old(self).terminals@);
                None
            },
            Some(slot) => {
                let TerminalSlot { info, stream } = slot;
                match stream {
                    None => {
                        self.terminals.insert(id, TerminalSlot { info, stream: None });
                        assert(self.terminals@ =~= old(self).terminals@);
                        None
                    },
                    Some(s) => {
                        let copy = TerminalInfo {
                            passkey: copy_text(info.passkey.as_str()),
                            uid: info.uid,
                            gid: info.gid,
                        };
                        self.terminals.insert(id, TerminalSlot { info, stream: None });
                        assert(self.terminals@ =~= old(self).terminals@.insert(
                            id@,
                            self.terminals@[id@],
                        ));
                        Some((copy, s))
                    },
                }
            },
        }
    }

    /// Forgets a terminal.
    pub fn drop_terminal(&mut self, id: &str)
        requires
            old(self).wf(),
        ensures
            final(self).wf(),
            final(self)@ == old(self)@.without_terminal(id@),
    {
        let _ = self.terminals.remove(id);
    }

    /// Whether there is a live connection.
    pub fn client_exists(&self, id: &str) -> (res: bool)
        requires
            self.wf(),
        ensures
            res == self@.clients.contains_key(id@),
    {
        self.clients.contains(id)
    }

    /// The live connection.
    pub fn get_client(&self, id: &str) -> (res: Option<&ClientEntry<C>>)
        requires
            self.wf(),
        ensures
            match res {
                Some(c) => self@.clients.contains_key(id@) && *c == self@.clients[id@],
                None => !self@.clients.contains_key(id@),
            },
    {
        self.clients.get(id)
    }

    /// Whether a passkey is known.
    pub fn key_exists(&self, id: &str) -> (res: bool)
        requires
            self.wf(),
        ensures
            res == self@.keys.contains_key(id@),
    {
        self.keys.contains(id)
    }

    /// The passkey.
    pub fn get_key(&self, id: &str) -> (res: Option<String>)
        requires
            self.wf(),
        ensures
            match res {
                Some(k) => self@.keys.contains_key(id@) && k@ == self@.keys[id@]@,
                None => !self@.keys.contains_key(id@),
            },
    {
        match self.keys.get(id) {
            Some(k) => Some(copy_text(k.as_str())),
            None => None,
        }
    }

    /// A client got a connection.
    pub fn add_client(&mut self, id: &str, key: &str, conn: C)
        requires
            old(self).wf(),
        ensures
            final(self).wf(),
            joins(old(self)@, id@, key@, conn, final(self)@),
    {
        self.clients.insert(id, ClientEntry { key: copy_text(key), conn });
    }

    /// A session is over: its key, connection and terminal are forgotten.
    pub fn remove_client(&mut self, id: &str)
        requires
            old(self).wf(),
        ensures
            final(self).wf(),
            final(self)@ == old(self)@.without_client(id@),
    {
        let _ = self.keys.remove(id);
        let _ = self.clients.remove(id);
        let _ = self.terminals.remove(id);
    }
}

// ---------------------------------------------------------------------------
// Laws
// ---------------------------------------------------------------------------

/// The first terminal under an id has it: its passkey counts, and its socket is
/// handed over once, with who registered it. A second one changes nothing.
pub proof fn law_first_terminal_has_its_id<S, C>(
    r: RouterView<S, C>,
    id: Seq<char>,
    passkey: Seq<char>,
    uid: u32,
    gid: u32,
    stream: S,
    one: RouterView<S, C>,
    taken: bool,
    other_passkey: Seq<char>,
    other_stream: S,
    two: RouterView<S, C>,
    taken_too: bool,
    three: RouterView<S, C>,
    handed: Option<(TerminalInfo, S)>,
    four: RouterView<S, C>,
    handed_again: Option<(TerminalInfo, S)>,
)
    requires
        !r.terminals.contains_key(id),
        enters(r, id, passkey, uid, gid, stream, one, taken),
        enters(one, id, other_passkey, uid, gid, other_stream, two, taken_too),
        hands_over(two, id, three, handed),
        hands_over(three, id, four, handed_again),
    ensures
        taken,
        !taken_too,
        two.keys.contains_key(id) && two.keys[id]@ == passkey,
        handed matches Some((info, s)) && s == stream && info.passkey@ == passkey && info.uid == uid
            && info.gid == gid,
        handed_again is None,
        four.keys.contains_key(id) && four.keys[id]@ == passkey,
        four.terminals.contains_key(id),
        four.clients == r.clients,
{
}

/// Nobody but the one it is about notices an operation on the tables.
pub proof fn law_others_are_left_alone<S, C>(
    r: RouterView<S, C>,
    id: Seq<char>,
    other: Seq<char>,
    passkey: Seq<char>,
    uid: u32,
    gid: u32,
    stream: S,
    conn: C,
    entered: RouterView<S, C>,
    taken: bool,
    handing: RouterView<S, C>,
    handed: Option<(TerminalInfo, S)>,
    joined: RouterView<S, C>,
)
    requires
        id != other,
        enters(r, id, passkey, uid, gid, stream, entered, taken),
        hands_over(r, id, handing, handed),
        joins(r, id, passkey, conn, joined),
    ensures
        same_for(r, entered, other),
        same_for(r, handing, other),
        same_for(r, joined, other),
        same_for(r, r.without_terminal(id), other),
        same_for(r, r.without_client(id), other),
{
}

/// Whether two states of the tables say the same of `id`.
pub open spec fn same_for<S, C>(a: RouterView<S, C>, b: RouterView<S, C>, id: Seq<char>) -> bool {
    &&& a.keys.contains_key(id) == b.keys.contains_key(id)
    &&& a.keys.contains_key(id) ==> a.keys[id] == b.keys[id]
    &&& a.terminals.contains_key(id) == b.terminals.contains_key(id)
    &&& a.terminals.contains_key(id) ==> a.terminals[id] == b.terminals[id]
    &&& a.clients.contains_key(id) == b.clients.contains_key(id)
    &&& a.clients.contains_key(id) ==> a.clients[id] == b.clients[id]
}

/// A terminal that is forgotten makes room for another one, and leaves its key
/// and its client. A session that is over leaves nothing behind, and makes room
/// too.
pub proof fn law_room_is_made<S, C>(
    r: RouterView<S, C>,
    id: Seq<char>,
    passkey: Seq<char>,
    uid: u32,
    gid: u32,
    stream: S,
    after: RouterView<S, C>,
    taken: bool,
    later: RouterView<S, C>,
    taken_later: bool,
)
    requires
        enters(r.without_terminal(id), id, passkey, uid, gid, stream, after, taken),
        enters(r.without_client(id), id, passkey, uid, gid, stream, later, taken_later),
    ensures
        taken,
        taken_later,
        r.without_terminal(id).keys == r.keys,
        r.without_terminal(id).clients == r.clients,
        !r.without_client(id).keys.contains_key(id),
        !r.without_client(id).terminals.contains_key(id),
        !r.without_client(id).clients.contains_key(id),
{
}

} // verus!
