//! Client ids and passkeys: random alphanumeric texts. An id that a client
//! made up starts with `XXX`, which tells the other side to make a new one.

use vstd::prelude::*;
use crate::text::chars_of;

verus! {

/// Length of an id.
pub const ID_LEN: usize = 16;

/// Length of a passkey, which is also the length of a key.
pub const PASSKEY_LEN: usize = 32;

/// How many blocks of random bytes are drawn for one text before giving up.
pub const MAX_DRAWS: u32 = 0xffff_ffff;

/// Why there is no random text.
#[derive(Clone, Copy, Debug, PartialEq, Eq, Structural)]
pub enum RandomError {
    /// The system has no randomness to give.
    Unavailable,
    /// The system gave no usable byte for [`MAX_DRAWS`] blocks.
    Exhausted,
}

/// `getrandom::fill` on a block of 64 bytes. What the bytes are is up to the
/// system; `None` says that it failed.
#[verifier::external_body]
fn random_block() -> (res: Option<[u8; 64]>) {
    let mut block = [0u8;64];
    match getrandom::fill(&mut block) {
        Ok(_) => Some(block),
        Err(_) => None,
    }
}

/// Symbol number `i` of the alphabet: digits, upper case, lower case.
pub open spec fn symbol(i: nat) -> u8 {
    if i < 10 {
        (48 + i) as u8
    } else if i < 36 {
        (65 + i - 10) as u8
    } else {
        (97 + i - 36) as u8
    }
}

/// Whether a byte is a symbol of the alphabet.
pub open spec fn alphanumeric(b: u8) -> bool {
    48 <= b <= 57 || 65 <= b <= 90 || 97 <= b <= 122
}

/// Whether all bytes are symbols of the alphabet.
pub open spec fn all_alphanumeric(s: Seq<u8>) -> bool {
    forall|i: int| 0 <= i < s.len() ==> alphanumeric(#[trigger] s[i])
}

/// The symbols that random bytes stand for. The alphabet has 62 symbols; the
/// eight byte values from 248 on are passed over, so that every symbol stands
/// for four of the others.
pub open spec fn symbols(block: Seq<u8>) -> Seq<u8>
    decreases block.len(),
{
    if block.len() == 0 {
        Seq::empty()
    } else if block.last() < 248 {
        symbols(block.drop_last()).push(symbol((block.last() % 62) as nat))
    } else {
        symbols(block.drop_last())
    }
}

/// The first `n` of `s`, or all of it.
pub open spec fn first(s: Seq<u8>, n: nat) -> Seq<u8> {
    if s.len() <= n {
        s
    } else {
        s.take(n as int)
    }
}

fn symbol_of(i: u8) -> (res: u8)
    requires
        i < 62,
    ensures
        res == symbol(i as nat),
        alphanumeric(res),
{
    if i < 10 {
        48 + i
    } else if i < 36 {
        65 + (i - 10)
    } else {
        97 + (i - 36)
    }
}

/// Random bytes give every symbol the same chance: the usable byte values fall
/// to the 62 symbols four each, and no two symbols are the same. The symbols are
/// the ASCII letters and digits, in the order of their codes.
pub proof fn law_sampling_is_even(i: nat, j: nat, k: nat)
    requires
        i < 62,
        j < 62,
        k < 4,
    ensures
        i + 62 * k < 248,
        symbols(seq![(i + 62 * k) as u8]) == seq![symbol(i)],
        i != j ==> symbol(i) != symbol(j),
        i < j ==> symbol(i) < symbol(j),
        alphanumeric(symbol(i)),
{
    let b = (i + 62 * k) as u8;
    let block = seq![b];
    assert(block.drop_last() =~= Seq::<u8>::empty());
    assert(symbols(block.drop_last()) =~= Seq::<u8>::empty());
    assert(b % 62 == i) by {
        assert(k == 0 || k == 1 || k == 2 || k == 3);
    }
    assert(Seq::<u8>::empty().push(symbol(i)) =~= seq![symbol(i)]);
}

/// Adds the symbols of a block of random bytes until there are `len`.
pub fn take_symbols(out: &mut Vec<u8>, block: &[u8], len: usize)
    requires
        old(out)@.len() <= len,
    ensures
        final(out)@ == first(old(out)@ + symbols(block@), len as nat),
        all_alphanumeric(old(out)@) ==> all_alphanumeric(final(out)@),
{
    let ghost start = out@;
    let mut i: usize = 0;
    assert(block@.take(0) =~= Seq::<u8>::empty());
    assert(first(start + symbols(block@.take(0)), len as nat) =~= start);
    while i < block.len()
        invariant
            i <= block@.len(),
            start.len() <= len,
            out@ == first(start + symbols(block@.take(i as int)), len as nat),
            all_alphanumeric(start) ==> all_alphanumeric(out@),
        decreases block@.len() - i,
    {
        let b: u8 = block[i];
        assert(block@.take(i + 1).drop_last() =~= block@.take(i as int));
        assert(block@.take(i + 1).last() == b);
        let ghost before = start + symbols(block@.take(i as int));
        if b < 248 {
            assert(start + symbols(block@.take(i + 1)) =~= before.push(symbol((b % 62) as nat)));
            if out.len() < len {
                out.push(symbol_of(b % 62));
            }
        }
        i += 1;
        assert(out@ =~= first(start + symbols(block@.take(i as int)), len as nat));
    }
    assert(block@.take(block@.len() as int) =~= block@);
}

/// How the drawing of symbols stands.
#[derive(Debug, PartialEq, Eq)]
pub enum Drawing {
    /// These are all.
    Done(Vec<u8>),
    /// These are some; draw on.
    More(Vec<u8>),
    /// There will be none.
    Failed(RandomError),
}

/// How the drawing of symbols stands, as a value of the model.
#[verifier::ext_equal]
pub enum DrawingView {
    Done(Seq<u8>),
    More(Seq<u8>),
    Failed(RandomError),
}

impl View for Drawing {
    type V = DrawingView;

    open spec fn view(&self) -> DrawingView {
        match self {
            Drawing::Done(v) => DrawingView::Done(v@),
            Drawing::More(v) => DrawingView::More(v@),
            Drawing::Failed(e) => DrawingView::Failed(*e),
        }
    }
}

/// How the drawing of `len` symbols stands after one more block, `left` blocks
/// being allowed after it: the symbols of the block join those there are, and
/// those beyond `len` are dropped.
pub open spec fn drawing(have: Seq<u8>, block: Option<[u8; 64]>, left: u32, len: nat) -> DrawingView {
    match block {
        None => DrawingView::Failed(RandomError::Unavailable),
        Some(b) => {
            let all = first(have + symbols(b@), len);
            if all.len() == len {
                DrawingView::Done(all)
            } else if left == 0 {
                DrawingView::Failed(RandomError::Exhausted)
            } else {
                DrawingView::More(all)
            }
        },
    }
}

/// What one more block makes of the symbols drawn so far.
pub fn draw_symbols(have: Vec<u8>, block: Option<[u8; 64]>, left: u32, len: usize) -> (res: Drawing)
    requires
        have@.len() <= len,
    ensures
        res@ == drawing(have@, block, left, len as nat),
        all_alphanumeric(have@) ==> match res@ {
            DrawingView::Done(v) => all_alphanumeric(v),
            DrawingView::More(v) => all_alphanumeric(v),
            DrawingView::Failed(_) => true,
        },
        res@ matches DrawingView::More(v) ==> v.len() < len && left > 0,
{
    let b = match block {
        None => {
            return Drawing::Failed(RandomError::Unavailable);
        },
        Some(b) => b,
    };
    let mut out = have;
    take_symbols(&mut out, &b, len);
    if out.len() == len {
        Drawing::Done(out)
    } else if left == 0 {
        Drawing::Failed(RandomError::Exhausted)
    } else {
        Drawing::More(out)
    }
}

/// What blocks drawn one after the other make of the symbols that there are,
/// for as long as they are needed: the first `len` symbols, or the failure
/// that comes before there are as many.
pub open spec fn drawn(have: Seq<u8>, blocks: Seq<Option<[u8; 64]>>, len: nat) -> Result<
    Seq<u8>,
    RandomError,
>
    decreases blocks.len(),
{
    if have.len() >= len {
        Ok(have.take(len as int))
    } else if blocks.len() == 0 {
        Err(RandomError::Exhausted)
    } else {
        match blocks[0] {
            None => Err(RandomError::Unavailable),
            Some(b) => drawn(have + symbols(b@), blocks.skip(1), len),
        }
    }
}

/// The drawing goes on block by block: what a block and those after it come to
/// is what the block comes to, and from there on what those after it come to.
pub proof fn law_drawing_adds_up(have: Seq<u8>, blocks: Seq<Option<[u8; 64]>>, len: nat)
    requires
        have.len() < len,
        0 < blocks.len() <= u32::MAX,
    ensures
        drawn(have, blocks, len) == match drawing(
            have,
            blocks[0],
            (blocks.len() - 1) as u32,
            len,
        ) {
            DrawingView::Done(v) => Ok(v),
            DrawingView::More(v) => drawn(v, blocks.skip(1), len),
            DrawingView::Failed(e) => Err(e),
        },
{
    reveal_with_fuel(drawn, 2);
    if let Some(b) = blocks[0] {
        let all = have + symbols(b@);
        assert(all.len() == len ==> all.take(len as int) =~= all);
    }
}

/// `len` random symbols; [`draw_symbols`] says what is made of each block of
/// random bytes.
pub fn random_alphanum(len: usize) -> (res: Result<Vec<u8>, RandomError>)
    ensures
        res matches Ok(v) ==> v@.len() == len && all_alphanumeric(v@),
        len == 0 ==> res is Ok,
{
    let mut out: Vec<u8> = Vec::new();
    if len == 0 {
        return Ok(out);
    }
    let mut left: u32 = MAX_DRAWS;
    while left > 0
        invariant
            out@.len() < len,
            all_alphanumeric(out@),
        decreases left,
    {
        left -= 1;
        match draw_symbols(out, random_block(), left, len) {
            Drawing::Done(v) => {
                return Ok(v);
            },
            Drawing::Failed(e) => {
                return Err(e);
            },
            Drawing::More(v) => {
                out = v;
            },
        }
    }
    Err(RandomError::Exhausted)
}

/// Four random bytes as a number. It fails only where the system has no
/// randomness to give; [`drawn_number`] says what is made of what it gives.
pub(crate) fn random_u32() -> (res: Result<u32, RandomError>)
    ensures
        res matches Err(e) ==> e == RandomError::Unavailable,
{
    drawn_number(random_block())
}

/// The number that a block of random bytes stands for, if there is one: its
/// first four bytes, least significant first.
pub fn drawn_number(block: Option<[u8; 64]>) -> (res: Result<u32, RandomError>)
    ensures
        match block {
            None => res == Err::<u32, RandomError>(RandomError::Unavailable),
            Some(b) => res matches Ok(n) && n == b@[0] + 256 * b@[1] + 65536 * b@[2] + 16777216
                * b@[3],
        },
{
    match block {
        None => Err(RandomError::Unavailable),
        Some(b) => Ok(number_of(b[0], b[1], b[2], b[3])),
    }
}

/// The number that four bytes stand for, least significant first.
pub fn number_of(a: u8, b: u8, c: u8, d: u8) -> (res: u32)
    ensures
        res == a + 256 * b + 65536 * c + 16777216 * d,
{
    a as u32 + 256 * (b as u32) + 65536 * (c as u32) + 16777216 * (d as u32)
}

/// ASCII bytes as text.
pub open spec fn ascii_text(b: Seq<u8>) -> Seq<char> {
    b.map_values(|x: u8| x as char)
}

pub fn text_of_ascii(b: &[u8]) -> (res: String)
    ensures
        res@ == ascii_text(b@),
{
    let mut s = String::new();
    let mut i: usize = 0;
    assert(s@ =~= ascii_text(b@.take(0)));
    while i < b.len()
        invariant
            i <= b@.len(),
            s@ == ascii_text(b@.take(i as int)),
        decreases b@.len() - i,
    {
        s.push(b[i] as char);
        i += 1;
        assert(s@ =~= ascii_text(b@.take(i as int)));
    }
    assert(b@.take(b@.len() as int) =~= b@);
    s
}

/// A text of `n` symbols of the alphabet.
pub open spec fn alphanumeric_text(s: Seq<char>, n: nat) -> bool {
    s.len() == n && forall|i: int| 0 <= i < n ==> alphanumeric((#[trigger] s[i]) as u8) && (
    s[i] as u32) < 128
}

/// Whether an id was made up by a client.
pub open spec fn client_chosen(id: Seq<char>) -> bool {
    id.len() >= 3 && id[0] == 'X' && id[1] == 'X' && id[2] == 'X'
}

/// The id and passkey that a client makes of random symbols: the id starts
/// with `XXX`.
pub fn client_credentials(id: Vec<u8>, passkey: Vec<u8>) -> (res: (String, String))
    requires
        id@.len() == ID_LEN,
    ensures
        res.0@ == seq!['X', 'X', 'X'] + ascii_text(id@.skip(3)),
        res.1@ == ascii_text(passkey@),
{
    let mut id = id;
    let ghost start = id@;
    id.set(0, 88);
    id.set(1, 88);
    id.set(2, 88);
    let text = text_of_ascii(id.as_slice());
    assert(text@ =~= seq!['X', 'X', 'X'] + ascii_text(start.skip(3)));
    (text, text_of_ascii(passkey.as_slice()))
}

/// A fresh id and passkey as a client sends them; [`drawn_credentials`] says
/// what is made of the symbols that were drawn.
pub fn generate_id_passkey() -> (res: Result<(String, String), RandomError>)
    ensures
        res matches Ok((id, passkey)) ==> {
            &&& alphanumeric_text(id@, ID_LEN as nat)
            &&& client_chosen(id@)
            &&& alphanumeric_text(passkey@, PASSKEY_LEN as nat)
        },
{
    let id = random_alphanum(ID_LEN);
    let passkey = random_alphanum(PASSKEY_LEN);
    let ghost a = id->Ok_0@;
    let ghost b = passkey->Ok_0@;
    let res = drawn_credentials(id, passkey);
    proof {
        if res is Ok {
            let x = res->Ok_0.0;
            let y = res->Ok_0.1;
            assert forall|i: int| 0 <= i < 16 implies alphanumeric((#[trigger] x@[i]) as u8)
                && (x@[i] as u32) < 128 by {
                if i >= 3 {
                    assert(x@[i] == a[i] as char);
                    assert(alphanumeric(a[i]));
                }
            }
            assert forall|i: int| 0 <= i < 32 implies alphanumeric((#[trigger] y@[i]) as u8)
                && (y@[i] as u32) < 128 by {
                assert(y@[i] == b[i] as char);
                assert(alphanumeric(b[i]));
            }
        }
    }
    res
}

/// The credentials that a client makes of the symbols that were drawn for its
/// id and its passkey. Where either could not be drawn, there are none, and
/// the id's failure goes first.
pub fn drawn_credentials(
    id: Result<Vec<u8>, RandomError>,
    passkey: Result<Vec<u8>, RandomError>,
) -> (res: Result<(String, String), RandomError>)
    requires
        id matches Ok(v) ==> v@.len() == ID_LEN,
    ensures
        match (id, passkey) {
            (Err(e), _) => res == Err::<(String, String), RandomError>(e),
            (Ok(_), Err(e)) => res == Err::<(String, String), RandomError>(e),
            (Ok(i), Ok(p)) => res matches Ok((x, y)) && x@ == seq!['X', 'X', 'X'] + ascii_text(
                i@.skip(3),
            ) && y@ == ascii_text(p@),
        },
{
    match id {
        Err(e) => Err(e),
        Ok(i) => match passkey {
            Err(e) => Err(e),
            Ok(p) => Ok(client_credentials(i, p)),
        },
    }
}

/// The credentials made of the symbols that were drawn for them, in place of
/// those that a client made up; `None` for an id that a server made. Where
/// either could not be drawn, there are none, and the id's failure goes first.
pub fn drawn_regen(
    id: &str,
    new_id: Result<Vec<u8>, RandomError>,
    passkey: Result<Vec<u8>, RandomError>,
) -> (res: Result<Option<(String, String)>, RandomError>)
    ensures
        if !client_chosen(id@) {
            res matches Ok(None)
        } else {
            match (new_id, passkey) {
                (Err(e), _) => res == Err::<Option<(String, String)>, RandomError>(e),
                (Ok(_), Err(e)) => res == Err::<Option<(String, String)>, RandomError>(e),
                (Ok(i), Ok(p)) => res matches Ok(Some((x, y))) && x@ == ascii_text(i@) && y@
                    == ascii_text(p@),
            }
        },
{
    if !is_client_chosen(id) {
        return Ok(None);
    }
    match new_id {
        Err(e) => Err(e),
        Ok(i) => match passkey {
            Err(e) => Err(e),
            Ok(p) => Ok(Some((text_of_ascii(i.as_slice()), text_of_ascii(p.as_slice())))),
        },
    }
}

fn is_client_chosen(id: &str) -> (res: bool)
    ensures
        res == client_chosen(id@),
{
    let chars = chars_of(id);
    chars.len() >= 3 && chars[0] == 'X' && chars[1] == 'X' && chars[2] == 'X'
}

/// New credentials in place of those that a client made up; `None` for an id
/// that a server made. [`drawn_regen`] says what is made of the symbols that
/// were drawn.
pub fn regen_if_client_chosen(id: &str) -> (res: Result<Option<(String, String)>, RandomError>)
    ensures
        !client_chosen(id@) ==> res matches Ok(None),
        client_chosen(id@) ==> (res matches Ok(x) ==> (x matches Some((new_id, passkey))
            && alphanumeric_text(new_id@, ID_LEN as nat) && alphanumeric_text(
            passkey@,
            PASSKEY_LEN as nat,
        ))),
{
    if !is_client_chosen(id) {
        return Ok(None);
    }
    let new_id = random_alphanum(ID_LEN);
    let passkey = random_alphanum(PASSKEY_LEN);
    let ghost a = new_id->Ok_0@;
    let ghost b = passkey->Ok_0@;
    let res = drawn_regen(id, new_id, passkey);
    proof {
        if res is Ok {
            let pair = res->Ok_0->Some_0;
            let x = pair.0;
            let y = pair.1;
            assert forall|i: int| 0 <= i < 16 implies alphanumeric((#[trigger] x@[i]) as u8)
                && (x@[i] as u32) < 128 by {
                assert(x@[i] == a[i] as char);
                assert(alphanumeric(a[i]));
            }
            assert forall|i: int| 0 <= i < 32 implies alphanumeric((#[trigger] y@[i]) as u8)
                && (y@[i] as u32) < 128 by {
                assert(y@[i] == b[i] as char);
                assert(alphanumeric(b[i]));
            }
        }
    }
    res
}

/// Blocks of random bytes stand for symbols one byte at a time: what two make
/// is what the one makes and then the other. A byte from 248 on makes none.
pub proof fn law_symbols_add_up(a: Seq<u8>, b: Seq<u8>, high: u8)
    requires
        high >= 248,
    ensures
        symbols(a + b) == symbols(a) + symbols(b),
        symbols(seq![high]).len() == 0,
    decreases b.len(),
{
    assert(seq![high].drop_last() =~= Seq::<u8>::empty());
    assert(symbols(seq![high].drop_last()).len() == 0);
    if b.len() == 0 {
        assert(a + b =~= a);
        assert(symbols(a) + symbols(b) =~= symbols(a));
    } else {
        law_symbols_add_up(a, b.drop_last(), high);
        assert((a + b).drop_last() =~= a + b.drop_last());
        assert((a + b).last() == b.last());
        assert(symbols(a + b) =~= symbols(a) + symbols(b));
    }
}

/// A drawing loses no symbol and makes none up: what there is after a block is
/// what there was with the symbols of the block, up to the number that is
/// needed. It is done as soon as there are enough, and fails only without
/// randomness or without another try.
pub proof fn law_drawing_keeps_symbols(have: Seq<u8>, block: [u8; 64], left: u32, len: nat)
    requires
        have.len() < len,
    ensures
        ({
            let all = have + symbols(block@);
            let d = drawing(have, Some(block), left, len);
            &&& all.len() >= len ==> d == DrawingView::Done(all.take(len as int))
            &&& all.len() < len && left > 0 ==> d == DrawingView::More(all)
            &&& all.len() < len && left == 0 ==> d == DrawingView::Failed(RandomError::Exhausted)
        }),
        drawing(have, None, left, len) == DrawingView::Failed(RandomError::Unavailable),
{
    let all = have + symbols(block@);
    if all.len() == len {
        assert(all.take(len as int) =~= all);
    }
}

} // verus!
