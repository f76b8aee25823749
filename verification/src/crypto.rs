//! Per-direction symmetric encryption.
//!
//! Each direction of a connection has a handler at either end. The 24-byte
//! nonce starts as all zeros but for the last byte, which names the
//! direction, and counts up by one, little-endian, before every encryption
//! and every decryption. A handler lives as long as its connection does and
//! across its sockets: a fresh one would fall out of step with the peer.

use vstd::prelude::*;
use crypto_secretbox::aead::generic_array::GenericArray;
use crypto_secretbox::aead::{Aead, KeyInit, Payload};
use crypto_secretbox::XSalsa20Poly1305;
use zeroize::Zeroize;
use crate::text::{decimal, push_decimal};

verus! {

pub const KEY_BYTES: usize = 32;

pub const NONCE_BYTES: usize = 24;

pub const MAC_BYTES: usize = 16;

/// Why a message could not be decrypted.
#[derive(Clone, Copy, Debug, PartialEq, Eq, Structural)]
pub enum CryptoError {
    InvalidKeyLength(usize),
    CiphertextTooShort(usize),
    DecryptFailed,
}

impl CryptoError {
    /// The error in words.
    pub fn message(&self) -> (res: String)
        ensures
            res@ == match self {
                CryptoError::InvalidKeyLength(n) => "invalid key length: expected 32 bytes, got "@
                    + decimal(*n as nat),
                CryptoError::CiphertextTooShort(n) => "ciphertext too short to contain the MAC: "@
                    + decimal(*n as nat) + " bytes"@,
                CryptoError::DecryptFailed =>
                    "decryption failed (key mismatch or corrupted packet)"@,
            },
    {
        match self {
            CryptoError::InvalidKeyLength(n) => {
                let mut s = "invalid key length: expected 32 bytes, got ".to_owned();
                push_decimal(&mut s, *n as u64);
                s
            },
            CryptoError::CiphertextTooShort(n) => {
                let mut s = "ciphertext too short to contain the MAC: ".to_owned();
                push_decimal(&mut s, *n as u64);
                s.append(" bytes");
                s
            },
            CryptoError::DecryptFailed => {
                "decryption failed (key mismatch or corrupted packet)".to_owned()
            },
        }
    }
}

/// The ciphertext that XSalsa20-Poly1305 makes of a message.
pub uninterp spec fn secretbox_seal(key: Seq<u8>, nonce: Seq<u8>, plaintext: Seq<u8>) -> Seq<u8>;

/// The message that XSalsa20-Poly1305 finds in a ciphertext, when its tag is
/// right.
pub uninterp spec fn secretbox_open(key: Seq<u8>, nonce: Seq<u8>, ciphertext: Seq<u8>) -> Option<
    Seq<u8>,
>;

/// `Aead::encrypt` of `crypto_secretbox::XSalsa20Poly1305`, with no
/// associated data. The result is a function of key, nonce and message, is
/// longer than the message by the 16 bytes of the tag, and opens to the
/// message under the same key and nonce. With no associated data the call
/// cannot fail.
#[verifier::external_body]
fn seal(key: &[u8; 32], nonce: &[u8; 24], plaintext: &[u8]) -> (res: Vec<u8>)
    requires
        plaintext@.len() + 16 <= isize::MAX,
    ensures
        res@ == secretbox_seal(key@, nonce@, plaintext@),
        res@.len() == plaintext@.len() + 16,
        secretbox_open(key@, nonce@, res@) == Some(plaintext@),
{
    XSalsa20Poly1305::new(GenericArray::from_slice(key))
        .encrypt(GenericArray::from_slice(nonce), Payload { msg: plaintext, aad: &[] })
        .expect("encryption without associated data cannot fail")
}

/// `Aead::decrypt` of `crypto_secretbox::XSalsa20Poly1305`, with no
/// associated data. The result is a function of key, nonce and ciphertext;
/// a message that comes out is shorter than the ciphertext by the 16 bytes
/// of the tag.
#[verifier::external_body]
fn open(key: &[u8; 32], nonce: &[u8; 24], ciphertext: &[u8]) -> (res: Option<Vec<u8>>)
    ensures
        match res {
            Some(p) => secretbox_open(key@, nonce@, ciphertext@) == Some(p@) && p@.len() + 16
                == ciphertext@.len(),
            None => secretbox_open(key@, nonce@, ciphertext@) is None,
        },
{
    XSalsa20Poly1305::new(GenericArray::from_slice(key))
        .decrypt(GenericArray::from_slice(nonce), Payload { msg: ciphertext, aad: &[] })
        .ok()
}

/// `Zeroize::zeroize` on a byte array: every byte becomes zero. It does not
/// unwind.
#[verifier::external_body]
pub(crate) fn wipe_key(key: &mut [u8; 32])
    ensures
        forall|i: int| 0 <= i < 32 ==> final(key)@[i] == 0,
    opens_invariants none
    no_unwind
{
    key.zeroize();
}

/// `Zeroize::zeroize` on a string: its bytes are overwritten, and it is left
/// empty. It does not unwind.
#[verifier::external_body]
pub(crate) fn wipe_text(s: &mut String)
    ensures
        final(s)@ == Seq::<char>::empty(),
    opens_invariants none
    no_unwind
{
    s.zeroize();
}

// ---------------------------------------------------------------------------
// Nonces
// ---------------------------------------------------------------------------

/// The nonce after `n`: one more, little-endian, and zero after the largest.
pub open spec fn incremented(n: Seq<u8>) -> Seq<u8>
    decreases n.len(),
{
    if n.len() == 0 {
        n
    } else if n[0] < 255 {
        n.update(0, (n[0] + 1) as u8)
    } else {
        seq![0u8] + incremented(n.skip(1))
    }
}

/// The number that a nonce stands for.
pub open spec fn counter(n: Seq<u8>) -> nat
    decreases n.len(),
{
    if n.len() == 0 {
        0
    } else {
        n[0] as nat + 256 * counter(n.skip(1))
    }
}

/// 256 to the power `k`.
pub open spec fn pow256(k: nat) -> nat
    decreases k,
{
    if k == 0 {
        1
    } else {
        256 * pow256((k - 1) as nat)
    }
}

/// The nonce that a direction starts with.
pub open spec fn first_nonce(msb: u8) -> Seq<u8> {
    Seq::new(24, |i: int| 0u8).update(23, msb)
}

/// The nonce of operation number `k` of a direction, the first being 1.
pub open spec fn nonce_at(msb: u8, k: nat) -> Seq<u8>
    decreases k,
{
    if k == 0 {
        first_nonce(msb)
    } else {
        incremented(nonce_at(msb, (k - 1) as nat))
    }
}

pub proof fn lemma_incremented(n: Seq<u8>)
    ensures
        incremented(n).len() == n.len(),
        counter(n) < pow256(n.len()),
        counter(incremented(n)) == if counter(n) + 1 < pow256(n.len()) {
            counter(n) + 1
        } else {
            0
        },
    decreases n.len(),
{
    if n.len() > 0 {
        let t = n.skip(1);
        lemma_incremented(t);
        if n[0] < 255 {
            assert(incremented(n).skip(1) =~= t);
        } else {
            assert(incremented(n).skip(1) =~= incremented(t));
        }
    }
}

proof fn lemma_counter_of_zeros(n: Seq<u8>, last: u8)
    requires
        n.len() > 0,
        forall|i: int| 0 <= i < n.len() - 1 ==> n[i] == 0,
        n.last() == last,
    ensures
        counter(n) == last * pow256((n.len() - 1) as nat),
    decreases n.len(),
{
    let t = n.skip(1);
    if n.len() == 1 {
        assert(t =~= Seq::<u8>::empty());
        assert(counter(t) == 0);
        assert(pow256(0) == 1);
        assert(n[0] == last);
    } else {
        assert forall|i: int| 0 <= i < t.len() - 1 implies t[i] == 0 by {
            assert(t[i] == n[i + 1]);
        }
        lemma_counter_of_zeros(t, last);
        let p = pow256((n.len() - 2) as nat);
        assert(256 * (last * p) == last * (256 * p)) by (nonlinear_arith);
        assert(pow256((n.len() - 1) as nat) == 256 * p);
        assert(n[0] == 0);
        assert(t.last() == last);
    }
}

proof fn lemma_nonce_len(msb: u8, k: nat)
    ensures
        nonce_at(msb, k).len() == 24,
    decreases k,
{
    if k > 0 {
        lemma_nonce_len(msb, (k - 1) as nat);
        lemma_incremented(nonce_at(msb, (k - 1) as nat));
    }
}

/// Nonce number `k` of a direction stands for the direction's own number at
/// the top and `k` added to it, and after the largest number comes zero.
pub proof fn law_nonce_counts(msb: u8, k: nat)
    ensures
        nonce_at(msb, k).len() == 24,
        counter(nonce_at(msb, k)) == (msb * pow256(23) + k) % pow256(24) as int,
    decreases k,
{
    lemma_nonce_len(msb, k);
    let p = pow256(23) as int;
    let q = pow256(24) as int;
    assert(q == 256 * p);
    lemma_pow256_positive(23);
    assert(0 <= msb * p <= 255 * p) by (nonlinear_arith)
        requires
            0 <= msb <= 255,
            p > 0,
    ;
    if k == 0 {
        lemma_counter_of_zeros(first_nonce(msb), msb);
        vstd::arithmetic::div_mod::lemma_small_mod((msb * p) as nat, q as nat);
    } else {
        law_nonce_counts(msb, (k - 1) as nat);
        let before = nonce_at(msb, (k - 1) as nat);
        lemma_incremented(before);
        let n = msb * p + k - 1;
        assert((n + 1) % q == if n % q + 1 < q {
            n % q + 1
        } else {
            0
        }) by {
            vstd::arithmetic::div_mod::lemma_add_mod_noop(n, 1, q);
            vstd::arithmetic::div_mod::lemma_mod_bound(n, q);
            vstd::arithmetic::div_mod::lemma_small_mod(1, q as nat);
            if n % q + 1 < q {
                vstd::arithmetic::div_mod::lemma_small_mod((n % q + 1) as nat, q as nat);
            } else {
                vstd::arithmetic::div_mod::lemma_mod_self_0(q);
            }
        }
    }
}

proof fn lemma_pow256_positive(k: nat)
    ensures
        pow256(k) > 0,
    decreases k,
{
    if k > 0 {
        lemma_pow256_positive((k - 1) as nat);
    }
}

/// Below the top byte, a count does not touch the direction's number.
proof fn lemma_nonce_below_top(msb: u8, k: nat)
    requires
        k < pow256(23),
    ensures
        counter(nonce_at(msb, k)) == msb * pow256(23) + k,
{
    law_nonce_counts(msb, k);
    let p = pow256(23) as int;
    assert(pow256(24) == 256 * p);
    assert(0 <= msb * p <= 255 * p) by (nonlinear_arith)
        requires
            0 <= msb <= 255,
            p > 0,
    ;
    vstd::arithmetic::div_mod::lemma_small_mod((msb * p + k) as nat, pow256(24));
}

/// The bytes of a nonce: the count in front, least significant first, and the
/// direction in the last of the 24.
pub proof fn law_nonce_bytes(msb: u8, k: nat)
    requires
        k < 65536,
    ensures
        nonce_at(msb, k).len() == 24,
        nonce_at(msb, k)[0] == k % 256,
        nonce_at(msb, k)[1] == k / 256,
        forall|i: int| 2 <= i < 23 ==> #[trigger] nonce_at(msb, k)[i] == 0,
        nonce_at(msb, k)[23] == msb,
    decreases k,
{
    lemma_nonce_len(msb, k);
    if k > 0 {
        let before = nonce_at(msb, (k - 1) as nat);
        law_nonce_bytes(msb, (k - 1) as nat);
        reveal_with_fuel(incremented, 3);
        if before[0] == 255 {
            assert(before.skip(1)[0] == before[1]);
            assert((k - 1) % 256 == 255);
            assert(before[1] < 255);
            let after = nonce_at(msb, k);
            assert(after == seq![0u8] + before.skip(1).update(0, (before[1] + 1) as u8));
        }
    }
}

/// No nonce is used twice: neither within a direction, nor in two directions,
/// for as long as no count reaches the top byte.
pub proof fn law_nonces_distinct(msb1: u8, k1: nat, msb2: u8, k2: nat)
    requires
        k1 < pow256(23),
        k2 < pow256(23),
        msb1 != msb2 || k1 != k2,
    ensures
        nonce_at(msb1, k1) != nonce_at(msb2, k2),
{
    lemma_nonce_below_top(msb1, k1);
    lemma_nonce_below_top(msb2, k2);
    let p = pow256(23) as int;
    if msb1 < msb2 {
        assert(msb1 * p + p <= msb2 * p) by (nonlinear_arith)
            requires
                msb1 + 1 <= msb2,
                p >= 0,
        ;
    } else if msb2 < msb1 {
        assert(msb2 * p + p <= msb1 * p) by (nonlinear_arith)
            requires
                msb2 + 1 <= msb1,
                p >= 0,
        ;
    }
}

// ---------------------------------------------------------------------------
// Handlers
// ---------------------------------------------------------------------------

/// One end of one direction: its key and its nonce.
pub struct CryptoHandler {
    key: [u8; 32],
    nonce: [u8; 24],
}

impl CryptoHandler {
    /// The key.
    pub closed spec fn secret(self) -> Seq<u8> {
        self.key@
    }

    /// The nonce of the last operation.
    pub closed spec fn position(self) -> Seq<u8> {
        self.nonce@
    }

    /// `c` is `plaintext` encrypted by a handler that goes from `before` to
    /// `after`.
    pub open spec fn encrypts(before: Self, after: Self, plaintext: Seq<u8>, c: Seq<u8>) -> bool {
        &&& after.secret() == before.secret()
        &&& after.position() == incremented(before.position())
        &&& c == secretbox_seal(after.secret(), after.position(), plaintext)
        &&& c.len() == plaintext.len() + MAC_BYTES
        &&& secretbox_open(after.secret(), after.position(), c) == Some(plaintext)
    }

    /// `res` is what a handler that goes from `before` to `after` makes of the
    /// ciphertext `c`: a ciphertext shorter than a tag leaves the nonce alone,
    /// any other takes one nonce and comes out as what it holds.
    pub open spec fn decrypts(
        before: Self,
        after: Self,
        c: Seq<u8>,
        res: Result<Seq<u8>, CryptoError>,
    ) -> bool {
        &&& after.secret() == before.secret()
        &&& if c.len() < MAC_BYTES {
            after.position() == before.position() && res == Err::<Seq<u8>, CryptoError>(
                CryptoError::CiphertextTooShort(c.len() as usize),
            )
        } else {
            &&& after.position() == incremented(before.position())
            &&& res == match secretbox_open(after.secret(), after.position(), c) {
                Some(p) => Ok(p),
                None => Err(CryptoError::DecryptFailed),
            }
            &&& res matches Ok(p) ==> p.len() + MAC_BYTES == c.len()
        }
    }

    /// A handler for the direction `nonce_msb`.
    pub fn new(key: &[u8; 32], nonce_msb: u8) -> (res: CryptoHandler)
        ensures
            res.secret() == key@,
            res.position() == nonce_at(nonce_msb, 0),
    {
        let mut nonce = [0u8;24];
        nonce[23] = nonce_msb;
        assert(nonce@ =~= first_nonce(nonce_msb));
        CryptoHandler { key: *key, nonce }
    }

    /// The nonce of the last operation.
    pub fn nonce(&self) -> (res: &[u8; 24])
        ensures
            res@ == self.position(),
    {
        &self.nonce
    }

    /// Overwrites the key with zeros.
    pub fn wipe(&mut self)
        ensures
            final(self).secret() == Seq::new(32, |i: int| 0u8),
            final(self).position() == old(self).position(),
        opens_invariants none
        no_unwind
    {
        wipe_key(&mut self.key);
        assert(self.key@ =~= Seq::new(32, |i: int| 0u8));
    }

    /// Moves to the next nonce.
    pub fn increment_nonce(&mut self)
        ensures
            final(self).position() == incremented(old(self).position()),
            final(self).secret() == old(self).secret(),
    {
        let ghost start = self.nonce@;
        let mut i: usize = 0;
        assert(start.skip(0) =~= start);
        assert(Seq::new(0, |k: int| 0u8) + incremented(start) =~= incremented(start));
        while i < 24
            invariant
                i <= 24,
                start.len() == 24,
                start == old(self).nonce@,
                self.nonce@.len() == 24,
                self.secret() == old(self).secret(),
                self.nonce@ == Seq::new(i as nat, |k: int| 0u8) + start.skip(i as int),
                incremented(start) == Seq::new(i as nat, |k: int| 0u8) + incremented(
                    start.skip(i as int),
                ),
            decreases 24 - i,
        {
            let ghost rest = start.skip(i as int);
            let b: u8 = self.nonce[i];
            assert(b == rest[0]);
            if b < 255 {
                self.nonce[i] = b + 1;
                assert(self.nonce@ =~= incremented(start));
                return;
            }
            self.nonce[i] = 0;
            assert(rest.skip(1) =~= start.skip(i + 1));
            assert(Seq::new(i as nat, |k: int| 0u8) + (seq![0u8] + incremented(start.skip(i + 1)))
                =~= Seq::new((i + 1) as nat, |k: int| 0u8) + incremented(start.skip(i + 1)));
            i += 1;
            assert(self.nonce@ =~= Seq::new(i as nat, |k: int| 0u8) + start.skip(i as int));
        }
        assert(start.skip(24) =~= Seq::<u8>::empty());
        assert(self.nonce@ =~= incremented(start));
    }

    /// Encrypts a message under the next nonce.
    pub fn encrypt(&mut self, plaintext: &[u8]) -> (res: Vec<u8>)
        requires
            plaintext@.len() + MAC_BYTES <= isize::MAX,
        ensures
            CryptoHandler::encrypts(*old(self), *final(self), plaintext@, res@),
    {
        self.increment_nonce();
        seal(&self.key, &self.nonce, plaintext)
    }

    /// Decrypts a message under the next nonce. A ciphertext too short to hold
    /// a tag is refused before the nonce moves.
    pub fn decrypt(&mut self, ciphertext: &[u8]) -> (res: Result<Vec<u8>, CryptoError>)
        ensures
            CryptoHandler::decrypts(
                *old(self),
                *final(self),
                ciphertext@,
                match res {
                    Ok(p) => Ok(p@),
                    Err(e) => Err(e),
                },
            ),
    {
        if ciphertext.len() < MAC_BYTES {
            return Err(CryptoError::CiphertextTooShort(ciphertext.len()));
        }
        self.increment_nonce();
        match open(&self.key, &self.nonce, ciphertext) {
            Some(p) => Ok(p),
            None => Err(CryptoError::DecryptFailed),
        }
    }
}

/// A handler does not leave its key behind.
impl Drop for CryptoHandler {
    fn drop(&mut self)
        opens_invariants none
        no_unwind
    {
        self.wipe();
    }
}

/// Whether `after` are the handlers that come of `start` when it encrypts the
/// messages one after the other into the ciphertexts.
pub open spec fn encrypts_all(
    start: CryptoHandler,
    after: Seq<CryptoHandler>,
    messages: Seq<Seq<u8>>,
    ciphertexts: Seq<Seq<u8>>,
) -> bool {
    &&& after.len() == messages.len() == ciphertexts.len()
    &&& forall|i: int|
        0 <= i < messages.len() ==> CryptoHandler::encrypts(
            if i == 0 {
                start
            } else {
                after[i - 1]
            },
            #[trigger] after[i],
            messages[i],
            ciphertexts[i],
        )
}

/// Whether `after` are the handlers that come of `start` when it decrypts the
/// ciphertexts one after the other, with the results.
pub open spec fn decrypts_all(
    start: CryptoHandler,
    after: Seq<CryptoHandler>,
    ciphertexts: Seq<Seq<u8>>,
    results: Seq<Result<Seq<u8>, CryptoError>>,
) -> bool {
    &&& after.len() == ciphertexts.len() == results.len()
    &&& forall|i: int|
        0 <= i < ciphertexts.len() ==> CryptoHandler::decrypts(
            if i == 0 {
                start
            } else {
                after[i - 1]
            },
            #[trigger] after[i],
            ciphertexts[i],
            results[i],
        )
}

/// The nonce moves before it is used: operation number `i + 1` of a fresh
/// handler encrypts under nonce number `i + 1` of its direction, the first
/// under number 1.
pub proof fn law_nth_encryption(
    key: Seq<u8>,
    msb: u8,
    start: CryptoHandler,
    after: Seq<CryptoHandler>,
    messages: Seq<Seq<u8>>,
    ciphertexts: Seq<Seq<u8>>,
    i: int,
)
    requires
        start.secret() == key,
        start.position() == nonce_at(msb, 0),
        encrypts_all(start, after, messages, ciphertexts),
        0 <= i < messages.len(),
    ensures
        after[i].secret() == key,
        after[i].position() == nonce_at(msb, (i + 1) as nat),
        ciphertexts[i] == secretbox_seal(key, nonce_at(msb, (i + 1) as nat), messages[i]),
        ciphertexts[i].len() == messages[i].len() + MAC_BYTES,
        secretbox_open(key, nonce_at(msb, (i + 1) as nat), ciphertexts[i]) == Some(messages[i]),
    decreases i,
{
    if i > 0 {
        law_nth_encryption(key, msb, start, after, messages, ciphertexts, i - 1);
    }
    assert(CryptoHandler::encrypts(
        if i == 0 {
            start
        } else {
            after[i - 1]
        },
        after[i],
        messages[i],
        ciphertexts[i],
    ));
    assert(nonce_at(msb, (i + 1) as nat) == incremented(nonce_at(msb, i as nat)));
}

/// A stream of messages comes through: a fresh handler of the same key and
/// direction that decrypts, in order, what another encrypted gets every
/// message.
pub proof fn law_stream_decrypts(
    key: Seq<u8>,
    msb: u8,
    sender: CryptoHandler,
    sent: Seq<CryptoHandler>,
    messages: Seq<Seq<u8>>,
    ciphertexts: Seq<Seq<u8>>,
    receiver: CryptoHandler,
    received: Seq<CryptoHandler>,
    results: Seq<Result<Seq<u8>, CryptoError>>,
    i: int,
)
    requires
        sender.secret() == key,
        sender.position() == nonce_at(msb, 0),
        receiver.secret() == key,
        receiver.position() == nonce_at(msb, 0),
        encrypts_all(sender, sent, messages, ciphertexts),
        decrypts_all(receiver, received, ciphertexts, results),
        0 <= i < messages.len(),
    ensures
        results[i] == Ok::<Seq<u8>, CryptoError>(messages[i]),
        received[i].secret() == key,
        received[i].position() == nonce_at(msb, (i + 1) as nat),
        ciphertexts[i].len() == messages[i].len() + MAC_BYTES,
    decreases i,
{
    law_nth_encryption(key, msb, sender, sent, messages, ciphertexts, i);
    if i > 0 {
        law_stream_decrypts(
            key,
            msb,
            sender,
            sent,
            messages,
            ciphertexts,
            receiver,
            received,
            results,
            i - 1,
        );
    }
    assert(CryptoHandler::decrypts(
        if i == 0 {
            receiver
        } else {
            received[i - 1]
        },
        received[i],
        ciphertexts[i],
        results[i],
    ));
    assert(nonce_at(msb, (i + 1) as nat) == incremented(nonce_at(msb, i as nat)));
}

/// Two handlers that start in step stay in step: what one encrypts the other
/// decrypts to the same message, and both are then at the same nonce.
pub proof fn law_decrypts_what_was_encrypted(
    sender: CryptoHandler,
    sender_after: CryptoHandler,
    receiver: CryptoHandler,
    receiver_after: CryptoHandler,
    plaintext: Seq<u8>,
    c: Seq<u8>,
    res: Result<Seq<u8>, CryptoError>,
)
    requires
        sender.secret() == receiver.secret(),
        sender.position() == receiver.position(),
        CryptoHandler::encrypts(sender, sender_after, plaintext, c),
        CryptoHandler::decrypts(receiver, receiver_after, c, res),
    ensures
        res == Ok::<Seq<u8>, CryptoError>(plaintext),
        sender_after.secret() == receiver_after.secret(),
        sender_after.position() == receiver_after.position(),
{
}

/// A ciphertext that fails takes its nonce like any other: a receiver that gets
/// a broken message in place of one is in step again with the next. One that is
/// too short to hold a tag takes none.
pub proof fn law_failed_decryption_takes_a_nonce(
    sender: CryptoHandler,
    lost: Seq<u8>,
    dropped: Seq<u8>,
    sender_after: CryptoHandler,
    sender_later: CryptoHandler,
    plaintext: Seq<u8>,
    c: Seq<u8>,
    receiver: CryptoHandler,
    broken: Seq<u8>,
    failed: Result<Seq<u8>, CryptoError>,
    receiver_after: CryptoHandler,
    receiver_later: CryptoHandler,
    res: Result<Seq<u8>, CryptoError>,
    short: Seq<u8>,
    refused: Result<Seq<u8>, CryptoError>,
    receiver_same: CryptoHandler,
)
    requires
        sender.secret() == receiver.secret(),
        sender.position() == receiver.position(),
        CryptoHandler::encrypts(sender, sender_after, lost, dropped),
        CryptoHandler::encrypts(sender_after, sender_later, plaintext, c),
        broken.len() >= 16,
        CryptoHandler::decrypts(receiver, receiver_after, broken, failed),
        CryptoHandler::decrypts(receiver_after, receiver_later, c, res),
        short.len() < 16,
        CryptoHandler::decrypts(receiver, receiver_same, short, refused),
    ensures
        res == Ok::<Seq<u8>, CryptoError>(plaintext),
        refused is Err,
        receiver_same.position() == receiver.position(),
        receiver_same.secret() == receiver.secret(),
{
}

} // verus!
