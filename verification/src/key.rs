//! The opaque key codec: a reversible, keyed encoding of the internal
//! creation timestamp into a short alphanumeric string.
//!
//! The keyed transform itself is `short_crypt`'s QR-alphanumeric encoding,
//! relied on through the contracts below; the byte conversions around it
//! are verified.

use crate::time::NanoTime;
use vstd::arithmetic::div_mod::lemma_mod_breakdown;
use vstd::arithmetic::power::{lemma_pow_positive, lemma_pow_strictly_increases, pow};
use vstd::prelude::*;

verus! {

/// How many low-order bytes of a timestamp the key encodes.
pub const VALID_BYTES: usize = 8;

/// The value one past the largest timestamp the key can carry.
pub const KEY_VALUE_BOUND: u128 = 0x1_0000_0000_0000_0000;

/// What `ShortCrypt::encrypt_to_qr_code_alphanumeric` returns for a key
/// string and data: the encoding depends on those alone.
pub uninterp spec fn qr_encode(secret: Seq<char>, data: Seq<u8>) -> Seq<char>;

/// What `ShortCrypt::decrypt_qr_code_alphanumeric` returns for a key string
/// and text: the decoded data, or nothing for text that does not decode.
pub uninterp spec fn qr_decode(secret: Seq<char>, text: Seq<char>) -> Option<Seq<u8>>;

/// Relies on `short_crypt::ShortCrypt::new` and
/// `ShortCrypt::encrypt_to_qr_code_alphanumeric`: ShortCrypt is a
/// deterministic keyed encoding, and `decrypt_qr_code_alphanumeric` inverts
/// what it encodes under the same key.
#[verifier::external_body]
fn encrypt_qr(secret: &str, data: &Vec<u8>) -> (r: String)
    ensures
        r@ == qr_encode(secret@, data@),
        qr_decode(secret@, r@) == Some(data@),
{
    short_crypt::ShortCrypt::new(secret).encrypt_to_qr_code_alphanumeric(data)
}

/// Relies on `short_crypt::ShortCrypt::new` and
/// `ShortCrypt::decrypt_qr_code_alphanumeric`: decoding is a deterministic
/// function of the key string and the text, and text whose embedded
/// checksum does not match is rejected.
#[verifier::external_body]
fn decrypt_qr(secret: &str, text: &str) -> (r: Option<Vec<u8>>)
    ensures
        match r {
            Some(v) => qr_decode(secret@, text@) == Some(v@),
            None => qr_decode(secret@, text@) is None,
        },
{
    match short_crypt::ShortCrypt::new(secret).decrypt_qr_code_alphanumeric(text) {
        Ok(v) => Some(v),
        Err(_) => None,
    }
}

/// The `count` low-order bytes of `n`, least significant first.
pub open spec fn le_bytes(n: nat, count: nat) -> Seq<u8>
    decreases count,
{
    if count == 0 {
        Seq::empty()
    } else {
        seq![(n % 256) as u8] + le_bytes(n / 256, (count - 1) as nat)
    }
}

/// The value a little-endian byte string denotes.
pub open spec fn le_val(s: Seq<u8>) -> nat
    decreases s.len(),
{
    if s.len() == 0 {
        0
    } else {
        (s[0] + 256 * le_val(s.skip(1))) as nat
    }
}

/// A little-endian byte string of length `k` denotes a value below 256^k.
pub proof fn lemma_le_val_bound(s: Seq<u8>)
    ensures
        le_val(s) < pow(256, s.len() as nat),
    decreases s.len(),
{
    reveal(pow);
    if s.len() == 0 {
    } else {
        lemma_le_val_bound(s.skip(1));
        assert(pow(256, s.len() as nat) == 256 * pow(256, (s.len() - 1) as nat));
        assert(s.skip(1).len() == s.len() - 1);
    }
}

/// Reading back the `k` low-order bytes of `n` yields `n` modulo 256^k.
pub proof fn lemma_le_val_le_bytes(n: nat, k: nat)
    ensures
        le_val(le_bytes(n, k)) as int == n as int % pow(256, k),
    decreases k,
{
    reveal(pow);
    if k == 0 {
        assert(pow(256, 0) == 1);
        assert(n % 1 == 0) by {
            vstd::arithmetic::div_mod::lemma_mod_self_0(1);
        }
    } else {
        lemma_le_val_le_bytes(n / 256, (k - 1) as nat);
        let s = le_bytes(n, k);
        assert(s[0] == (n % 256) as u8);
        assert(s.skip(1) =~= le_bytes(n / 256, (k - 1) as nat));
        lemma_pow_positive(256, (k - 1) as nat);
        lemma_mod_breakdown(n as int, 256, pow(256, (k - 1) as nat));
        assert(pow(256, k) == 256 * pow(256, (k - 1) as nat));
    }
}

/// The codec round trip at the value level: encoding a timestamp's low
/// bytes and reading them back yields the timestamp modulo 2^64.
pub proof fn lemma_le_roundtrip(n: nat)
    ensures
        le_val(le_bytes(n, 8)) == n % (KEY_VALUE_BOUND as nat),
{
    lemma_le_val_le_bytes(n, 8);
    assert(pow(256, 8) == KEY_VALUE_BOUND as int) by {
        reveal_with_fuel(pow, 9);
    }
}

/// The eight low-order bytes of the timestamp, least significant first.
fn nano_low_bytes(nano: NanoTime) -> (r: Vec<u8>)
    ensures
        r@ == le_bytes(nano as nat, 8),
        r@.len() == 8,
{
    let mut bytes: Vec<u8> = Vec::new();
    let mut n = nano;
    let mut i: usize = 0;
    while i < 8
        invariant
            0 <= i <= 8,
            bytes@.len() == i,
            bytes@ + le_bytes(n as nat, (8 - i) as nat) == le_bytes(nano as nat, 8),
        decreases 8 - i,
    {
        let ghost before = bytes@;
        let ghost n0 = n as nat;
        let b = (n % 256) as u8;
        bytes.push(b);
        n = n / 256;
        i = i + 1;
        proof {
            assert(le_bytes(n0, (9 - i) as nat) == seq![b] + le_bytes(
                n0 / 256,
                (8 - i) as nat,
            ));
            assert(bytes@ + le_bytes(n as nat, (8 - i) as nat) =~= before + le_bytes(
                n0,
                (9 - i) as nat,
            ));
        }
    }
    proof {
        assert(bytes@ + le_bytes(n as nat, 0) =~= bytes@);
    }
    bytes
}

/// The value the eight-byte little-endian string denotes.
fn le_bytes_to_nano(v: &Vec<u8>) -> (r: NanoTime)
    requires
        v@.len() == 8,
    ensures
        r as nat == le_val(v@),
        r < KEY_VALUE_BOUND,
{
    let mut acc: u128 = 0;
    let mut j: usize = 8;
    while j > 0
        invariant
            0 <= j <= 8,
            v@.len() == 8,
            acc as nat == le_val(v@.skip(j as int)),
        decreases j,
    {
        proof {
            lemma_le_val_bound(v@.skip(j as int));
            lemma_pow_strictly_increases(256, (8 - j) as nat, 8);
            assert(pow(256, 8) == KEY_VALUE_BOUND as int) by {
                reveal_with_fuel(pow, 9);
            }
        }
        let ghost tail = v@.skip(j as int);
        j = j - 1;
        acc = acc * 256 + (v[j] as u128);
        proof {
            assert(v@.skip(j as int)[0] == v@[j as int]);
            assert(v@.skip(j as int).skip(1) =~= tail);
        }
    }
    proof {
        assert(v@.skip(0) =~= v@);
        lemma_le_val_bound(v@);
        assert(pow(256, 8) == KEY_VALUE_BOUND as int) by {
            reveal_with_fuel(pow, 9);
        }
    }
    acc
}

/// Encodes the timestamp's eight low-order bytes into the opaque key for
/// the given deployment secret.
pub fn nano_to_key(secret: &str, nano: NanoTime) -> (r: String)
    ensures
        r@ == qr_encode(secret@, le_bytes(nano as nat, 8)),
        qr_decode(secret@, r@) == Some(le_bytes(nano as nat, 8)),
{
    let bytes = nano_low_bytes(nano);
    encrypt_qr(secret, &bytes)
}

/// Decodes an opaque key back into the timestamp it encodes under the given
/// deployment secret. Text that does not decode, or decodes to the wrong
/// length, reads as no value.
pub fn key_to_nano(secret: &str, key: &str) -> (r: Option<NanoTime>)
    ensures
        match qr_decode(secret@, key@) {
            Some(b) => {
                &&& ((r is Some) <==> b.len() == 8)
                &&& (b.len() == 8 ==> r == Some((le_val(b) as u128)))
            },
            None => r is None,
        },
        r matches Some(n) ==> n < KEY_VALUE_BOUND,
{
    match decrypt_qr(secret, key) {
        None => None,
        Some(v) => {
            if v.len() == 8 {
                proof {
                    lemma_le_val_bound(v@);
                }
                Some(le_bytes_to_nano(&v))
            } else {
                None
            }
        },
    }
}

} // verus!
