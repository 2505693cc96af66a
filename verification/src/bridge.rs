//! Calls into outside crates that the core relies on, each behind a
//! contract that states no more than the crate's own documentation.

use hmac::Mac;
use rand::{RngCore, SeedableRng};
use vstd::prelude::*;
use vstd::utf8::{decode_utf8, valid_utf8};

verus! {

/// The characters that URL-safe base64, with padding, assigns to a byte
/// sequence.
pub uninterp spec fn b64url_chars(bytes: Seq<u8>) -> Seq<char>;

/// The characters that standard base64, with padding, assigns to a byte
/// sequence.
pub uninterp spec fn b64_chars(bytes: Seq<u8>) -> Seq<char>;

/// The HMAC-SHA1 authentication code of a message under a key.
pub uninterp spec fn hmac_sha1_bytes(key: Seq<u8>, msg: Seq<u8>) -> Seq<u8>;

/// A character of the standard base64 alphabet, or its '=' padding:
/// upper- and lower-case letters, digits, '+' and '/'.
pub open spec fn is_b64_std_char(c: char) -> bool {
    ||| 65 <= c as u32 <= 90
    ||| 97 <= c as u32 <= 122
    ||| 48 <= c as u32 <= 57
    ||| c == '+'
    ||| c == '/'
    ||| c == '='
}

/// Relies on base64::encode_config with base64::URL_SAFE: the URL-safe
/// base64 encoding, with padding, of the input bytes; four characters for
/// every started group of three bytes.
#[verifier::external_body]
pub(crate) fn b64url_encode(bytes: &[u8]) -> (r: String)
    ensures
        r@ == b64url_chars(bytes@),
        r@.len() == 4 * ((bytes@.len() + 2) / 3),
{
    base64::encode_config(bytes, base64::URL_SAFE)
}

/// Relies on base64::decode_config with base64::URL_SAFE: decoding inverts
/// encoding, so a string that is the encoding of some bytes decodes to
/// exactly those bytes.
#[verifier::external_body]
pub(crate) fn b64url_decode(s: &str) -> (r: Result<Vec<u8>, ()>)
    ensures
        forall|b: Seq<u8>| s@ == b64url_chars(b) ==> r is Ok && r->Ok_0@ == b,
{
    match base64::decode_config(s, base64::URL_SAFE) {
        Ok(v) => Ok(v),
        Err(_) => Err(()),
    }
}

/// Relies on base64::encode: the standard base64 encoding, with padding,
/// of the input bytes; four characters for every started group of three
/// bytes, each drawn from the standard alphabet or the '=' padding.
#[verifier::external_body]
pub(crate) fn b64_encode(bytes: &[u8]) -> (r: String)
    ensures
        r@ == b64_chars(bytes@),
        r@.len() == 4 * ((bytes@.len() + 2) / 3),
        forall|i: int| 0 <= i < r@.len() ==> is_b64_std_char(#[trigger] r@[i]),
{
    base64::encode(bytes)
}

/// Relies on String::from_utf8: succeeds exactly on valid UTF-8 input and
/// yields the characters that the bytes encode.
#[verifier::external_body]
pub(crate) fn string_from_utf8(bytes: Vec<u8>) -> (r: Result<String, ()>)
    ensures
        valid_utf8(bytes@) ==> r is Ok && r->Ok_0@ == decode_utf8(bytes@),
        !valid_utf8(bytes@) ==> r is Err,
{
    match String::from_utf8(bytes) {
        Ok(s) => Ok(s),
        Err(_) => Err(()),
    }
}

/// Relies on hmac's Hmac over sha1's Sha1: the 20-byte HMAC-SHA1 code, a
/// function of the key and the message alone.  Key setup never fails: HMAC
/// accepts keys of any length.
#[verifier::external_body]
pub(crate) fn hmac_sha1(key: &[u8], msg: &[u8]) -> (r: Vec<u8>)
    ensures
        r@ == hmac_sha1_bytes(key@, msg@),
        r@.len() == 20,
{
    let mut mac = hmac::Hmac::<sha1::Sha1>::new_from_slice(key).unwrap();
    mac.update(msg);
    mac.finalize().into_bytes().to_vec()
}

/// tokio's unbounded mpsc sender, carried opaquely by the registry.
#[verifier::external_type_specification]
#[verifier::external_body]
#[verifier::reject_recursive_types(T)]
pub struct ExUnboundedSender<T>(tokio::sync::mpsc::UnboundedSender<T>);

/// Relies on tokio's UnboundedSender::send: queues the message for the
/// receiver, failing exactly when the receiver is gone.  Which of the two
/// happens cannot be known here, so nothing is promised of the result.
#[verifier::external_body]
pub(crate) fn channel_send<T>(ch: &tokio::sync::mpsc::UnboundedSender<T>, v: T) -> bool {
    ch.send(v).is_ok()
}

/// Relies on std::time::SystemTime: the seconds since the Unix epoch at
/// the moment of the call, or 0 should the clock read earlier than the
/// epoch.  No clause: the value depends on when the call is made.
#[verifier::external_body]
pub(crate) fn unix_now_secs() -> u64 {
    match std::time::SystemTime::now().duration_since(std::time::UNIX_EPOCH) {
        Ok(d) => d.as_secs(),
        Err(_) => 0,
    }
}

/// Relies on rand_chacha's ChaCha20Rng seeded from the system, filled by
/// rand's RngCore::fill_bytes: 32 bytes of which only the count is known.
#[verifier::external_body]
pub(crate) fn random_bytes_32() -> (r: Vec<u8>)
    ensures
        r@.len() == 32,
{
    let mut bs = [0u8; 32];
    let mut rng = rand_chacha::ChaCha20Rng::from_entropy();
    rng.fill_bytes(&mut bs);
    bs.to_vec()
}

} // verus!
