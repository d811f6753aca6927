use vstd::prelude::*;
use totp_rs::{Algorithm, Secret, SecretParseError, TOTP};
use crate::error::VaultError;

verus! {

/// Digits of a code.
pub const DIGITS: usize = 6;

/// Seconds of one time step.
pub const STEP: u64 = 30;

/// Steps of clock skew tolerated on either side.
pub const SKEW: u8 = 1;

/// The key bytes that a Base32 text stands for, as totp_rs decodes it;
/// `None` where it stands for none.
pub uninterp spec fn base32_key(secret: Seq<char>) -> Option<Seq<u8>>;

/// The HMAC-SHA1 one-time code of a key at a counter, as totp_rs computes it.
pub uninterp spec fn hotp_sha1(key: Seq<u8>, counter: int, digits: usize) -> Seq<char>;

#[verifier::external_type_specification]
#[verifier::external_body]
pub struct ExSecretParseError(SecretParseError);

/// Relies on totp_rs's Secret::to_bytes of an encoded secret: the decoded key
/// bytes, or an error where the text is no Base32.
#[verifier::external_body]
fn key_bytes(secret: &str) -> (r: Result<Vec<u8>, SecretParseError>)
    ensures
        r is Ok <==> base32_key(secret@) is Some,
        r matches Ok(k) ==> base32_key(secret@) == Some(k@),
{
    Secret::Encoded(secret.to_string()).to_bytes()
}

/// Relies on totp_rs's TOTP::new_unchecked with SHA-1, and TOTP::generate:
/// the code depends on the key and on `time / step` alone, and is written
/// with exactly `digits` decimal digits, zero-padded.
#[verifier::external_body]
fn generate_with(key: &Vec<u8>, digits: usize, skew: u8, step: u64, time: u64) -> (r: String)
    requires
        1 <= digits <= 9,
        step > 0,
    ensures
        r@ == hotp_sha1(key@, (time / step) as int, digits),
        r@.len() == digits,
        forall|i: int| 0 <= i < r@.len() ==> '0' <= #[trigger] r@[i] <= '9',
{
    TOTP::new_unchecked(Algorithm::SHA1, digits, skew, step, key.clone()).generate(time)
}

/// Tells whether a secret is a Base32 key that codes can be made from.
pub fn secret_is_base32(secret: &str) -> (r: bool)
    ensures
        r == base32_key(secret@) is Some,
{
    key_bytes(secret).is_ok()
}

/// The code of a secret at a time in epoch seconds; `None` where the secret
/// is no Base32 key.
pub open spec fn code_of(secret: Seq<char>, time: u64) -> Option<Seq<char>> {
    match base32_key(secret) {
        Some(k) => Some(hotp_sha1(k, (time / STEP) as int, DIGITS)),
        None => None,
    }
}

/// The six-digit code of a Base32 secret at `time` (epoch seconds).
pub fn totp_code(secret: &str, time: u64) -> (r: Result<String, VaultError>)
    ensures
        match code_of(secret@, time) {
            Some(c) => r is Ok && r->Ok_0@ == c,
            None => r is Err && r->Err_0 == VaultError::InvalidSecret,
        },
        r matches Ok(c) ==> c@.len() == DIGITS && forall|i: int|
            0 <= i < c@.len() ==> '0' <= #[trigger] c@[i] <= '9',
{
    match key_bytes(secret) {
        Ok(key) => Ok(generate_with(&key, DIGITS, SKEW, STEP, time)),
        Err(_) => Err(VaultError::InvalidSecret),
    }
}

/// Codes at two times of the same step window are the same.
pub proof fn lemma_same_window(secret: Seq<char>, t1: u64, t2: u64)
    requires
        t1 / STEP == t2 / STEP,
    ensures
        code_of(secret, t1) == code_of(secret, t2),
{
}

/// Seconds left in the current window: `30 - time % 30`, never 0.
pub fn remaining_seconds(time: u64) -> (r: u64)
    ensures
        r == STEP - time % STEP,
        1 <= r <= STEP,
        time % STEP == 0 ==> r == STEP,
        (time + r) % (STEP as int) == 0,
{
    STEP - time % STEP
}

} // verus!
