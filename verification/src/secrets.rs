//! Random tokens and Argon2 password hashes.
use vstd::prelude::*;

use crate::text::{is_ascii_alphanumeric, starts_with};

verus! {

/// `password` verifies against the PHC hash string `phc` under `Argon2::default()`:
/// the string parses as a password hash and hashing the password with its salt
/// and parameters gives its output.
pub uninterp spec fn argon2_accepts(password: Seq<char>, phc: Seq<char>) -> bool;

/// `len` characters drawn by `rand::thread_rng()` from `rand::distributions::Alphanumeric`,
/// which samples from `A-Z`, `a-z` and `0-9`. Which characters come out is left
/// open: they are random.
#[verifier::external_body]
pub(crate) fn random_alphanumeric(len: usize) -> (s: String)
    ensures
        s@.len() == len,
        forall|i: int| 0 <= i < len ==> is_ascii_alphanumeric(#[trigger] s@[i]),
{
    rand::Rng::sample_iter(rand::thread_rng(), &rand::distributions::Alphanumeric).take(len).map(
        char::from,
    ).collect()
}

/// A PHC string begins with the `$` that separates its fields; `PasswordHash::new`
/// refuses any other string.
pub open spec fn phc_shaped(s: Seq<char>) -> bool {
    s.len() > 0 && s[0] == '$'
}

/// A PHC string of an Argon2id hash: it begins `$argon2id$`.
pub open spec fn is_argon2id_hash(s: Seq<char>) -> bool {
    starts_with(s, "$argon2id$"@)
}

/// An Argon2id hash string differs from any text that does not begin with `$`.
pub proof fn lemma_hash_differs_from(h: Seq<char>, text: Seq<char>)
    requires
        is_argon2id_hash(h),
        text.len() == 0 || text[0] != '$',
    ensures
        h != text,
        phc_shaped(h),
{
    reveal_strlit("$argon2id$");
    assert(h.subrange(0, 10)[0] == '$');
}

/// Sixteen random salt bytes, drawn the way `SaltString::generate` draws them:
/// `OsRng.fill_bytes` into `Salt::RECOMMENDED_LENGTH` bytes. Which bytes is left
/// open: they are random.
#[verifier::external_body]
pub(crate) fn fresh_salt() -> (salt: Vec<u8>)
    ensures
        salt@.len() == 16,
{
    let mut bytes = vec![0u8; argon2::password_hash::Salt::RECOMMENDED_LENGTH];
    argon2::password_hash::rand_core::RngCore::fill_bytes(&mut argon2::password_hash::rand_core::OsRng, &mut bytes);
    bytes
}

/// `Argon2::default().hash_password(password, &SaltString::encode_b64(salt))`,
/// written as a PHC string. A hash it writes begins `$argon2id$` and verifies the
/// password it was made from; the rest depends on the salt. Hashing succeeds for
/// a salt of 8 to 48 bytes and a password of at most `u32::MAX` bytes (which any
/// text of at most 2^30 - 1 characters is). A salt shorter than 3 bytes is left
/// out: its Base64 text is too short for `SaltString::as_salt`, which panics.
#[verifier::external_body]
pub(crate) fn argon2_hash(password: &str, salt: &[u8]) -> (r: Option<String>)
    requires
        salt@.len() >= 3,
    ensures
        r matches Some(h) ==> argon2_accepts(password@, h@) && is_argon2id_hash(h@),
        8 <= salt@.len() <= 48 && password@.len() <= 0x3FFF_FFFF ==> r is Some,
{
    let salt = match argon2::password_hash::SaltString::encode_b64(salt) {
        Ok(s) => s,
        Err(_) => return None,
    };
    match argon2::PasswordHasher::hash_password(&argon2::Argon2::default(), password.as_bytes(), &salt) {
        Ok(h) => Some(h.to_string()),
        Err(_) => None,
    }
}

/// `PasswordHash::new(phc)` then `Argon2::default().verify_password(password, ..)`:
/// false when the string does not parse (as when it does not begin with `$`) or
/// the password does not verify. Its result is named by `argon2_accepts`.
#[verifier::external_body]
pub(crate) fn argon2_verify(password: &str, phc: &str) -> (b: bool)
    ensures
        b == argon2_accepts(password@, phc@),
        !phc_shaped(phc@) ==> !b,
{
    match argon2::password_hash::PasswordHash::new(phc) {
        Ok(parsed) => argon2::PasswordVerifier::verify_password(
            &argon2::Argon2::default(),
            password.as_bytes(),
            &parsed,
        ).is_ok(),
        Err(_) => false,
    }
}

} // verus!
