use vstd::prelude::*;

use password_hash::PasswordHasher;

verus! {

/// The set of salt strings that Argon2 hashing accepts: B64-valid and
/// within the library's length bounds. Freshly generated salts are in it.
pub uninterp spec fn valid_salt(salt: Seq<char>) -> bool;

/// The Argon2 hash of a password under a salt, rendered in PHC string form
/// with the default parameters. It depends on the password and the salt
/// alone, so equal inputs give the equal hash in every process.
pub uninterp spec fn argon2_hash(pass: Seq<char>, salt: Seq<char>) -> Seq<char>;

/// Password lengths the hashing path accepts. Argon2 rejects a password
/// longer than 0xFFFF_FFFF bytes, and a character encodes to at most four
/// bytes, so this character bound keeps every admitted password inside
/// Argon2's own limit.
pub open spec fn pass_len_ok(pass: Seq<char>) -> bool {
    pass.len() <= 0x3FFF_FFFF
}

/// Relies on `password_hash::SaltString::generate`: a freshly generated
/// random salt is B64-encoded at the recommended length, which Argon2
/// hashing accepts. Nothing else is promised of a random salt.
#[verifier::external_body]
pub(crate) fn generate_salt() -> (r: String)
    ensures
        valid_salt(r@),
{
    password_hash::SaltString::generate(&mut rand::rngs::OsRng).as_str().to_owned()
}

/// Relies on `argon2::Argon2::hash_password` with the default parameters:
/// the hash is a pure function of password and salt, and succeeds on every
/// valid salt once the password is short enough for Argon2 to accept;
/// `SaltString::from_b64` only converts the stored salt back.
#[verifier::external_body]
pub(crate) fn hash_with_salt(pass: &str, salt: &str) -> (r: Option<String>)
    requires
        pass_len_ok(pass@),
    ensures
        valid_salt(salt@) ==> r is Some,
        r matches Some(h) ==> h@ == argon2_hash(pass@, salt@),
{
    let parsed = match password_hash::SaltString::from_b64(salt) {
        Ok(s) => s,
        Err(_) => {
            return None;
        },
    };
    match argon2::Argon2::default().hash_password(pass.as_bytes(), &parsed) {
        Ok(h) => Some(h.to_string()),
        Err(_) => None,
    }
}

} // verus!
