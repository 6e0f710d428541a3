//! Adaptive salted password hashing, done by the bcrypt crate.
//!
//! The two spec names below stand for what bcrypt computes: nothing in this
//! crate restates the algorithm, the contracts only relate hashing and
//! verification to each other.

use vstd::prelude::*;

verus! {

/// Work factor handed to the hash function: bcrypt's documented default cost.
pub const WORK_FACTOR: u32 = 12;

/// Whether bcrypt accepts `h` as a well-formed hash string: `bcrypt::verify`
/// parses it and recomputes a hash with the cost embedded in it without
/// failing. This depends on the string alone, not on the password checked.
pub uninterp spec fn hash_shape_ok(h: Seq<char>) -> bool;

/// The verdict that `bcrypt::verify` reports for a password and a well-formed
/// hash string. The recomputation is deterministic, so the verdict is a
/// function of the two arguments alone.
pub uninterp spec fn check_of(password: Seq<char>, h: Seq<char>) -> bool;

#[verifier::external_type_specification]
#[verifier::external_body]
pub struct ExBcryptError(bcrypt::BcryptError);

/// Relies on `bcrypt::hash`: on success it returns a hash string that
/// `bcrypt::verify` parses back (same version tag, cost and salt alphabet it
/// wrote) and matches against the password that was hashed. The call fails
/// only when the cost is out of bcrypt's range or no random salt could be
/// drawn from the operating system.
#[verifier::external_body]
pub(crate) fn bcrypt_hash(password: &str, cost: u32) -> (r: Result<String, bcrypt::BcryptError>)
    ensures
        r is Ok ==> hash_shape_ok(r->Ok_0@) && check_of(password@, r->Ok_0@),
{
    bcrypt::hash(password, cost)
}

/// Relies on `bcrypt::verify`: it fails exactly when the hash string cannot
/// be parsed and recomputed, which is a property of the hash string alone,
/// and on success its verdict depends only on the password and the hash.
#[verifier::external_body]
pub(crate) fn bcrypt_verify(password: &str, hashed: &str) -> (r: Result<
    bool,
    bcrypt::BcryptError,
>)
    ensures
        r is Ok <==> hash_shape_ok(hashed@),
        r is Ok ==> r->Ok_0 == check_of(password@, hashed@),
{
    bcrypt::verify(password, hashed)
}

} // verus!
