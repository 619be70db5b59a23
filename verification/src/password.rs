//! Salted one-way password digests. A protected entry stores only the salt
//! and the digest of its password, never the password itself; a supplied
//! password verifies by recomputing the chain under the stored salt. The
//! digest is a salted 64-bit multiply-and-fold chain: adequate to gate
//! access for this minimal service, and fully specified so that
//! verification is exact. A 64-bit digest admits collisions, so every
//! rejection guarantee is exact over digests, not over raw strings: a
//! wrong password whose chain collides with the stored digest would be
//! accepted.
use vstd::prelude::*;

verus! {

/// Seed that the salt is folded into before any character.
pub const DIGEST_OFFSET: u64 = 0xcbf29ce484222325;

/// Multiplier of the digest chain.
pub const DIGEST_PRIME: u64 = 0x100000001b3;

/// One step of the digest chain: folds a character into the accumulator.
pub open spec fn mix(acc: u64, c: char) -> u64 {
    ((((acc ^ ((c as u32) as u64)) as u128) * (DIGEST_PRIME as u128)) % 0x10000000000000000)
        as u64
}

/// The salted digest of a password: the salt seeds the chain and each
/// character is folded in turn, first character first.
pub open spec fn spec_digest(salt: u64, s: Seq<char>) -> u64
    decreases s.len(),
{
    if s.len() == 0 {
        salt ^ DIGEST_OFFSET
    } else {
        mix(spec_digest(salt, s.drop_last()), s.last())
    }
}

/// Computes the salted digest of a password.
pub fn digest(salt: u64, password: &str) -> (r: u64)
    ensures
        r == spec_digest(salt, password@),
{
    let n = password.unicode_len();
    let mut acc: u64 = salt ^ DIGEST_OFFSET;
    let mut i: usize = 0;
    while i < n
        invariant
            n == password@.len(),
            0 <= i <= n,
            acc == spec_digest(salt, password@.subrange(0, i as int)),
        decreases n - i,
    {
        let c = password.get_char(i);
        proof {
            assert(password@.subrange(0, i + 1).drop_last() =~= password@.subrange(0, i as int));
            assert(password@.subrange(0, i + 1).last() == password@[i as int]);
        }
        let x: u128 = ((acc ^ ((c as u32) as u64)) as u128) * (DIGEST_PRIME as u128);
        acc = (x % 0x10000000000000000) as u64;
        i = i + 1;
    }
    proof {
        assert(password@.subrange(0, n as int) =~= password@);
    }
    acc
}

/// Whether a supplied password verifies against a stored salt and digest.
pub fn verify(salt: u64, stored: u64, password: &str) -> (r: bool)
    ensures
        r == (spec_digest(salt, password@) == stored),
{
    digest(salt, password) == stored
}

} // verus!
