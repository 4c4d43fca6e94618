//! Deterministic hygiene: the suffix carried by every generated identifier.
//!
//! Generated names must not collide with user code or across repeated
//! expansions, and the elaboration must stay deterministic.  The suffix is
//! therefore derived from the crate identity by a fixed hash rather than
//! drawn from any per-process source.

use vstd::prelude::*;

verus! {

/// FNV-1a offset basis.
pub const FNV_OFFSET: u64 = 0xcbf29ce484222325;

/// FNV-1a prime.
pub const FNV_PRIME: u64 = 0x100000001b3;

/// One FNV-1a step: fold one byte into the running hash.
pub open spec fn fnv1a_update(h: u64, b: u8) -> u64 {
    (h ^ (b as u64)).wrapping_mul(FNV_PRIME)
}

/// FNV-1a over a byte sequence.
pub open spec fn fnv1a(bytes: Seq<u8>) -> u64
    decreases bytes.len(),
{
    if bytes.len() == 0 {
        FNV_OFFSET
    } else {
        fnv1a_update(fnv1a(bytes.drop_last()), bytes.last())
    }
}

/// The bytes of the crate identity.
pub open spec fn crate_identity_bytes() -> Seq<u8> {
    seq![100u8, 101u8, 99u8, 121u8, 99u8, 108u8, 101u8]
}

/// The deterministic hygiene suffix: the identity hashed with FNV-1a.
pub open spec fn hygiene_suffix() -> u64 {
    fnv1a(crate_identity_bytes())
}

/// Deterministic FNV-1a hash, used for stable crate-local randomness.
pub fn identity_to_u64(value: &[u8]) -> (r: u64)
    ensures
        r == fnv1a(value@),
{
    let mut hash: u64 = FNV_OFFSET;
    let mut i: usize = 0;
    while i < value.len()
        invariant
            i <= value@.len(),
            hash == fnv1a(value@.subrange(0, i as int)),
        decreases value@.len() - i,
    {
        proof {
            assert(value@.subrange(0, i + 1 as int).drop_last() =~= value@.subrange(0, i as int));
        }
        hash = (hash ^ (value[i] as u64)).wrapping_mul(FNV_PRIME);
        i += 1;
    }
    proof {
        assert(value@.subrange(0, value@.len() as int) =~= value@);
    }
    hash
}

/// The identity under which one build of this system recognises itself.
pub fn get_crate_identity() -> (r: Vec<u8>)
    ensures
        r@ == crate_identity_bytes(),
{
    let r: Vec<u8> = vec![100u8, 101u8, 99u8, 121u8, 99u8, 108u8, 101u8];
    proof {
        assert(r@ =~= crate_identity_bytes());
    }
    r
}

/// The hygiene suffix used by every generated identifier.
pub fn get_random() -> (r: u64)
    ensures
        r == hygiene_suffix(),
{
    let identity = get_crate_identity();
    identity_to_u64(identity.as_slice())
}

} // verus!
