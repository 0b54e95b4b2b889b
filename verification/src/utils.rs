//! Bit manipulation helpers and the client-id digest.

use std::collections::hash_map::DefaultHasher;
use std::hash::Hasher;
use vstd::prelude::*;
use vstd::std_specs::hash::DefaultHasherAdditionalSpecFns;
use vstd::string::StringSliceAdditionalSpecFns;

verus! {

/// The 64-bit digest a client identifier maps to: the standard hasher's
/// result over the identifier's UTF-8 bytes, written in one block.
pub open spec fn spec_client_digest(bytes: Seq<u8>) -> u64 {
    DefaultHasher::spec_finish(seq![bytes])
}

/// Digest of a human-readable identifier, used as the `client_id` header
/// field. Deterministic: the same text always gives the same digest.
pub fn hash(t: &str) -> (r: u64)
    ensures
        r == spec_client_digest(t.spec_bytes()),
{
    let mut hasher = DefaultHasher::new();
    hasher.write(t.as_bytes());
    hasher.finish()
}

/// Clear bit `y` of `x`.
pub fn bit_clr(x: &mut u32, y: u8)
    requires
        y < 32,
    ensures
        *final(x) == *old(x) & !(1u32 << y),
{
    *x = *x & !(1u32 << y)
}

/// Set bit `y` of `x`.
pub fn bit_set(x: &mut u32, y: u8)
    requires
        y < 32,
    ensures
        *final(x) == *old(x) | (1u32 << y),
{
    *x = *x | (1u32 << y)
}

/// Whether bit `y` of `x` is set.
pub fn is_bit_set(x: u32, y: u8) -> (r: bool)
    requires
        y < 32,
    ensures
        r == (((x >> y) & 1) == 1),
{
    ((x >> y) & 1) == 1
}

} // verus!
