//! The record-id hash: a deterministic 64-bit digest of a cluster id and an
//! address position, as the streamed records name themselves.

use vstd::prelude::*;

use std::collections::hash_map::DefaultHasher;
use std::hash::Hasher;

use vstd::bytes::{spec_u64_to_le_bytes, u64_to_le_bytes};
use vstd::std_specs::hash::DefaultHasherAdditionalSpecFns;

verus! {

/// The byte stream that hashing a pair of 64-bit values feeds the hasher:
/// each value's little-endian bytes, in order.
pub open spec fn pair_bytes(t: (u64, u64)) -> Seq<Seq<u8>> {
    seq![spec_u64_to_le_bytes(t.0), spec_u64_to_le_bytes(t.1)]
}

/// Hash a (cluster id, address position) pair to the stable 64-bit record
/// id: the standard hasher's digest of the pair's little-endian bytes.
pub fn calculate_hash(t: &(u64, u64)) -> (r: u64)
    ensures
        r == DefaultHasher::spec_finish(pair_bytes(*t)),
{
    let mut s = DefaultHasher::new();
    let b0 = u64_to_le_bytes(t.0);
    let b1 = u64_to_le_bytes(t.1);
    s.write(b0.as_slice());
    s.write(b1.as_slice());
    proof {
        assert(s@ =~= pair_bytes(*t));
    }
    s.finish()
}

} // verus!
