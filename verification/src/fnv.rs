//! FNV-1a hashing of request ids.
//!
//! Request ids that are not parseable as UUIDs travel as their 64-bit
//! FNV-1a digest. The fold is defined here and proved against its own
//! specification; the hash of a byte sequence is a pure function.

use vstd::prelude::*;

verus! {

/// FNV-1a 64-bit offset basis.
pub const FNV_OFFSET_BASIS: u64 = 0xcbf2_9ce4_8422_2325;

/// FNV-1a 64-bit prime.
pub const FNV_PRIME: u64 = 0x0000_0100_0000_01b3;

/// One FNV-1a step: xor the byte in, multiply by the prime modulo 2^64.
pub open spec fn spec_fnv1a_step(acc: u64, byte: u8) -> u64 {
    ((((acc ^ (byte as u64)) as int) * (FNV_PRIME as int)) % 0x1_0000_0000_0000_0000) as u64
}

/// The FNV-1a fold over a byte sequence, starting from `acc`.
pub open spec fn spec_fnv1a_from(data: Seq<u8>, acc: u64) -> u64
    decreases data.len(),
{
    if data.len() == 0 {
        acc
    } else {
        spec_fnv1a_from(data.drop_first(), spec_fnv1a_step(acc, data[0]))
    }
}

/// The FNV-1a 64-bit digest of a byte sequence.
pub open spec fn spec_fnv1a(data: Seq<u8>) -> u64 {
    spec_fnv1a_from(data, FNV_OFFSET_BASIS)
}

/// Compute the FNV-1a 64-bit digest of `data`.
#[verifier::loop_isolation(false)]
pub fn fnv1a_64(data: &[u8]) -> (r: u64)
    ensures
        r == spec_fnv1a(data@),
{
    let mut acc: u64 = FNV_OFFSET_BASIS;
    let mut i: usize = 0;
    proof {
        assert(data@.skip(0) =~= data@);
    }
    while i < data.len()
        invariant
            i <= data@.len(),
            spec_fnv1a(data@) == spec_fnv1a_from(data@.skip(i as int), acc),
        decreases data@.len() - i,
    {
        let b = *vstd::slice::slice_index_get(data, i);
        proof {
            assert(data@.skip(i as int)[0] == data@[i as int]);
            assert(data@.skip(i as int).drop_first() =~= data@.skip(i as int + 1));
        }
        acc = ((((acc ^ (b as u64)) as u128) * (FNV_PRIME as u128))
            % 0x1_0000_0000_0000_0000u128) as u64;
        i = i + 1;
    }
    proof {
        assert(data@.skip(data@.len() as int) =~= Seq::<u8>::empty());
    }
    acc
}

} // verus!
