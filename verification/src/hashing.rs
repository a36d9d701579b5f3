use vstd::prelude::*;
use vstd::string::StringSliceAdditionalSpecFns;

verus! {

/// Offset basis of the 64-bit FNV-1a hash.
pub const FNV_OFFSET_BASIS: u64 = 14695981039346656037;

/// Prime of the 64-bit FNV-1a hash.
pub const FNV_PRIME: u64 = 1099511628211;

/// One step of FNV-1a: xor the byte in, then multiply modulo 2^64.
pub open spec fn fnv_step(hash: u64, byte: u8) -> u64 {
    (hash ^ (byte as u64)).wrapping_mul(FNV_PRIME)
}

/// FNV-1a over a byte sequence, folding from the left.
pub open spec fn fnv1a(bytes: Seq<u8>) -> u64
    decreases bytes.len(),
{
    if bytes.len() == 0 {
        FNV_OFFSET_BASIS
    } else {
        fnv_step(fnv1a(bytes.drop_last()), bytes.last())
    }
}

/// Hashes a string (its UTF-8 bytes) with 64-bit FNV-1a.
pub fn dynamic_hasher(val: &str) -> (hash: u64)
    ensures
        hash == fnv1a(val.spec_bytes()),
{
    let bytes = val.as_bytes();
    let mut hash: u64 = FNV_OFFSET_BASIS;
    let mut i: usize = 0;
    while i < bytes.len()
        invariant
            i <= bytes@.len(),
            bytes@ == val.spec_bytes(),
            hash == fnv1a(bytes@.take(i as int)),
        decreases bytes@.len() - i,
    {
        assert(bytes@.take(i as int + 1).drop_last() =~= bytes@.take(i as int));
        let byte = bytes[i];
        hash = hash ^ (byte as u64);
        hash = hash.wrapping_mul(FNV_PRIME);
        i = i + 1;
    }
    assert(bytes@.take(bytes@.len() as int) =~= bytes@);
    hash
}

} // verus!
