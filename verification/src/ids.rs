//! 256-bit identifiers for epochs and merkle roots.

use vstd::prelude::*;

verus! {

/// A 256-bit value stored as four 64-bit limbs, most significant limb first.
/// Epoch identifiers and merkle roots are both values of this shape; this
/// layer compares them by equality only.
#[derive(Clone, Copy, PartialEq, Eq, Structural, Debug)]
pub struct Hash256 {
    pub w0: u64,
    pub w1: u64,
    pub w2: u64,
    pub w3: u64,
}

/// Identifier of the epoch at which a snapshot was taken.
pub type EpochId = Hash256;

/// Digest summarizing a snapshot's entire state content; computed by the
/// external database engine, carried opaquely here.
pub type MerkleHash = Hash256;

/// The big-endian byte rendering of one limb.
pub open spec fn u64_be_bytes(w: u64) -> Seq<u8> {
    seq![
        ((w >> 56) & 0xff) as u8,
        ((w >> 48) & 0xff) as u8,
        ((w >> 40) & 0xff) as u8,
        ((w >> 32) & 0xff) as u8,
        ((w >> 24) & 0xff) as u8,
        ((w >> 16) & 0xff) as u8,
        ((w >> 8) & 0xff) as u8,
        (w & 0xff) as u8,
    ]
}

/// Two limbs with the same byte rendering are the same limb.
pub proof fn lemma_u64_be_bytes_injective(a: u64, b: u64)
    requires
        u64_be_bytes(a) == u64_be_bytes(b),
    ensures
        a == b,
{
    assert(u64_be_bytes(a)[0] == u64_be_bytes(b)[0]);
    assert(u64_be_bytes(a)[1] == u64_be_bytes(b)[1]);
    assert(u64_be_bytes(a)[2] == u64_be_bytes(b)[2]);
    assert(u64_be_bytes(a)[3] == u64_be_bytes(b)[3]);
    assert(u64_be_bytes(a)[4] == u64_be_bytes(b)[4]);
    assert(u64_be_bytes(a)[5] == u64_be_bytes(b)[5]);
    assert(u64_be_bytes(a)[6] == u64_be_bytes(b)[6]);
    assert(u64_be_bytes(a)[7] == u64_be_bytes(b)[7]);
    assert((((a >> 56) & 0xff) as u8 == ((b >> 56) & 0xff) as u8
        && ((a >> 48) & 0xff) as u8 == ((b >> 48) & 0xff) as u8
        && ((a >> 40) & 0xff) as u8 == ((b >> 40) & 0xff) as u8
        && ((a >> 32) & 0xff) as u8 == ((b >> 32) & 0xff) as u8
        && ((a >> 24) & 0xff) as u8 == ((b >> 24) & 0xff) as u8
        && ((a >> 16) & 0xff) as u8 == ((b >> 16) & 0xff) as u8
        && ((a >> 8) & 0xff) as u8 == ((b >> 8) & 0xff) as u8
        && (a & 0xff) as u8 == (b & 0xff) as u8) ==> a == b) by (bit_vector);
}

impl Hash256 {
    /// The sentinel value meaning "no prior snapshot" (the genesis case).
    pub open spec fn spec_is_null(self) -> bool {
        self.w0 == 0 && self.w1 == 0 && self.w2 == 0 && self.w3 == 0
    }

    pub fn is_null(&self) -> (r: bool)
        ensures
            r == self.spec_is_null(),
    {
        self.w0 == 0 && self.w1 == 0 && self.w2 == 0 && self.w3 == 0
    }

    /// The sentinel identifier itself.
    pub fn null() -> (r: Hash256)
        ensures
            r.spec_is_null(),
    {
        Hash256 { w0: 0, w1: 0, w2: 0, w3: 0 }
    }

    /// The 32-byte big-endian rendering of the identifier.
    pub open spec fn spec_bytes(self) -> Seq<u8> {
        u64_be_bytes(self.w0) + u64_be_bytes(self.w1) + u64_be_bytes(self.w2)
            + u64_be_bytes(self.w3)
    }

    pub fn to_be_bytes(&self) -> (r: Vec<u8>)
        ensures
            r@ == self.spec_bytes(),
            r@.len() == 32,
    {
        let mut r: Vec<u8> = Vec::new();
        push_u64_be(&mut r, self.w0);
        push_u64_be(&mut r, self.w1);
        push_u64_be(&mut r, self.w2);
        push_u64_be(&mut r, self.w3);
        proof {
            assert(r@ =~= self.spec_bytes());
        }
        r
    }
}

/// Appends the big-endian bytes of one limb.
fn push_u64_be(v: &mut Vec<u8>, w: u64)
    ensures
        final(v)@ == old(v)@ + u64_be_bytes(w),
{
    proof {
        assert((w >> 56) & 0xff < 256 && (w >> 48) & 0xff < 256 && (w >> 40) & 0xff < 256
            && (w >> 32) & 0xff < 256 && (w >> 24) & 0xff < 256 && (w >> 16) & 0xff < 256
            && (w >> 8) & 0xff < 256 && w & 0xff < 256) by (bit_vector);
    }
    v.push(((w >> 56) & 0xff) as u8);
    v.push(((w >> 48) & 0xff) as u8);
    v.push(((w >> 40) & 0xff) as u8);
    v.push(((w >> 32) & 0xff) as u8);
    v.push(((w >> 24) & 0xff) as u8);
    v.push(((w >> 16) & 0xff) as u8);
    v.push(((w >> 8) & 0xff) as u8);
    v.push((w & 0xff) as u8);
    proof {
        assert(v@ =~= old(v)@ + u64_be_bytes(w));
    }
}

/// Two identifiers with the same byte rendering are the same identifier.
pub proof fn lemma_hash256_bytes_injective(a: Hash256, b: Hash256)
    requires
        a.spec_bytes() == b.spec_bytes(),
    ensures
        a == b,
{
    assert(u64_be_bytes(a.w0) =~= a.spec_bytes().subrange(0, 8));
    assert(u64_be_bytes(a.w1) =~= a.spec_bytes().subrange(8, 16));
    assert(u64_be_bytes(a.w2) =~= a.spec_bytes().subrange(16, 24));
    assert(u64_be_bytes(a.w3) =~= a.spec_bytes().subrange(24, 32));
    assert(u64_be_bytes(b.w0) =~= b.spec_bytes().subrange(0, 8));
    assert(u64_be_bytes(b.w1) =~= b.spec_bytes().subrange(8, 16));
    assert(u64_be_bytes(b.w2) =~= b.spec_bytes().subrange(16, 24));
    assert(u64_be_bytes(b.w3) =~= b.spec_bytes().subrange(24, 32));
    lemma_u64_be_bytes_injective(a.w0, b.w0);
    lemma_u64_be_bytes_injective(a.w1, b.w1);
    lemma_u64_be_bytes_injective(a.w2, b.w2);
    lemma_u64_be_bytes_injective(a.w3, b.w3);
}

} // verus!
