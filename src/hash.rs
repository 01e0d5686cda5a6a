//! Hashing onto the scalar field and the challenge hash of the ring signature.
use crate::group::{field_order, le_value, Point, Scalar};
use tiny_keccak::{Hasher, Sha3};
use vstd::prelude::*;

verus! {

/// SHA3-256 digest of a byte string.
pub uninterp spec fn sha3_256(data: Seq<u8>) -> Seq<u8>;

/// How many times a digest is hashed again while it is not a canonical scalar.
/// Each try succeeds with probability above 1/5, so the bound is never met.
pub const REHASH_LIMIT: u64 = 0xffff_ffff_ffff_ffff;

/// The first canonical scalar encoding among `d`, `sha3(d)`, `sha3(sha3(d))`,
/// ..., trying at most `fuel` more hashes (zero where none is found).
pub open spec fn first_canonical(d: Seq<u8>, fuel: nat) -> Seq<u8>
    decreases fuel,
{
    if le_value(d) < field_order() {
        d
    } else if fuel == 0 {
        Seq::new(32, |i: int| 0u8)
    } else {
        first_canonical(sha3_256(d), (fuel - 1) as nat)
    }
}

/// The scalar that a byte string hashes to.
pub open spec fn hash_to_scalar_spec(data: Seq<u8>) -> Seq<u8> {
    first_canonical(sha3_256(data), REHASH_LIMIT as nat)
}

/// The challenge of the ring signature: the message and the three compressed
/// points, hashed to a scalar.
pub open spec fn challenge(msg: Seq<u8>, l1: Seq<u8>, l2: Seq<u8>, r1: Seq<u8>) -> Seq<u8> {
    hash_to_scalar_spec(msg + l1 + l2 + r1)
}

/// Relies on `tiny_keccak::Sha3::v256`: the digest of all bytes fed to it.
#[verifier::external_body]
fn sha3_digest(data: &[u8]) -> (r: [u8; 32])
    ensures
        r@ == sha3_256(data@),
{
    let mut sha3 = Sha3::v256();
    sha3.update(data);
    let mut hash = [0u8; 32];
    sha3.finalize(&mut hash);
    hash
}

proof fn lemma_le_value_zeros(n: nat)
    ensures
        le_value(Seq::new(n, |i: int| 0u8)) == 0,
    decreases n,
{
    if n > 0 {
        assert(Seq::new(n, |i: int| 0u8).drop_first() =~= Seq::new((n - 1) as nat, |i: int| 0u8));
        lemma_le_value_zeros((n - 1) as nat);
    }
}

/// Appends bytes to a buffer.
pub fn extend_bytes(v: &mut Vec<u8>, b: &[u8])
    ensures
        final(v)@ == old(v)@ + b@,
{
    let mut i: usize = 0;
    while i < b.len()
        invariant
            i <= b@.len(),
            v@ == old(v)@ + b@.subrange(0, i as int),
        decreases b@.len() - i,
    {
        v.push(b[i]);
        i += 1;
        assert(b@.subrange(0, i as int) =~= b@.subrange(0, (i - 1) as int).push(b@[i - 1]));
    }
    assert(b@.subrange(0, i as int) =~= b@);
}

/// Hashes bytes to a scalar: the SHA3-256 digest read in little-endian,
/// hashed again while it is not below the field order.
pub fn hash_to_scalar(data: &[u8]) -> (r: Scalar)
    ensures
        r.wf(),
        r.bytes@ == hash_to_scalar_spec(data@),
{
    let mut h: [u8; 32] = sha3_digest(data);
    let mut fuel: u64 = REHASH_LIMIT;
    loop
        invariant
            first_canonical(h@, fuel as nat) == hash_to_scalar_spec(data@),
        decreases fuel,
    {
        match Scalar::from_bytes_le(h) {
            Some(s) => {
                return s;
            },
            None => {},
        }
        if fuel == 0 {
            let z = Scalar { bytes: [0u8; 32] };
            proof {
                assert(z.bytes@ =~= Seq::new(32, |i: int| 0u8));
                lemma_le_value_zeros(32);
            }
            return z;
        }
        h = sha3_digest(&h);
        fuel = fuel - 1;
    }
}

/// The challenge hash: `hash_to_scalar(msg || l1 || l2 || r1)` over compressed points.
pub fn c_hash(msg: &[u8], l1: &Point, l2: &Point, r1: &Point) -> (r: Scalar)
    ensures
        r.wf(),
        r.bytes@ == challenge(msg@, l1.bytes@, l2.bytes@, r1.bytes@),
{
    let mut data: Vec<u8> = Vec::new();
    extend_bytes(&mut data, msg);
    extend_bytes(&mut data, &l1.bytes);
    extend_bytes(&mut data, &l2.bytes);
    extend_bytes(&mut data, &r1.bytes);
    hash_to_scalar(&data)
}

} // verus!
