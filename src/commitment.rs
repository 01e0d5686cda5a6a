//! Pedersen commitments and their openings.
use crate::group::{g1_valid, Point, Scalar};
use bls_bulletproofs::PedersenGens;
use vstd::prelude::*;

verus! {

/// Compressed encoding of `blinding·G + value·H` over the default Pedersen
/// generators of the range-proof library.
pub uninterp spec fn pedersen_commit(value: int, blinding: int) -> Seq<u8>;

/// The `n` low bytes of `v`, least significant first.
pub open spec fn le_bytes(v: nat, n: nat) -> Seq<u8>
    decreases n,
{
    if n == 0 {
        Seq::empty()
    } else {
        seq![(v % 256) as u8] + le_bytes(v / 256, (n - 1) as nat)
    }
}

/// Bytes of a `u64` in little-endian order.
pub fn u64_to_le_bytes(v: u64) -> (r: Vec<u8>)
    ensures
        r@ == le_bytes(v as nat, 8),
{
    let mut out: Vec<u8> = Vec::new();
    let mut x: u64 = v;
    let mut i: usize = 0;
    while i < 8
        invariant
            i <= 8,
            out@ + le_bytes(x as nat, (8 - i) as nat) == le_bytes(v as nat, 8),
        decreases 8 - i,
    {
        let ghost before = out@;
        out.push((x % 256) as u8);
        proof {
            assert(le_bytes(x as nat, (8 - i) as nat) == seq![(x as nat % 256) as u8] + le_bytes(
                x as nat / 256,
                (8 - i - 1) as nat,
            ));
            assert(before + le_bytes(x as nat, (8 - i) as nat) =~= out@ + le_bytes(
                x as nat / 256,
                (8 - i - 1) as nat,
            ));
        }
        x = x / 256;
        i += 1;
    }
    assert(out@ =~= out@ + le_bytes(x as nat, 0));
    out
}

/// The opening of a Pedersen commitment: `commit() = blinding·G + value·H`.
#[derive(Clone, Copy, Debug)]
pub struct RevealedCommitment {
    pub value: u64,
    pub blinding: Scalar,
}

impl RevealedCommitment {
    /// The opening is of a scalar of the field.
    pub open spec fn wf(self) -> bool {
        self.blinding.wf()
    }

    /// The commitment this opens, compressed.
    pub open spec fn commitment(self) -> Seq<u8> {
        pedersen_commit(self.value as int, self.blinding.val())
    }

    /// An opening of `value` with the given blinding factor.
    pub fn from_value(value: u64, blinding: Scalar) -> (r: RevealedCommitment)
        ensures
            r.value == value,
            r.blinding == blinding,
    {
        RevealedCommitment { value, blinding }
    }

    pub fn value(&self) -> (r: u64)
        ensures
            r == self.value,
    {
        self.value
    }

    pub fn blinding(&self) -> (r: Scalar)
        ensures
            r == self.blinding,
    {
        self.blinding
    }

    /// The commitment `blinding·G + value·H`.
    pub fn commit(&self) -> (r: Point)
        requires
            self.wf(),
        ensures
            r.valid(),
            r.bytes@ == self.commitment(),
    {
        pedersen_commit_point(self.value, &self.blinding)
    }

    /// `value` in little-endian (8 bytes), then `blinding` in little-endian (32 bytes).
    pub fn to_bytes(&self) -> (r: Vec<u8>)
        ensures
            r@ == le_bytes(self.value as nat, 8) + self.blinding.bytes@,
    {
        let mut v = u64_to_le_bytes(self.value);
        crate::hash::extend_bytes(&mut v, &self.blinding.bytes);
        v
    }
}

/// Relies on `PedersenGens::default` and `PedersenGens::commit` of
/// bls_bulletproofs, which compute `value·B + blinding·B_blinding`, and on
/// blstrs' `to_compressed`, whose output `from_compressed` accepts.
#[verifier::external_body]
fn pedersen_commit_point(value: u64, blinding: &Scalar) -> (r: Point)
    requires
        blinding.wf(),
    ensures
        g1_valid(r.bytes@),
        r.bytes@ == pedersen_commit(value as int, blinding.val()),
{
    let b = blstrs::Scalar::from_bytes_le(&blinding.bytes).unwrap();
    let c = PedersenGens::default().commit(blstrs::Scalar::from(value), b);
    Point { bytes: c.to_compressed() }
}

} // verus!
