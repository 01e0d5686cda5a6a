//! Scalars and points of BLS12-381 G1, held as their canonical byte encodings.
//!
//! The curve arithmetic itself is done by `blstrs`; each operation below names
//! its result and states the facts that callers rely on.
use blstrs::{G1Affine, G1Projective};
use bls_bulletproofs::group::{Curve, Group};
use vstd::prelude::*;

verus! {

/// Order of the scalar field of BLS12-381 (the order of the group G1).
pub open spec fn field_order() -> int {
    52435875175126190479447740508185965837690552500527637822603658699938581184513int
}

/// Little-endian value of a byte string.
pub open spec fn le_value(b: Seq<u8>) -> nat
    decreases b.len(),
{
    if b.len() == 0 {
        0
    } else {
        b[0] as nat + 256 * le_value(b.drop_first())
    }
}

/// `G1Affine::from_compressed` accepts these 48 bytes: they encode a point of
/// the prime-order subgroup.
pub uninterp spec fn g1_valid(b: Seq<u8>) -> bool;

/// Compressed encoding of the sum of two points.
pub uninterp spec fn g1_add(a: Seq<u8>, b: Seq<u8>) -> Seq<u8>;

/// Compressed encoding of the difference of two points.
pub uninterp spec fn g1_sub(a: Seq<u8>, b: Seq<u8>) -> Seq<u8>;

/// Compressed encoding of a point multiplied by a scalar.
pub uninterp spec fn g1_mul(p: Seq<u8>, k: int) -> Seq<u8>;

/// Compressed encoding of the canonical generator of G1 multiplied by a scalar.
pub uninterp spec fn g1_base_mul(k: int) -> Seq<u8>;

/// Compressed encoding of the point that `hash_to_curve` gives for a message
/// under a domain tag.
pub uninterp spec fn g1_hash(dst: Seq<char>, msg: Seq<u8>) -> Seq<u8>;

/// Compressed encoding of the identity of G1: the flags byte 0xc0 (compressed,
/// infinity), then zeros.
pub open spec fn identity_encoding() -> Seq<u8> {
    seq![0xc0u8].add(Seq::new(47, |i: int| 0u8))
}

/// An element of the scalar field, as 32 little-endian bytes.
#[derive(Clone, Copy, Debug)]
pub struct Scalar {
    pub bytes: [u8; 32],
}

impl Scalar {
    /// The integer that the bytes hold.
    pub open spec fn val(self) -> int {
        le_value(self.bytes@) as int
    }

    /// The bytes are the canonical encoding of a field element.
    pub open spec fn wf(self) -> bool {
        self.val() < field_order()
    }

    /// Scalar from an integer.
    pub fn from_u64(v: u64) -> (r: Scalar)
        ensures
            r.wf(),
            r.val() == v,
    {
        scalar_from_u64(v)
    }

    /// Scalar from 32 little-endian bytes; `None` where they are not canonical.
    pub fn from_bytes_le(bytes: [u8; 32]) -> (r: Option<Scalar>)
        ensures
            r.is_some() == (le_value(bytes@) < field_order()),
            r.is_some() ==> r.unwrap().bytes == bytes,
    {
        if scalar_is_canonical(&bytes) {
            Some(Scalar { bytes })
        } else {
            None
        }
    }

    /// The bytes are a canonical encoding.
    pub fn is_canonical(&self) -> (r: bool)
        ensures
            r == self.wf(),
    {
        scalar_is_canonical(&self.bytes)
    }

    /// Field addition.
    pub fn add(&self, o: &Scalar) -> (r: Scalar)
        requires
            self.wf(),
            o.wf(),
        ensures
            r.wf(),
            r.val() == (self.val() + o.val()) % field_order(),
    {
        scalar_add(self, o)
    }

    /// Field subtraction.
    pub fn sub(&self, o: &Scalar) -> (r: Scalar)
        requires
            self.wf(),
            o.wf(),
        ensures
            r.wf(),
            r.val() == (self.val() - o.val()) % field_order(),
    {
        scalar_sub(self, o)
    }

    /// Field multiplication.
    pub fn mul(&self, o: &Scalar) -> (r: Scalar)
        requires
            self.wf(),
            o.wf(),
        ensures
            r.wf(),
            r.val() == (self.val() * o.val()) % field_order(),
    {
        scalar_mul(self, o)
    }

    /// Equality of the encodings.
    pub fn equals(&self, o: &Scalar) -> (r: bool)
        ensures
            r == (self.bytes@ == o.bytes@),
    {
        let mut i: usize = 0;
        while i < 32
            invariant
                i <= 32,
                forall|j: int| 0 <= j < i ==> self.bytes@[j] == o.bytes@[j],
            decreases 32 - i,
        {
            if self.bytes[i] != o.bytes[i] {
                return false;
            }
            i += 1;
        }
        assert(self.bytes@ =~= o.bytes@);
        true
    }
}

/// Relies on `Scalar::from_bytes_le` of blstrs: it succeeds exactly on the
/// canonical encodings, those below the field order.
#[verifier::external_body]
fn scalar_is_canonical(b: &[u8; 32]) -> (r: bool)
    ensures
        r == (le_value(b@) < field_order()),
{
    bool::from(blstrs::Scalar::from_bytes_le(b).is_some())
}

/// Relies on `From<u64> for Scalar` and `Scalar::to_bytes_le` of blstrs: the
/// integer, encoded in little-endian.
#[verifier::external_body]
fn scalar_from_u64(v: u64) -> (r: Scalar)
    ensures
        r.val() == v,
{
    Scalar { bytes: blstrs::Scalar::from(v).to_bytes_le() }
}

/// Relies on `Add for Scalar` of blstrs: addition modulo the field order.
#[verifier::external_body]
fn scalar_add(a: &Scalar, b: &Scalar) -> (r: Scalar)
    requires
        a.wf(),
        b.wf(),
    ensures
        r.val() == (a.val() + b.val()) % field_order(),
{
    let x = blstrs::Scalar::from_bytes_le(&a.bytes).unwrap();
    let y = blstrs::Scalar::from_bytes_le(&b.bytes).unwrap();
    Scalar { bytes: (x + y).to_bytes_le() }
}

/// Relies on `Sub for Scalar` of blstrs: subtraction modulo the field order.
#[verifier::external_body]
fn scalar_sub(a: &Scalar, b: &Scalar) -> (r: Scalar)
    requires
        a.wf(),
        b.wf(),
    ensures
        r.val() == (a.val() - b.val()) % field_order(),
{
    let x = blstrs::Scalar::from_bytes_le(&a.bytes).unwrap();
    let y = blstrs::Scalar::from_bytes_le(&b.bytes).unwrap();
    Scalar { bytes: (x - y).to_bytes_le() }
}

/// Relies on `Mul for Scalar` of blstrs: multiplication modulo the field order.
#[verifier::external_body]
fn scalar_mul(a: &Scalar, b: &Scalar) -> (r: Scalar)
    requires
        a.wf(),
        b.wf(),
    ensures
        r.val() == (a.val() * b.val()) % field_order(),
{
    let x = blstrs::Scalar::from_bytes_le(&a.bytes).unwrap();
    let y = blstrs::Scalar::from_bytes_le(&b.bytes).unwrap();
    Scalar { bytes: (x * y).to_bytes_le() }
}

/// A point of G1, as its 48-byte compressed encoding. Any 48 bytes can stand
/// here; `g1_valid` says when they encode a point of the group.
#[derive(Clone, Copy, Debug)]
pub struct Point {
    pub bytes: [u8; 48],
}

/// Domain separation tag of the hash onto the curve.
pub const HASH_TO_CURVE_DOMAIN: &'static str = "blst-ringct-hash-to-curve";

impl Point {
    /// The bytes encode a point of the prime-order group.
    pub open spec fn valid(self) -> bool {
        g1_valid(self.bytes@)
    }

    /// Whether the bytes encode a point of the prime-order group (on the curve
    /// and free of torsion).
    pub fn is_valid(&self) -> (r: bool)
        ensures
            r == self.valid(),
    {
        point_is_valid(&self.bytes)
    }

    /// The identity of the group.
    pub fn identity() -> (r: Point)
        ensures
            r.bytes@ == identity_encoding(),
    {
        let mut bytes: [u8; 48] = [0u8; 48];
        bytes[0] = 0xc0u8;
        let r = Point { bytes };
        assert(r.bytes@ =~= identity_encoding());
        r
    }

    /// Whether the bytes are the encoding of the identity.
    pub fn is_identity(&self) -> (r: bool)
        ensures
            r == (self.bytes@ == identity_encoding()),
    {
        let id = Point::identity();
        self.equals(&id)
    }

    /// Equality of the encodings.
    pub fn equals(&self, o: &Point) -> (r: bool)
        ensures
            r == (self.bytes@ == o.bytes@),
    {
        let mut i: usize = 0;
        while i < 48
            invariant
                i <= 48,
                forall|j: int| 0 <= j < i ==> self.bytes@[j] == o.bytes@[j],
            decreases 48 - i,
        {
            if self.bytes[i] != o.bytes[i] {
                return false;
            }
            i += 1;
        }
        assert(self.bytes@ =~= o.bytes@);
        true
    }

    /// Sum of two points.
    pub fn add(&self, o: &Point) -> (r: Point)
        requires
            self.valid(),
            o.valid(),
        ensures
            r.valid(),
            r.bytes@ == g1_add(self.bytes@, o.bytes@),
            forall|x: int, y: int|
                #![trigger g1_base_mul(x), g1_base_mul(y)]
                0 <= x < field_order() && 0 <= y < field_order() && self.bytes@ == g1_base_mul(x) && o.bytes@ == g1_base_mul(y)
                    ==> r.bytes@ == g1_base_mul((x + y) % field_order()),
            forall|p: Seq<u8>, x: int, y: int|
                #![trigger g1_mul(p, x), g1_mul(p, y)]
                g1_valid(p) && 0 <= x < field_order() && 0 <= y < field_order() && self.bytes@ == g1_mul(p, x) && o.bytes@ == g1_mul(p, y)
                    ==> r.bytes@ == g1_mul(p, (x + y) % field_order()),
    {
        point_add(self, o)
    }

    /// Difference of two points.
    pub fn sub(&self, o: &Point) -> (r: Point)
        requires
            self.valid(),
            o.valid(),
        ensures
            r.valid(),
            r.bytes@ == g1_sub(self.bytes@, o.bytes@),
            forall|v: int, x: int, y: int|
                #![trigger crate::commitment::pedersen_commit(v, x), crate::commitment::pedersen_commit(v, y)]
                0 <= x < field_order() && 0 <= y < field_order() && self.bytes@ == crate::commitment::pedersen_commit(v, x)
                    && o.bytes@ == crate::commitment::pedersen_commit(v, y) ==> r.bytes@ == g1_base_mul((x - y) % field_order()),
    {
        point_sub(self, o)
    }

    /// The point multiplied by a scalar.
    pub fn mul(&self, k: &Scalar) -> (r: Point)
        requires
            self.valid(),
            k.wf(),
        ensures
            r.valid(),
            r.bytes@ == g1_mul(self.bytes@, k.val()),
            forall|x: int|
                #![trigger g1_base_mul(x)]
                0 <= x < field_order() && self.bytes@ == g1_base_mul(x) ==> r.bytes@ == g1_base_mul((x * k.val()) % field_order()),
            forall|q: Seq<u8>, x: int|
                #![trigger g1_mul(q, x)]
                g1_valid(q) && 0 <= x < field_order() && self.bytes@ == g1_mul(q, x) ==> r.bytes@ == g1_mul(q, (x * k.val()) % field_order()),
    {
        point_mul(self, k)
    }

    /// The canonical generator multiplied by a scalar.
    pub fn base_mul(k: &Scalar) -> (r: Point)
        requires
            k.wf(),
        ensures
            r.valid(),
            r.bytes@ == g1_base_mul(k.val()),
    {
        point_base_mul(k)
    }

    /// The point that the hash onto the curve gives for this point.
    pub fn hash_to_curve(&self) -> (r: Point)
        ensures
            r.valid(),
            r.bytes@ == g1_hash(HASH_TO_CURVE_DOMAIN@, self.bytes@),
    {
        point_hash(self, HASH_TO_CURVE_DOMAIN)
    }
}

/// Relies on `G1Affine::from_compressed` of blstrs: whether it accepts the bytes.
#[verifier::external_body]
fn point_is_valid(b: &[u8; 48]) -> (r: bool)
    ensures
        r == g1_valid(b@),
{
    bool::from(G1Affine::from_compressed(b).is_some())
}

/// Relies on `Add for G1Projective` of blstrs, and on `to_compressed`, whose
/// output `from_compressed` accepts. G1 has prime order: `x·P + y·P = (x+y)·P`,
/// exponents taken modulo the field order.
#[verifier::external_body]
fn point_add(a: &Point, b: &Point) -> (r: Point)
    requires
        g1_valid(a.bytes@),
        g1_valid(b.bytes@),
    ensures
        g1_valid(r.bytes@),
        r.bytes@ == g1_add(a.bytes@, b.bytes@),
        forall|x: int, y: int|
            #![trigger g1_base_mul(x), g1_base_mul(y)]
            0 <= x < field_order() && 0 <= y < field_order() && a.bytes@ == g1_base_mul(x) && b.bytes@ == g1_base_mul(y)
                ==> r.bytes@ == g1_base_mul((x + y) % field_order()),
        forall|p: Seq<u8>, x: int, y: int|
            #![trigger g1_mul(p, x), g1_mul(p, y)]
            g1_valid(p) && 0 <= x < field_order() && 0 <= y < field_order() && a.bytes@ == g1_mul(p, x) && b.bytes@ == g1_mul(p, y)
                ==> r.bytes@ == g1_mul(p, (x + y) % field_order()),
{
    let x = G1Projective::from(G1Affine::from_compressed(&a.bytes).unwrap());
    let y = G1Affine::from_compressed(&b.bytes).unwrap();
    Point { bytes: (x + y).to_compressed() }
}

/// Relies on `Sub for G1Projective` of blstrs, and on `to_compressed`, whose
/// output `from_compressed` accepts. Two commitments to one value under the
/// default Pedersen generators of bls_bulletproofs (`B_blinding` is the G1
/// generator) differ by `(x-y)·G`.
#[verifier::external_body]
fn point_sub(a: &Point, b: &Point) -> (r: Point)
    requires
        g1_valid(a.bytes@),
        g1_valid(b.bytes@),
    ensures
        g1_valid(r.bytes@),
        r.bytes@ == g1_sub(a.bytes@, b.bytes@),
        forall|v: int, x: int, y: int|
            #![trigger crate::commitment::pedersen_commit(v, x), crate::commitment::pedersen_commit(v, y)]
            0 <= x < field_order() && 0 <= y < field_order() && a.bytes@ == crate::commitment::pedersen_commit(v, x)
                && b.bytes@ == crate::commitment::pedersen_commit(v, y) ==> r.bytes@ == g1_base_mul((x - y) % field_order()),
{
    let x = G1Projective::from(G1Affine::from_compressed(&a.bytes).unwrap());
    let y = G1Affine::from_compressed(&b.bytes).unwrap();
    Point { bytes: (x - y).to_compressed() }
}

/// Relies on `Mul<Scalar> for G1Affine` of blstrs, and on `to_compressed`, whose
/// output `from_compressed` accepts. G1 has prime order: `k·(x·P) = (x·k)·P`,
/// exponents taken modulo the field order.
#[verifier::external_body]
fn point_mul(p: &Point, k: &Scalar) -> (r: Point)
    requires
        g1_valid(p.bytes@),
        k.wf(),
    ensures
        g1_valid(r.bytes@),
        r.bytes@ == g1_mul(p.bytes@, k.val()),
        forall|x: int|
            #![trigger g1_base_mul(x)]
            0 <= x < field_order() && p.bytes@ == g1_base_mul(x) ==> r.bytes@ == g1_base_mul((x * k.val()) % field_order()),
        forall|q: Seq<u8>, x: int|
            #![trigger g1_mul(q, x)]
            g1_valid(q) && 0 <= x < field_order() && p.bytes@ == g1_mul(q, x) ==> r.bytes@ == g1_mul(q, (x * k.val()) % field_order()),
{
    let x = G1Affine::from_compressed(&p.bytes).unwrap();
    let s = blstrs::Scalar::from_bytes_le(&k.bytes).unwrap();
    Point { bytes: (x * s).to_compressed() }
}

/// Relies on `G1Projective::generator` and `Mul<Scalar> for G1Projective` of
/// blstrs, and on `to_compressed`, whose output `from_compressed` accepts.
#[verifier::external_body]
fn point_base_mul(k: &Scalar) -> (r: Point)
    requires
        k.wf(),
    ensures
        g1_valid(r.bytes@),
        r.bytes@ == g1_base_mul(k.val()),
{
    let s = blstrs::Scalar::from_bytes_le(&k.bytes).unwrap();
    Point { bytes: (G1Projective::generator() * s).to_compressed() }
}

/// Relies on `G1Projective::hash_to_curve` of blstrs, which maps any message
/// into G1; its result depends on the tag and the message alone.
#[verifier::external_body]
fn point_hash(p: &Point, dst: &str) -> (r: Point)
    ensures
        g1_valid(r.bytes@),
        r.bytes@ == g1_hash(dst@, p.bytes@),
{
    let h = G1Projective::hash_to_curve(&p.bytes, dst.as_bytes(), &[]);
    Point { bytes: h.to_affine().to_compressed() }
}

} // verus!
