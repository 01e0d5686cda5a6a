use blst_ringct::commitment::{u64_to_le_bytes, RevealedCommitment};
use blst_ringct::group::{Point, Scalar};
use blst_ringct::hash::{c_hash, hash_to_scalar};

fn scalar(v: u64) -> Scalar {
    Scalar::from_u64(v)
}

#[test]
fn scalar_from_u64_is_little_endian() {
    let s = scalar(0x0102);
    assert_eq!(s.bytes[0], 2);
    assert_eq!(s.bytes[1], 1);
    assert!(s.bytes[2..].iter().all(|b| *b == 0));
}

#[test]
fn scalar_arithmetic() {
    assert_eq!(scalar(2).add(&scalar(3)).bytes, scalar(5).bytes);
    assert_eq!(scalar(7).sub(&scalar(3)).bytes, scalar(4).bytes);
    assert_eq!(scalar(6).mul(&scalar(7)).bytes, scalar(42).bytes);
    // 0 - 1 is the field order minus one.
    let minus_one = scalar(0).sub(&scalar(1));
    let mut expected = [0u8; 32];
    let q_minus_one: [u8; 32] = [
        0x00, 0x00, 0x00, 0x00, 0xff, 0xff, 0xff, 0xff, 0xfe, 0x5b, 0xfe, 0xff, 0x02, 0xa4, 0xbd, 0x53,
        0x05, 0xd8, 0xa1, 0x09, 0x08, 0xd8, 0x39, 0x33, 0x48, 0x7d, 0x9d, 0x29, 0x53, 0xa7, 0xed, 0x73,
    ];
    expected.copy_from_slice(&q_minus_one);
    assert_eq!(minus_one.bytes, expected);
    assert_eq!(minus_one.add(&scalar(1)).bytes, scalar(0).bytes);
}

#[test]
fn scalar_canonical_check() {
    assert!(Scalar::from_bytes_le([0xff; 32]).is_none());
    assert!(Scalar::from_bytes_le([0x01; 32]).is_some());
    assert!(!Scalar { bytes: [0xff; 32] }.is_canonical());
}

#[test]
fn point_arithmetic() {
    let g = Point::base_mul(&scalar(1));
    let g2 = Point::base_mul(&scalar(2));
    assert!(g.is_valid());
    assert_eq!(g.add(&g).bytes, g2.bytes);
    assert_eq!(g2.sub(&g).bytes, g.bytes);
    assert_eq!(g.mul(&scalar(3)).bytes, Point::base_mul(&scalar(3)).bytes);
    assert_ne!(g.hash_to_curve().bytes, g.bytes);
    assert!(g.hash_to_curve().is_valid());
    assert_eq!(g.hash_to_curve().bytes, g.hash_to_curve().bytes);
    assert!(Point::identity().is_identity());
    assert!(!g.is_identity());
    assert!(Point::identity().is_valid());
}

#[test]
fn commitment_blinding_uses_the_generator() {
    let opening = RevealedCommitment::from_value(0, scalar(5));
    assert_eq!(opening.commit().bytes, Point::base_mul(&scalar(5)).bytes);
    let a = RevealedCommitment::from_value(3, scalar(5)).commit();
    let b = RevealedCommitment::from_value(3, scalar(2)).commit();
    assert_eq!(a.sub(&b).bytes, Point::base_mul(&scalar(3)).bytes);
}

#[test]
fn opening_bytes_layout() {
    let opening = RevealedCommitment::from_value(0x0102030405060708, scalar(9));
    let bytes = opening.to_bytes();
    assert_eq!(bytes.len(), 40);
    assert_eq!(&bytes[0..8], &[8, 7, 6, 5, 4, 3, 2, 1]);
    assert_eq!(bytes[8], 9);
    assert_eq!(u64_to_le_bytes(u64::MAX), vec![0xff; 8]);
}

#[test]
fn hash_to_scalar_of_abc_is_its_digest() {
    let digest: [u8; 32] = [
        0x3a, 0x98, 0x5d, 0xa7, 0x4f, 0xe2, 0x25, 0xb2, 0x04, 0x5c, 0x17, 0x2d, 0x6b, 0xd3, 0x90, 0xbd,
        0x85, 0x5f, 0x08, 0x6e, 0x3e, 0x9d, 0x52, 0x5b, 0x46, 0xbf, 0xe2, 0x45, 0x11, 0x43, 0x15, 0x32,
    ];
    assert_eq!(hash_to_scalar(b"abc").bytes, digest);
}

#[test]
fn hash_to_scalar_is_canonical_and_deterministic() {
    for i in 0..50u8 {
        let data = [i; 5];
        let s = hash_to_scalar(&data);
        assert!(s.is_canonical());
        assert_eq!(s.bytes, hash_to_scalar(&data).bytes);
    }
}

#[test]
fn challenge_hash_binds_every_part() {
    let g = Point::base_mul(&scalar(1));
    let h = Point::base_mul(&scalar(2));
    let c = c_hash(b"m", &g, &g, &g);
    assert_ne!(c.bytes, c_hash(b"n", &g, &g, &g).bytes);
    assert_ne!(c.bytes, c_hash(b"m", &h, &g, &g).bytes);
    assert_ne!(c.bytes, c_hash(b"m", &g, &g, &h).bytes);
    let mut data = b"m".to_vec();
    data.extend_from_slice(&g.bytes);
    data.extend_from_slice(&g.bytes);
    data.extend_from_slice(&g.bytes);
    assert_eq!(c.bytes, hash_to_scalar(&data).bytes);
}
