use blst_ringct::commitment::RevealedCommitment;
use blst_ringct::group::{Point, Scalar};
use blst_ringct::mlsag::{DecoyInput, MlsagMaterial, SigningNonces, TrueInput};
use blst_ringct::Error;
use blstrs::G1Projective;
use bls_bulletproofs::group::ff::Field;
use bls_bulletproofs::group::Group;
use rand_core::OsRng;

fn random_scalar() -> Scalar {
    Scalar { bytes: blstrs::Scalar::random(&mut OsRng).to_bytes_le() }
}

fn random_point() -> Point {
    Point { bytes: G1Projective::random(&mut OsRng).to_compressed() }
}

fn nonces_at(pi: u32, ring_size: usize) -> SigningNonces {
    SigningNonces {
        pi,
        alpha: (random_scalar(), random_scalar()),
        r: (0..ring_size).map(|_| (random_scalar(), random_scalar())).collect(),
    }
}

/// A material with `decoys` random decoys, and an opening of the true input's
/// value under a fresh blinding.
fn setup(secret_key: Scalar, decoys: usize) -> (MlsagMaterial, RevealedCommitment) {
    let true_input = TrueInput {
        secret_key,
        revealed_commitment: RevealedCommitment { value: 9, blinding: random_scalar() },
    };
    let decoy_inputs = (0..decoys)
        .map(|_| DecoyInput { public_key: random_point(), commitment: random_point() })
        .collect();
    let pseudo = true_input.random_pseudo_commitment(random_scalar());
    (MlsagMaterial { true_input, decoy_inputs }, pseudo)
}

fn ledger_commitments(m: &MlsagMaterial, pi: usize) -> Vec<Point> {
    m.commitments(pi)
}

#[test]
fn ring_signature_verifies_at_every_position() {
    let (m, pseudo) = setup(random_scalar(), 3);
    for pi in 0..4u32 {
        let sig = m.sign(b"message", &pseudo, &nonces_at(pi, 4));
        assert_eq!(sig.ring.len(), 4);
        assert_eq!(sig.r.len(), 4);
        assert_eq!(sig.ring[pi as usize].0.bytes, m.true_input.public_key().bytes);
        assert!(sig.verify(b"message", &ledger_commitments(&m, pi as usize)).is_ok());
    }
}

#[test]
fn ring_without_decoys_verifies() {
    let (m, pseudo) = setup(random_scalar(), 0);
    let sig = m.sign(b"", &pseudo, &nonces_at(7, 1));
    assert_eq!(sig.ring.len(), 1);
    assert!(sig.verify(b"", &ledger_commitments(&m, 0)).is_ok());
}

#[test]
fn hidden_commitments_are_ledger_minus_pseudo() {
    let (m, pseudo) = setup(random_scalar(), 2);
    let sig = m.sign(b"m", &pseudo, &nonces_at(1, 3));
    let pc = pseudo.commit();
    for (i, c) in ledger_commitments(&m, 1).iter().enumerate() {
        assert_eq!(sig.ring[i].1.bytes, c.sub(&pc).bytes);
    }
    assert_eq!(sig.pseudo_commitment().bytes, pc.bytes);
}

#[test]
fn key_image_depends_on_secret_key_alone() {
    let sk = random_scalar();
    let (m1, pseudo_a) = setup(sk, 2);
    let (m2, pseudo_b) = setup(sk, 4);
    let s1 = m1.sign(b"one", &pseudo_a, &nonces_at(0, 3));
    let s2 = m2.sign(b"two", &pseudo_b, &nonces_at(3, 5));
    assert_eq!(s1.key_image.bytes, s2.key_image.bytes);
    let (m3, pseudo_c) = setup(random_scalar(), 2);
    let s3 = m3.sign(b"one", &pseudo_c, &nonces_at(0, 3));
    assert_ne!(s1.key_image.bytes, s3.key_image.bytes);
}

#[test]
fn altered_response_is_rejected() {
    let (m, pseudo) = setup(random_scalar(), 2);
    let mut sig = m.sign(b"m", &pseudo, &nonces_at(2, 3));
    sig.r[0].1 = sig.r[0].1.add(&Scalar::from_u64(1));
    assert!(matches!(sig.verify(b"m", &ledger_commitments(&m, 2)), Err(Error::InvalidRingSignature)));
}

#[test]
fn altered_c0_is_rejected() {
    let (m, pseudo) = setup(random_scalar(), 2);
    let mut sig = m.sign(b"m", &pseudo, &nonces_at(0, 3));
    sig.c0 = sig.c0.add(&Scalar::from_u64(1));
    assert!(matches!(sig.verify(b"m", &ledger_commitments(&m, 0)), Err(Error::InvalidRingSignature)));
}

#[test]
fn altered_public_key_is_rejected() {
    let (m, pseudo) = setup(random_scalar(), 2);
    let mut sig = m.sign(b"m", &pseudo, &nonces_at(1, 3));
    sig.ring[0].0 = random_point();
    assert!(matches!(sig.verify(b"m", &ledger_commitments(&m, 1)), Err(Error::InvalidRingSignature)));
}

#[test]
fn altered_hidden_commitment_is_rejected() {
    let (m, pseudo) = setup(random_scalar(), 2);
    let mut sig = m.sign(b"m", &pseudo, &nonces_at(1, 3));
    sig.ring[2].1 = random_point();
    assert!(matches!(
        sig.verify(b"m", &ledger_commitments(&m, 1)),
        Err(Error::InvalidHiddenCommitmentInRing)
    ));
}

#[test]
fn other_key_image_is_rejected() {
    let (m, pseudo) = setup(random_scalar(), 2);
    let mut sig = m.sign(b"m", &pseudo, &nonces_at(1, 3));
    sig.key_image = random_point();
    assert!(matches!(sig.verify(b"m", &ledger_commitments(&m, 1)), Err(Error::InvalidRingSignature)));
}

#[test]
fn non_canonical_response_is_rejected() {
    let (m, pseudo) = setup(random_scalar(), 1);
    let mut sig = m.sign(b"m", &pseudo, &nonces_at(0, 2));
    sig.r[1].0 = Scalar { bytes: [0xff; 32] };
    assert!(matches!(sig.verify(b"m", &ledger_commitments(&m, 0)), Err(Error::InvalidRingSignature)));
}

#[test]
fn empty_ring_is_rejected() {
    let (m, pseudo) = setup(random_scalar(), 1);
    let mut sig = m.sign(b"m", &pseudo, &nonces_at(0, 2));
    sig.ring.clear();
    assert!(matches!(sig.verify(b"m", &[]), Err(Error::InvalidRingSignature)));
}

#[test]
fn count_and_keys_of_material() {
    let (m, _) = setup(random_scalar(), 2);
    assert_eq!(m.count_inputs(), 3);
    let keys = m.public_keys(1);
    assert_eq!(keys.len(), 3);
    assert_eq!(keys[0].bytes, m.decoy_inputs[0].public_key().bytes);
    assert_eq!(keys[1].bytes, m.true_input.public_key().bytes);
    assert_eq!(keys[2].bytes, m.decoy_inputs[1].public_key().bytes);
    let cs = m.commitments(0);
    assert_eq!(cs[0].bytes, m.true_input.revealed_commitment().commit().bytes);
    assert_eq!(cs[1].bytes, m.decoy_inputs[0].commitment().bytes);
}
