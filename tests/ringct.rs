use blst_ringct::commitment::RevealedCommitment;
use blst_ringct::group::{Point, Scalar};
use blst_ringct::mlsag::{DecoyInput, MlsagMaterial, SigningNonces, TrueInput};
use blst_ringct::ringct::{Output, RingCtMaterial, RingCtNonces, RingCtTransaction};
use blst_ringct::Error;
use bls_bulletproofs::ProofError;
use blstrs::G1Projective;
use bls_bulletproofs::group::ff::Field;
use bls_bulletproofs::group::Group;
use rand_core::OsRng;

fn random_scalar() -> Scalar {
    Scalar { bytes: blstrs::Scalar::random(&mut OsRng).to_bytes_le() }
}

fn random_point() -> Point {
    Point { bytes: G1Projective::random(&mut OsRng).to_compressed() }
}

fn random_nonces(ring_size: usize) -> SigningNonces {
    SigningNonces {
        pi: rand_core::RngCore::next_u32(&mut OsRng),
        alpha: (random_scalar(), random_scalar()),
        r: (0..ring_size).map(|_| (random_scalar(), random_scalar())).collect(),
    }
}

fn ringct_nonces(material: &RingCtMaterial) -> RingCtNonces {
    RingCtNonces {
        pseudo_blindings: material.inputs.iter().map(|_| random_scalar()).collect(),
        output_blindings: (1..material.outputs.len()).map(|_| random_scalar()).collect(),
        mlsags: material
            .inputs
            .iter()
            .map(|m| random_nonces(m.decoy_inputs.len() + 1))
            .collect(),
    }
}

/// Public keys and the commitments logged under them.
#[derive(Default)]
struct TestLedger {
    entries: Vec<(Point, Point)>,
}

impl TestLedger {
    fn log(&mut self, public_key: Point, commitment: Point) {
        self.entries.push((public_key, commitment));
    }

    fn lookup(&self, public_key: &Point) -> Option<Point> {
        self.entries
            .iter()
            .find(|(pk, _)| pk.bytes == public_key.bytes)
            .map(|(_, c)| *c)
    }

    fn fetch_decoys(&self, n: usize, exclude: &[Point]) -> Vec<DecoyInput> {
        self.entries
            .iter()
            .filter(|(pk, _)| !exclude.iter().any(|e| e.bytes == pk.bytes))
            .map(|(pk, c)| DecoyInput { public_key: *pk, commitment: *c })
            .take(n)
            .collect()
    }

    fn commitments_for(&self, tx: &RingCtTransaction) -> Vec<Vec<Point>> {
        tx.mlsags
            .iter()
            .map(|mlsag| {
                mlsag
                    .public_keys()
                    .iter()
                    .map(|pk| self.lookup(pk).unwrap())
                    .collect()
            })
            .collect()
    }
}

fn true_input(value: u64, blinding: u64) -> TrueInput {
    TrueInput {
        secret_key: random_scalar(),
        revealed_commitment: RevealedCommitment { value, blinding: Scalar::from_u64(blinding) },
    }
}

/// Logs the true input and two random entries, and builds the ring material.
fn material_with_decoys(ledger: &mut TestLedger, input: TrueInput) -> MlsagMaterial {
    ledger.log(input.public_key(), input.revealed_commitment.commit());
    ledger.log(random_point(), random_point());
    ledger.log(random_point(), random_point());
    let decoy_inputs = ledger.fetch_decoys(2, &[input.public_key()]);
    MlsagMaterial { true_input: input, decoy_inputs }
}

fn one_in_one_out() -> (TestLedger, Vec<u8>, RingCtTransaction) {
    let mut ledger = TestLedger::default();
    let input = material_with_decoys(&mut ledger, true_input(3, 5));
    let ring_ct = RingCtMaterial {
        inputs: vec![input],
        outputs: vec![Output { public_key: random_point(), amount: 3 }],
    };
    let nonces = ringct_nonces(&ring_ct);
    let (msg, tx, _openings) = ring_ct.sign(&nonces).expect("Failed to sign transaction");
    (ledger, msg, tx)
}

#[test]
fn test_ringct_sign() {
    let (ledger, msg, signed_tx) = one_in_one_out();
    let public_commitments = ledger.commitments_for(&signed_tx);
    assert!(signed_tx.verify(&msg, &public_commitments).is_ok());
}

#[test]
fn changed_message_is_rejected() {
    let (ledger, mut msg, tx) = one_in_one_out();
    let public_commitments = ledger.commitments_for(&tx);
    msg[0] ^= 1;
    assert!(matches!(tx.verify(&msg, &public_commitments), Err(Error::InvalidRingSignature)));
}

#[test]
fn replaced_pseudo_commitment_is_rejected() {
    let (ledger, msg, mut tx) = one_in_one_out();
    let public_commitments = ledger.commitments_for(&tx);
    tx.mlsags[0].pseudo_commitment = random_point();
    assert!(matches!(
        tx.verify(&msg, &public_commitments),
        Err(Error::InvalidHiddenCommitmentInRing)
    ));
}

#[test]
fn two_inputs_balance() {
    let mut ledger = TestLedger::default();
    let a = material_with_decoys(&mut ledger, true_input(2, 11));
    let b = material_with_decoys(&mut ledger, true_input(5, 13));
    let ring_ct = RingCtMaterial {
        inputs: vec![a, b],
        outputs: vec![Output { public_key: random_point(), amount: 7 }],
    };
    let nonces = ringct_nonces(&ring_ct);
    let (msg, tx, openings) = ring_ct.sign(&nonces).unwrap();
    assert_eq!(openings.len(), 1);
    assert_eq!(openings[0].value, 7);
    let public_commitments = ledger.commitments_for(&tx);
    assert!(tx.verify(&msg, &public_commitments).is_ok());
}

#[test]
fn unbalanced_amounts_are_rejected() {
    let mut ledger = TestLedger::default();
    let a = material_with_decoys(&mut ledger, true_input(2, 11));
    let b = material_with_decoys(&mut ledger, true_input(5, 13));
    let ring_ct = RingCtMaterial {
        inputs: vec![a, b],
        outputs: vec![Output { public_key: random_point(), amount: 8 }],
    };
    let nonces = ringct_nonces(&ring_ct);
    let (msg, tx, _) = ring_ct.sign(&nonces).unwrap();
    let public_commitments = ledger.commitments_for(&tx);
    assert!(matches!(
        tx.verify(&msg, &public_commitments),
        Err(Error::InputPseudoCommitmentsDoNotSumToOutputCommitments)
    ));
}

#[test]
fn output_blindings_add_up_to_pseudo_blindings() {
    let mut ledger = TestLedger::default();
    let a = material_with_decoys(&mut ledger, true_input(4, 1));
    let ring_ct = RingCtMaterial {
        inputs: vec![a],
        outputs: vec![
            Output { public_key: random_point(), amount: 1 },
            Output { public_key: random_point(), amount: 3 },
        ],
    };
    let nonces = ringct_nonces(&ring_ct);
    let (msg, tx, openings) = ring_ct.sign(&nonces).unwrap();
    let sum = openings[0].blinding.add(&openings[1].blinding);
    assert_eq!(sum.bytes, nonces.pseudo_blindings[0].bytes);
    assert_eq!(openings[0].blinding.bytes, nonces.output_blindings[0].bytes);
    assert_eq!(tx.outputs.len(), 2);
    for (proof, opening) in tx.outputs.iter().zip(openings.iter()) {
        assert_eq!(proof.commitment().bytes, opening.commit().bytes);
    }
    let public_commitments = ledger.commitments_for(&tx);
    assert!(tx.verify(&msg, &public_commitments).is_ok());
}

#[test]
fn message_starts_with_true_public_keys() {
    let mut ledger = TestLedger::default();
    let input = true_input(3, 5);
    let pk = input.public_key();
    let material = material_with_decoys(&mut ledger, input);
    let first_decoy = material.decoy_inputs[0].public_key;
    let ring_ct = RingCtMaterial {
        inputs: vec![material],
        outputs: vec![Output { public_key: random_point(), amount: 3 }],
    };
    let nonces = ringct_nonces(&ring_ct);
    let (msg, _, _) = ring_ct.sign(&nonces).unwrap();
    assert_eq!(&msg[0..48], &pk.bytes[..]);
    assert_eq!(&msg[48..96], &first_decoy.bytes[..]);
}

#[test]
fn short_commitment_list_is_rejected() {
    let (ledger, msg, tx) = one_in_one_out();
    let mut public_commitments = ledger.commitments_for(&tx);
    public_commitments[0].pop();
    assert!(matches!(
        tx.verify(&msg, &public_commitments),
        Err(Error::ExpectedAPublicCommitmentsForEachRingEntry)
    ));
}

#[test]
fn identity_key_image_is_rejected() {
    let (ledger, msg, mut tx) = one_in_one_out();
    let public_commitments = ledger.commitments_for(&tx);
    tx.mlsags[0].key_image = Point::identity();
    assert!(matches!(tx.verify(&msg, &public_commitments), Err(Error::KeyImageNotOnCurve)));
}

#[test]
fn off_curve_key_image_is_rejected() {
    let (ledger, msg, mut tx) = one_in_one_out();
    let public_commitments = ledger.commitments_for(&tx);
    let mut bytes = [0xffu8; 48];
    bytes[0] = 0x9f;
    tx.mlsags[0].key_image = Point { bytes };
    assert!(!tx.mlsags[0].key_image.is_valid());
    assert!(matches!(tx.verify(&msg, &public_commitments), Err(Error::KeyImageNotOnCurve)));
}

#[test]
fn fewer_commitment_lists_than_rings_is_rejected() {
    let mut ledger = TestLedger::default();
    let a = material_with_decoys(&mut ledger, true_input(2, 11));
    let b = material_with_decoys(&mut ledger, true_input(5, 13));
    let ring_ct = RingCtMaterial {
        inputs: vec![a, b],
        outputs: vec![Output { public_key: random_point(), amount: 7 }],
    };
    let nonces = ringct_nonces(&ring_ct);
    let (msg, tx, _) = ring_ct.sign(&nonces).unwrap();
    let mut public_commitments = ledger.commitments_for(&tx);
    public_commitments.pop();
    assert!(matches!(
        tx.verify(&msg, &public_commitments),
        Err(Error::ExpectedAPublicCommitmentsForEachRingEntry)
    ));
}

#[test]
fn range_proof_outcome_decides_after_the_rings() {
    let (ledger, msg, tx) = one_in_one_out();
    let public_commitments = ledger.commitments_for(&tx);
    assert!(tx.verify_with_range_result(&msg, &public_commitments, Ok(())).is_ok());
    assert!(matches!(
        tx.verify_with_range_result(&msg, &public_commitments, Err(ProofError::VerificationError)),
        Err(Error::Bulletproofs(ProofError::VerificationError))
    ));
    assert!(matches!(tx.verify_balance(Err(ProofError::FormatError)), Err(Error::Bulletproofs(ProofError::FormatError))));
    assert!(tx.verify_balance(Ok(())).is_ok());
    let mut bad = msg.clone();
    bad[1] ^= 0x80;
    assert!(matches!(
        tx.verify_with_range_result(&bad, &public_commitments, Err(ProofError::VerificationError)),
        Err(Error::InvalidRingSignature)
    ));
}

#[test]
fn message_ends_with_output_proof_bytes() {
    let (_, msg, tx) = one_in_one_out();
    let tail = tx.outputs[0].to_bytes();
    assert!(tail.len() > 48);
    assert_eq!(&tail[tail.len() - 48..], &tx.outputs[0].commitment().bytes[..]);
    assert_eq!(&tail[..tail.len() - 48], &tx.outputs[0].range_proof().to_bytes()[..]);
    assert_eq!(&msg[msg.len() - tail.len()..], &tail[..]);
    // true key, two decoys, key image, one pseudo opening, one output opening, proof bytes
    assert_eq!(msg.len(), 48 * 4 + 40 * 2 + tail.len());
}
