//! Confidential transactions: one ring signature per input, range-proven output
//! commitments, and the balance between pseudo-commitments and outputs.
use crate::commitment::{le_bytes, RevealedCommitment};
use crate::group::{field_order, g1_add, g1_valid, identity_encoding, Point, Scalar};
use crate::hash::extend_bytes;
use crate::mlsag::{MlsagMaterial, MlsagSignature, SigningNonces};
use crate::Error;
use bls_bulletproofs::{BulletproofGens, PedersenGens, ProofError, RangeProof};
use merlin::Transcript;
use vstd::arithmetic::div_mod::{lemma_add_mod_noop_right, lemma_mod_twice};
use vstd::prelude::*;

verus! {

/// Bit length of every range proof: amounts lie in `[0, 2^64)`.
pub const RANGE_PROOF_BITS: usize = 64;

/// Number of parties that may aggregate a range proof.
pub const RANGE_PROOF_PARTIES: usize = 1;

/// Label of the range-proof transcript, shared by prover and verifier.
pub const MERLIN_TRANSCRIPT_LABEL: &'static str = "BLST_RINGCT";

/// A range proof.
#[verifier::external_type_specification]
#[verifier::external_body]
pub struct ExRangeProof(RangeProof);

/// The generators of the range proofs.
#[verifier::external_type_specification]
#[verifier::external_body]
pub struct ExBulletproofGens(BulletproofGens);

/// A Fiat-Shamir transcript.
#[verifier::external_type_specification]
#[verifier::external_body]
pub struct ExTranscript(Transcript);

/// Relies on `merlin::Transcript::new`: a fresh transcript under a label.
#[verifier::external_body]
fn new_transcript(label: &'static str) -> (t: Transcript) {
    Transcript::new(label.as_bytes())
}

/// Relies on `BulletproofGens::new` of bls_bulletproofs.
#[verifier::external_body]
fn bulletproof_gens(gens_capacity: usize, party_capacity: usize) -> (g: BulletproofGens) {
    BulletproofGens::new(gens_capacity, party_capacity)
}

/// Relies on `RangeProof::prove_single` of bls_bulletproofs over the default
/// Pedersen generators: on success the commitment it returns is
/// `PedersenGens::commit(value, blinding)`, compressed.
#[verifier::external_body]
fn prove_single(
    bp_gens: &BulletproofGens,
    transcript: &mut Transcript,
    value: u64,
    blinding: &Scalar,
    bits: usize,
) -> (r: Result<(RangeProof, Point), ProofError>)
    requires
        blinding.wf(),
    ensures
        r matches Ok((_, c)) ==> g1_valid(c.bytes@) && c.bytes@ == crate::commitment::pedersen_commit(
            value as int,
            blinding.val(),
        ),
{
    let b = blstrs::Scalar::from_bytes_le(&blinding.bytes).unwrap();
    let pc_gens = PedersenGens::default();
    let (proof, c) = RangeProof::prove_single(bp_gens, &pc_gens, transcript, value, &b, bits)?;
    Ok((proof, Point { bytes: c.to_compressed() }))
}

/// Relies on `RangeProof::verify_single` of bls_bulletproofs over the default
/// Pedersen generators.
#[verifier::external_body]
fn verify_single(
    proof: &RangeProof,
    bp_gens: &BulletproofGens,
    transcript: &mut Transcript,
    commitment: &Point,
    bits: usize,
) -> (r: Result<(), ProofError>)
    requires
        g1_valid(commitment.bytes@),
{
    let c = blstrs::G1Affine::from_compressed(&commitment.bytes).unwrap();
    proof.verify_single(bp_gens, &PedersenGens::default(), transcript, &c, bits)
}

/// Relies on `RangeProof::to_bytes` of bls_bulletproofs.
#[verifier::external_body]
fn range_proof_bytes(proof: &RangeProof) -> (r: Vec<u8>) {
    proof.to_bytes()
}

/// The concatenation of byte strings.
pub open spec fn concat(s: Seq<Seq<u8>>) -> Seq<u8>
    decreases s.len(),
{
    if s.len() == 0 {
        Seq::empty()
    } else {
        concat(s.drop_last()) + s.last()
    }
}

/// The encodings of points.
pub open spec fn encodings(ps: Seq<Point>) -> Seq<Seq<u8>> {
    ps.map_values(|p: Point| p.bytes@)
}

/// Sum of integers.
pub open spec fn sum(s: Seq<int>) -> int
    decreases s.len(),
{
    if s.len() == 0 {
        0
    } else {
        sum(s.drop_last()) + s.last()
    }
}

/// The integers of the blinding factors of openings.
pub open spec fn blinding_vals(s: Seq<RevealedCommitment>) -> Seq<int> {
    s.map_values(|o: RevealedCommitment| o.blinding.val())
}

/// Sum of compressed points, the empty sum being the identity.
pub open spec fn point_sum(s: Seq<Seq<u8>>) -> Seq<u8>
    decreases s.len(),
{
    if s.len() == 0 {
        identity_encoding()
    } else if s.len() == 1 {
        s[0]
    } else {
        g1_add(point_sum(s.drop_last()), s.last())
    }
}

/// Appends the encodings of points to a buffer.
fn append_points(buf: &mut Vec<u8>, ps: &Vec<Point>)
    ensures
        final(buf)@ == old(buf)@ + concat(encodings(ps@)),
{
    let mut i: usize = 0;
    while i < ps.len()
        invariant
            i <= ps@.len(),
            buf@ == old(buf)@ + concat(encodings(ps@.subrange(0, i as int))),
        decreases ps@.len() - i,
    {
        let ghost before = buf@;
        extend_bytes(buf, &ps[i].bytes);
        proof {
            assert(encodings(ps@.subrange(0, i + 1)).drop_last() =~= encodings(ps@.subrange(0, i as int)));
        }
        i += 1;
        proof {
            assert(buf@ =~= old(buf)@ + concat(encodings(ps@.subrange(0, i as int))));
        }
    }
    assert(ps@.subrange(0, i as int) =~= ps@);
}

/// Appends the bytes of openings to a buffer.
fn append_openings(buf: &mut Vec<u8>, os: &Vec<RevealedCommitment>)
    ensures
        final(buf)@ == old(buf)@ + concat(os@.map_values(|o: RevealedCommitment| le_bytes(o.value as nat, 8) + o.blinding.bytes@)),
{
    let ghost f = |o: RevealedCommitment| le_bytes(o.value as nat, 8) + o.blinding.bytes@;
    let mut i: usize = 0;
    while i < os.len()
        invariant
            i <= os@.len(),
            f == (|o: RevealedCommitment| le_bytes(o.value as nat, 8) + o.blinding.bytes@),
            buf@ == old(buf)@ + concat(os@.subrange(0, i as int).map_values(f)),
        decreases os@.len() - i,
    {
        let b = os[i].to_bytes();
        extend_bytes(buf, &b);
        proof {
            assert(os@.subrange(0, i + 1).map_values(f).drop_last() =~= os@.subrange(0, i as int).map_values(f));
        }
        i += 1;
        proof {
            assert(buf@ =~= old(buf)@ + concat(os@.subrange(0, i as int).map_values(f)));
        }
    }
    assert(os@.subrange(0, i as int) =~= os@);
}

/// An output before signing: the recipient's key and the amount.
#[derive(Clone, Copy, Debug)]
pub struct Output {
    pub public_key: Point,
    pub amount: u64,
}

impl Output {
    pub fn public_key(&self) -> (r: Point)
        ensures
            r == self.public_key,
    {
        self.public_key
    }

    pub fn amount(&self) -> (r: u64)
        ensures
            r == self.amount,
    {
        self.amount
    }

    /// An opening of the amount under the given blinding factor.
    pub fn random_commitment(&self, blinding: Scalar) -> (r: RevealedCommitment)
        ensures
            r.value == self.amount,
            r.blinding == blinding,
    {
        RevealedCommitment::from_value(self.amount, blinding)
    }
}

/// A signed output: its range proof and its commitment.
#[derive(Debug)]
pub struct OutputProof {
    range_proof: RangeProof,
    proof_bytes: Vec<u8>,
    commitment: Point,
}

impl OutputProof {
    /// The commitment is a point of the group.
    #[verifier::type_invariant]
    spec fn inv(self) -> bool {
        self.commitment.valid()
    }

    /// The commitment, for use in contracts.
    pub closed spec fn commitment_spec(self) -> Point {
        self.commitment
    }

    /// The bytes of the output: the canonical bytes of the range proof, as
    /// the proof was made, then the compressed commitment.
    pub closed spec fn bytes_spec(self) -> Seq<u8> {
        self.proof_bytes@ + self.commitment.bytes@
    }

    /// The encoding of the commitment is the tail of the output's bytes.
    pub proof fn lemma_bytes_end_with_commitment(self)
        ensures
            self.bytes_spec().len() >= 48,
            self.bytes_spec().subrange(self.bytes_spec().len() - 48, self.bytes_spec().len() as int)
                == self.commitment_spec().bytes@,
    {
        assert(self.bytes_spec().subrange(self.bytes_spec().len() - 48, self.bytes_spec().len() as int)
            =~= self.commitment.bytes@);
    }

    /// Canonical bytes of the range proof, then the compressed commitment.
    pub fn to_bytes(&self) -> (r: Vec<u8>)
        ensures
            r@ == self.bytes_spec(),
    {
        let mut v: Vec<u8> = Vec::new();
        extend_bytes(&mut v, self.proof_bytes.as_slice());
        extend_bytes(&mut v, &self.commitment.bytes);
        v
    }

    pub fn range_proof(&self) -> (r: &RangeProof) {
        &self.range_proof
    }

    pub fn commitment(&self) -> (r: Point)
        ensures
            r == self.commitment_spec(),
            r.valid(),
    {
        proof {
            use_type_invariant(self);
        }
        self.commitment
    }
}

/// Sum of the blinding factors of openings.
fn sum_blindings(os: &Vec<RevealedCommitment>) -> (r: Scalar)
    requires
        forall|i: int| 0 <= i < os@.len() ==> (#[trigger] os@[i]).wf(),
    ensures
        r.wf(),
        r.val() == sum(blinding_vals(os@)) % field_order(),
{
    let mut acc = Scalar::from_u64(0);
    let mut i: usize = 0;
    while i < os.len()
        invariant
            i <= os@.len(),
            forall|j: int| 0 <= j < os@.len() ==> (#[trigger] os@[j]).wf(),
            acc.wf(),
            acc.val() == sum(blinding_vals(os@.subrange(0, i as int))) % field_order(),
        decreases os@.len() - i,
    {
        let ghost prev = sum(blinding_vals(os@.subrange(0, i as int)));
        acc = acc.add(&os[i].blinding);
        proof {
            assert(blinding_vals(os@.subrange(0, i + 1)).drop_last() =~= blinding_vals(os@.subrange(0, i as int)));
            assert(sum(blinding_vals(os@.subrange(0, i + 1))) == prev + os@[i as int].blinding.val());
            lemma_add_mod_noop_right(os@[i as int].blinding.val(), prev, field_order());
        }
        i += 1;
    }
    assert(os@.subrange(0, i as int) =~= os@);
    acc
}

/// Sum of points.
fn sum_points(ps: &Vec<Point>) -> (r: Point)
    requires
        forall|i: int| 0 <= i < ps@.len() ==> (#[trigger] ps@[i]).valid(),
    ensures
        r.bytes@ == point_sum(encodings(ps@)),
{
    if ps.len() == 0 {
        assert(encodings(ps@).len() == 0);
        return Point::identity();
    }
    let mut acc = ps[0];
    let mut i: usize = 1;
    assert(encodings(ps@.subrange(0, 1)).len() == 1);
    while i < ps.len()
        invariant
            1 <= i <= ps@.len(),
            forall|j: int| 0 <= j < ps@.len() ==> (#[trigger] ps@[j]).valid(),
            acc.valid(),
            acc.bytes@ == point_sum(encodings(ps@.subrange(0, i as int))),
        decreases ps@.len() - i,
    {
        acc = acc.add(&ps[i]);
        proof {
            assert(encodings(ps@.subrange(0, i + 1)).drop_last() =~= encodings(ps@.subrange(0, i as int)));
        }
        i += 1;
    }
    assert(ps@.subrange(0, i as int) =~= ps@);
    acc
}

/// The draws of one transaction: a pseudo-commitment blinding per input, a
/// blinding per output but the last, and the draws of each ring signature.
#[derive(Debug)]
pub struct RingCtNonces {
    pub pseudo_blindings: Vec<Scalar>,
    pub output_blindings: Vec<Scalar>,
    pub mlsags: Vec<SigningNonces>,
}

/// The inputs and outputs of a transaction to be signed.
#[derive(Debug)]
pub struct RingCtMaterial {
    pub inputs: Vec<MlsagMaterial>,
    pub outputs: Vec<Output>,
}

/// The bytes of an opening: value, then blinding, both little-endian.
pub open spec fn opening_bytes(o: RevealedCommitment) -> Seq<u8> {
    le_bytes(o.value as nat, 8) + o.blinding.bytes@
}

/// The decoys' public keys, ring after ring.
pub open spec fn flat_decoy_keys(inputs: Seq<MlsagMaterial>) -> Seq<Point>
    decreases inputs.len(),
{
    if inputs.len() == 0 {
        Seq::empty()
    } else {
        flat_decoy_keys(inputs.drop_last()) + inputs.last().decoy_inputs@.map_values(|d: crate::mlsag::DecoyInput| d.public_key)
    }
}

impl RingCtMaterial {
    pub open spec fn wf(self) -> bool {
        &&& self.outputs@.len() >= 1
        &&& forall|i: int| 0 <= i < self.inputs@.len() ==> (#[trigger] self.inputs@[i]).wf()
    }

    /// The draws fit this material.
    pub open spec fn nonces_fit(self, nonces: RingCtNonces) -> bool {
        &&& nonces.pseudo_blindings@.len() == self.inputs@.len()
        &&& nonces.mlsags@.len() == self.inputs@.len()
        &&& nonces.output_blindings@.len() == self.outputs@.len() - 1
        &&& forall|i: int| 0 <= i < self.inputs@.len() ==> (#[trigger] nonces.pseudo_blindings@[i]).wf()
        &&& forall|i: int| 0 <= i < self.inputs@.len() ==> (#[trigger] nonces.mlsags@[i]).wf(self.inputs@[i].ring_size())
        &&& forall|j: int| 0 <= j < nonces.output_blindings@.len() ==> (#[trigger] nonces.output_blindings@[j]).wf()
    }

    /// The opening of the pseudo-commitment of input `i`.
    pub open spec fn pseudo_opening(self, nonces: RingCtNonces, i: int) -> RevealedCommitment {
        RevealedCommitment { value: self.inputs@[i].true_input.revealed_commitment.value, blinding: nonces.pseudo_blindings@[i] }
    }

    /// The signed message up to the output proofs: true public keys, decoy
    /// public keys, key images, pseudo-commitment openings, output openings.
    pub open spec fn message_prefix(self, nonces: RingCtNonces, openings: Seq<RevealedCommitment>) -> Seq<u8> {
        let n = self.inputs@.len() as int;
        concat(Seq::new(n as nat, |i: int| self.inputs@[i].true_input.public_key_spec()))
            + concat(encodings(flat_decoy_keys(self.inputs@)))
            + concat(Seq::new(n as nat, |i: int| self.inputs@[i].true_input.key_image_spec()))
            + concat(Seq::new(n as nat, |i: int| opening_bytes(self.pseudo_opening(nonces, i))))
            + concat(openings.map_values(|o: RevealedCommitment| opening_bytes(o)))
    }

    /// `msg`, `tx` and `openings` are what `sign` returns for these draws.
    pub open spec fn is_signed(
        self,
        nonces: RingCtNonces,
        msg: Seq<u8>,
        tx: RingCtTransaction,
        openings: Seq<RevealedCommitment>,
    ) -> bool {
        let n = self.inputs@.len() as int;
        let m = self.outputs@.len() as int;
        &&& openings.len() == m
        &&& tx.outputs@.len() == m
        &&& tx.mlsags@.len() == n
        &&& forall|j: int| 0 <= j < m ==> (#[trigger] openings[j]).value == self.outputs@[j].amount
        &&& forall|j: int| 0 <= j < m - 1 ==> (#[trigger] openings[j]).blinding == nonces.output_blindings@[j]
        &&& forall|j: int| 0 <= j < m ==> (#[trigger] openings[j]).wf()
        &&& sum(blinding_vals(openings)) % field_order()
            == sum(nonces.pseudo_blindings@.map_values(|b: Scalar| b.val())) % field_order()
        &&& forall|j: int| 0 <= j < m ==> (#[trigger] tx.outputs@[j]).commitment_spec().bytes@ == openings[j].commitment()
        &&& forall|i: int| 0 <= i < n ==> self.inputs@[i].is_signature(
            msg,
            self.pseudo_opening(nonces, i),
            nonces.mlsags@[i],
            #[trigger] tx.mlsags@[i],
        )
        &&& msg == self.message_prefix(nonces, openings) + concat(
            tx.outputs@.map_values(|o: OutputProof| o.bytes_spec()),
        )
    }

    /// Signs the transaction. Each output but the last is committed under its
    /// drawn blinding; the last takes the blinding that makes the output
    /// blindings add up to the pseudo-commitment blindings. Each output gets a
    /// range proof, and each input a ring signature of the message.
    pub fn sign(&self, nonces: &RingCtNonces) -> (res: Result<(Vec<u8>, RingCtTransaction, Vec<RevealedCommitment>), Error>)
        requires
            self.wf(),
            self.nonces_fit(*nonces),
        ensures
            res matches Err(e) ==> e is Bulletproofs,
            res matches Ok((msg, tx, openings)) ==> self.is_signed(*nonces, msg@, tx, openings@),
    {
        let n = self.inputs.len();
        let m = self.outputs.len();
        let bp_gens = bulletproof_gens(RANGE_PROOF_BITS, RANGE_PROOF_PARTIES);
        let mut transcript = new_transcript(MERLIN_TRANSCRIPT_LABEL);

        let mut true_keys: Vec<Point> = Vec::new();
        let mut key_images: Vec<Point> = Vec::new();
        let mut pseudo: Vec<RevealedCommitment> = Vec::new();
        let mut i: usize = 0;
        while i < n
            invariant
                n == self.inputs@.len(),
                self.wf(),
                self.nonces_fit(*nonces),
                i <= n,
                true_keys@.len() == i,
                key_images@.len() == i,
                pseudo@.len() == i,
                forall|j: int| 0 <= j < i ==> (#[trigger] true_keys@[j]).bytes@ == self.inputs@[j].true_input.public_key_spec(),
                forall|j: int| 0 <= j < i ==> (#[trigger] key_images@[j]).bytes@ == self.inputs@[j].true_input.key_image_spec(),
                forall|j: int| 0 <= j < i ==> #[trigger] pseudo@[j] == self.pseudo_opening(*nonces, j),
            decreases n - i,
        {
            assert(self.inputs@[i as int].wf());
            true_keys.push(self.inputs[i].true_input.public_key());
            key_images.push(self.inputs[i].true_input.key_image());
            pseudo.push(self.inputs[i].true_input.random_pseudo_commitment(nonces.pseudo_blindings[i]));
            i += 1;
        }

        let mut decoy_keys: Vec<Point> = Vec::new();
        let mut i: usize = 0;
        while i < n
            invariant
                n == self.inputs@.len(),
                i <= n,
                decoy_keys@ == flat_decoy_keys(self.inputs@.subrange(0, i as int)),
            decreases n - i,
        {
            let decoys = &self.inputs[i].decoy_inputs;
            let ghost start = decoy_keys@;
            let mut j: usize = 0;
            while j < decoys.len()
                invariant
                    j <= decoys@.len(),
                    decoy_keys@ == start + decoys@.subrange(0, j as int).map_values(|d: crate::mlsag::DecoyInput| d.public_key),
                decreases decoys@.len() - j,
            {
                decoy_keys.push(decoys[j].public_key);
                j += 1;
                assert(decoy_keys@ =~= start + decoys@.subrange(0, j as int).map_values(|d: crate::mlsag::DecoyInput| d.public_key));
            }
            assert(decoys@.subrange(0, j as int) =~= decoys@);
            assert(self.inputs@.subrange(0, i + 1).drop_last() =~= self.inputs@.subrange(0, i as int));
            i += 1;
        }
        assert(self.inputs@.subrange(0, n as int) =~= self.inputs@);

        let mut openings: Vec<RevealedCommitment> = Vec::new();
        let mut j: usize = 0;
        while j < m - 1
            invariant
                m == self.outputs@.len(),
                m >= 1,
                self.nonces_fit(*nonces),
                j <= m - 1,
                openings@.len() == j,
                forall|t: int| 0 <= t < j ==> (#[trigger] openings@[t]).value == self.outputs@[t].amount,
                forall|t: int| 0 <= t < j ==> (#[trigger] openings@[t]).blinding == nonces.output_blindings@[t],
                forall|t: int| 0 <= t < j ==> (#[trigger] openings@[t]).wf(),
            decreases m - 1 - j,
        {
            openings.push(self.outputs[j].random_commitment(nonces.output_blindings[j]));
            j += 1;
        }
        let input_sum = sum_blindings(&pseudo);
        let output_sum = sum_blindings(&openings);
        let correction = input_sum.sub(&output_sum);
        let ghost drawn = openings@;
        openings.push(RevealedCommitment { value: self.outputs[m - 1].amount, blinding: correction });
        proof {
            let q = field_order();
            let a = sum(blinding_vals(pseudo@));
            let b = sum(blinding_vals(drawn));
            assert(blinding_vals(openings@).drop_last() =~= blinding_vals(drawn));
            assert(sum(blinding_vals(openings@)) == b + correction.val());
            lemma_add_mod_noop_right(b, a % q - b % q, q);
            vstd::arithmetic::div_mod::lemma_fundamental_div_mod(b, q);
            vstd::arithmetic::div_mod::lemma_mod_multiples_vanish(b / q, a % q, q);
            lemma_mod_twice(a, q);
            assert((b + correction.val()) % q == a % q) by {
                assert(b + (a % q - b % q) == q * (b / q) + a % q);
            }
            assert(blinding_vals(pseudo@) =~= nonces.pseudo_blindings@.map_values(|s: Scalar| s.val()));
        }

        let mut proofs: Vec<OutputProof> = Vec::new();
        let mut j: usize = 0;
        while j < m
            invariant
                m == openings@.len(),
                j <= m,
                forall|t: int| 0 <= t < m ==> (#[trigger] openings@[t]).wf(),
                proofs@.len() == j,
                forall|t: int| 0 <= t < j ==> (#[trigger] proofs@[t]).commitment_spec().bytes@ == openings@[t].commitment(),
            decreases m - j,
        {
            let o = openings[j];
            match prove_single(&bp_gens, &mut transcript, o.value, &o.blinding, RANGE_PROOF_BITS) {
                Ok((range_proof, commitment)) => {
                    let proof_bytes = range_proof_bytes(&range_proof);
                    proofs.push(OutputProof { range_proof, proof_bytes, commitment });
                },
                Err(e) => {
                    return Err(Error::Bulletproofs(e));
                },
            }
            j += 1;
        }

        let mut msg: Vec<u8> = Vec::new();
        append_points(&mut msg, &true_keys);
        append_points(&mut msg, &decoy_keys);
        append_points(&mut msg, &key_images);
        append_openings(&mut msg, &pseudo);
        append_openings(&mut msg, &openings);
        let ghost prefix = msg@;
        let mut j: usize = 0;
        while j < m
            invariant
                m == proofs@.len(),
                j <= m,
                msg@ == prefix + concat(proofs@.subrange(0, j as int).map_values(|o: OutputProof| o.bytes_spec())),
            decreases m - j,
        {
            let b = proofs[j].to_bytes();
            extend_bytes(&mut msg, &b);
            proof {
                assert(proofs@.subrange(0, j + 1).map_values(|o: OutputProof| o.bytes_spec()).drop_last()
                    =~= proofs@.subrange(0, j as int).map_values(|o: OutputProof| o.bytes_spec()));
            }
            j += 1;
            proof {
                assert(msg@ =~= prefix + concat(proofs@.subrange(0, j as int).map_values(|o: OutputProof| o.bytes_spec())));
            }
        }
        assert(proofs@.subrange(0, m as int) =~= proofs@);
        proof {
            let pre = self.message_prefix(*nonces, openings@);
            assert(encodings(true_keys@) =~= Seq::new(n as nat, |i: int| self.inputs@[i].true_input.public_key_spec()));
            assert(encodings(key_images@) =~= Seq::new(n as nat, |i: int| self.inputs@[i].true_input.key_image_spec()));
            assert(pseudo@.map_values(|o: RevealedCommitment| le_bytes(o.value as nat, 8) + o.blinding.bytes@)
                =~= Seq::new(n as nat, |i: int| opening_bytes(self.pseudo_opening(*nonces, i))));
            assert(openings@.map_values(|o: RevealedCommitment| le_bytes(o.value as nat, 8) + o.blinding.bytes@)
                =~= openings@.map_values(|o: RevealedCommitment| opening_bytes(o)));
            assert(prefix =~= pre);
        }

        let mut mlsags: Vec<MlsagSignature> = Vec::new();
        let mut i: usize = 0;
        while i < n
            invariant
                n == self.inputs@.len(),
                n == pseudo@.len(),
                self.wf(),
                self.nonces_fit(*nonces),
                forall|j: int| 0 <= j < n ==> #[trigger] pseudo@[j] == self.pseudo_opening(*nonces, j),
                i <= n,
                mlsags@.len() == i,
                forall|j: int| 0 <= j < i ==> self.inputs@[j].is_signature(
                    msg@,
                    self.pseudo_opening(*nonces, j),
                    nonces.mlsags@[j],
                    #[trigger] mlsags@[j],
                ),
            decreases n - i,
        {
            assert(self.inputs@[i as int].wf());
            assert(nonces.pseudo_blindings@[i as int].wf());
            assert(nonces.mlsags@[i as int].wf(self.inputs@[i as int].ring_size()));
            let sig = self.inputs[i].sign(&msg, &pseudo[i], &nonces.mlsags[i]);
            mlsags.push(sig);
            i += 1;
        }
        Ok((msg, RingCtTransaction { mlsags, outputs: proofs }, openings))
    }
}

/// A signed transaction.
#[derive(Debug)]
pub struct RingCtTransaction {
    pub mlsags: Vec<MlsagSignature>,
    pub outputs: Vec<OutputProof>,
}

impl RingCtTransaction {
    /// The pseudo-commitments of the inputs.
    pub open spec fn pseudo_commitments(self) -> Seq<Point> {
        self.mlsags@.map_values(|s: MlsagSignature| s.pseudo_commitment)
    }

    /// The commitments of the outputs.
    pub open spec fn output_commitments(self) -> Seq<Point> {
        self.outputs@.map_values(|o: OutputProof| o.commitment_spec())
    }

    /// The pseudo-commitments are points and add up to the output commitments.
    pub open spec fn balanced(self) -> bool {
        &&& forall|i: int| 0 <= i < self.mlsags@.len() ==> (#[trigger] self.mlsags@[i]).pseudo_commitment.valid()
        &&& point_sum(encodings(self.pseudo_commitments())) == point_sum(encodings(self.output_commitments()))
    }

    /// The ring signatures before `k`, paired with their ledger commitments, verify.
    pub open spec fn rings_ok(self, msg: Seq<u8>, public_commitments_per_ring: Seq<Vec<Point>>, k: int) -> bool {
        forall|i: int| 0 <= i < k ==> (#[trigger] self.mlsags@[i]).verify_spec(msg, public_commitments_per_ring[i]@) is Ok
    }

    /// The error of the first ring signature from `i` on that fails against its
    /// ledger commitments; `Ok` where none fails.
    pub open spec fn rings_result(self, msg: Seq<u8>, public_commitments_per_ring: Seq<Vec<Point>>, i: nat) -> Result<
        (),
        Error,
    >
        decreases self.mlsags@.len() - i,
    {
        if i >= self.mlsags@.len() {
            Ok(())
        } else if self.mlsags@[i as int].verify_spec(msg, public_commitments_per_ring[i as int]@) is Err {
            self.mlsags@[i as int].verify_spec(msg, public_commitments_per_ring[i as int]@)
        } else {
            self.rings_result(msg, public_commitments_per_ring, i + 1)
        }
    }

    /// What remains once the rings have verified: the range proofs' error if
    /// they failed, else `Ok` exactly when the commitments balance.
    pub open spec fn balance_outcome(self, range_proofs: Result<(), ProofError>) -> Result<(), Error> {
        match range_proofs {
            Err(e) => Err(Error::Bulletproofs(e)),
            Ok(()) => if self.balanced() {
                Ok(())
            } else {
                Err(Error::InputPseudoCommitmentsDoNotSumToOutputCommitments)
            },
        }
    }

    /// What verification returns, given the outcome of the range proofs: one
    /// list of ledger commitments per ring, then the first failing ring's
    /// error, then the range proofs' error, then the balance.
    pub open spec fn verify_outcome(
        self,
        msg: Seq<u8>,
        public_commitments_per_ring: Seq<Vec<Point>>,
        range_proofs: Result<(), ProofError>,
    ) -> Result<(), Error> {
        if public_commitments_per_ring.len() != self.mlsags@.len() {
            Err(Error::ExpectedAPublicCommitmentsForEachRingEntry)
        } else if self.rings_result(msg, public_commitments_per_ring, 0) is Err {
            self.rings_result(msg, public_commitments_per_ring, 0)
        } else {
            self.balance_outcome(range_proofs)
        }
    }

    /// Where every ring verifies, no ring error comes from `i` on.
    pub proof fn lemma_rings_ok_result(self, msg: Seq<u8>, public_commitments_per_ring: Seq<Vec<Point>>, i: nat)
        requires
            self.rings_ok(msg, public_commitments_per_ring, self.mlsags@.len() as int),
            i <= self.mlsags@.len(),
        ensures
            self.rings_result(msg, public_commitments_per_ring, i) == Ok::<(), Error>(()),
        decreases self.mlsags@.len() - i,
    {
        if i < self.mlsags@.len() {
            assert(self.mlsags@[i as int].verify_spec(msg, public_commitments_per_ring[i as int]@) is Ok);
            self.lemma_rings_ok_result(msg, public_commitments_per_ring, i + 1);
        }
    }

    /// Checks every ring signature against its ledger commitments, in order,
    /// and returns the first error.
    fn check_rings(&self, msg: &[u8], public_commitments_per_ring: &[Vec<Point>]) -> (res: Result<(), Error>)
        requires
            public_commitments_per_ring@.len() == self.mlsags@.len(),
        ensures
            res == self.rings_result(msg@, public_commitments_per_ring@, 0),
    {
        let mut i: usize = 0;
        while i < self.mlsags.len()
            invariant
                public_commitments_per_ring@.len() == self.mlsags@.len(),
                i <= self.mlsags@.len(),
                self.rings_result(msg@, public_commitments_per_ring@, 0) == self.rings_result(
                    msg@,
                    public_commitments_per_ring@,
                    i as nat,
                ),
            decreases self.mlsags@.len() - i,
        {
            let r = self.mlsags[i].verify(msg, public_commitments_per_ring[i].as_slice());
            match r {
                Ok(()) => {},
                Err(e) => {
                    return Err(e);
                },
            }
            i += 1;
        }
        Ok(())
    }

    /// Verifies the range proof of each output, in order, over one fresh
    /// transcript under the shared label; stops at the first failure.
    fn verify_range_proofs(&self) -> (res: Result<(), ProofError>)
        ensures
            self.outputs@.len() == 0 ==> res is Ok,
    {
        let bp_gens = bulletproof_gens(RANGE_PROOF_BITS, RANGE_PROOF_PARTIES);
        let mut transcript = new_transcript(MERLIN_TRANSCRIPT_LABEL);
        let mut j: usize = 0;
        while j < self.outputs.len()
            invariant
                j <= self.outputs@.len(),
            decreases self.outputs@.len() - j,
        {
            let c = self.outputs[j].commitment();
            match verify_single(&self.outputs[j].range_proof, &bp_gens, &mut transcript, &c, RANGE_PROOF_BITS) {
                Ok(()) => {},
                Err(e) => {
                    return Err(e);
                },
            }
            j += 1;
        }
        Ok(())
    }

    /// Given the outcome of the range proofs, returns their error, or checks
    /// that the pseudo-commitments add up to the output commitments.
    pub fn verify_balance(&self, range_proofs: Result<(), ProofError>) -> (res: Result<(), Error>)
        ensures
            res == self.balance_outcome(range_proofs),
    {
        match range_proofs {
            Err(e) => {
                return Err(Error::Bulletproofs(e));
            },
            Ok(()) => {},
        }
        let mut outputs: Vec<Point> = Vec::new();
        let mut j: usize = 0;
        while j < self.outputs.len()
            invariant
                range_proofs is Ok,
                j <= self.outputs@.len(),
                outputs@.len() == j,
                forall|t: int| 0 <= t < j ==> (#[trigger] outputs@[t]) == self.outputs@[t].commitment_spec(),
                forall|t: int| 0 <= t < j ==> (#[trigger] outputs@[t]).valid(),
            decreases self.outputs@.len() - j,
        {
            outputs.push(self.outputs[j].commitment());
            j += 1;
        }

        let mut pseudo: Vec<Point> = Vec::new();
        let mut i: usize = 0;
        while i < self.mlsags.len()
            invariant
                range_proofs is Ok,
                i <= self.mlsags@.len(),
                pseudo@.len() == i,
                forall|t: int| 0 <= t < i ==> (#[trigger] pseudo@[t]) == self.mlsags@[t].pseudo_commitment,
                forall|t: int| 0 <= t < i ==> (#[trigger] pseudo@[t]).valid(),
            decreases self.mlsags@.len() - i,
        {
            let p = self.mlsags[i].pseudo_commitment();
            if !p.is_valid() {
                assert(!self.balanced()) by {
                    assert(!self.mlsags@[i as int].pseudo_commitment.valid());
                }
                return Err(Error::InputPseudoCommitmentsDoNotSumToOutputCommitments);
            }
            pseudo.push(p);
            i += 1;
        }
        let input_sum = sum_points(&pseudo);
        let output_sum = sum_points(&outputs);
        proof {
            assert(pseudo@ =~= self.pseudo_commitments());
            assert(outputs@ =~= self.output_commitments());
        }
        if !input_sum.equals(&output_sum) {
            return Err(Error::InputPseudoCommitmentsDoNotSumToOutputCommitments);
        }
        assert forall|t: int| 0 <= t < self.mlsags@.len() implies (#[trigger] self.mlsags@[t]).pseudo_commitment.valid() by {
            assert(pseudo@[t].valid());
        }
        Ok(())
    }

    /// Verification given the outcome of the range proofs: the rings, then
    /// that outcome, then the balance.
    pub fn verify_with_range_result(
        &self,
        msg: &[u8],
        public_commitments_per_ring: &[Vec<Point>],
        range_proofs: Result<(), ProofError>,
    ) -> (res: Result<(), Error>)
        ensures
            res == self.verify_outcome(msg@, public_commitments_per_ring@, range_proofs),
    {
        if public_commitments_per_ring.len() != self.mlsags.len() {
            return Err(Error::ExpectedAPublicCommitmentsForEachRingEntry);
        }
        match self.check_rings(msg, public_commitments_per_ring) {
            Ok(()) => {},
            Err(e) => {
                return Err(e);
            },
        }
        self.verify_balance(range_proofs)
    }

    /// Verifies the transaction: each ring signature against its own list of
    /// ledger commitments (one list per ring), then each output's range proof
    /// over one fresh transcript, then the balance of commitments. The first
    /// failure is returned. The range proofs' outcome is the one thing left
    /// open; with no outputs there are none and the result is fixed.
    pub fn verify(&self, msg: &[u8], public_commitments_per_ring: &[Vec<Point>]) -> (res: Result<(), Error>)
        ensures
            exists|range_proofs: Result<(), ProofError>|
                (self.outputs@.len() == 0 ==> range_proofs is Ok) && res == #[trigger] self.verify_outcome(
                    msg@,
                    public_commitments_per_ring@,
                    range_proofs,
                ),
    {
        if public_commitments_per_ring.len() != self.mlsags.len() {
            let res = Err(Error::ExpectedAPublicCommitmentsForEachRingEntry);
            assert(res == self.verify_outcome(msg@, public_commitments_per_ring@, Ok(())));
            return res;
        }
        match self.check_rings(msg, public_commitments_per_ring) {
            Ok(()) => {},
            Err(e) => {
                assert(Err::<(), Error>(e) == self.verify_outcome(msg@, public_commitments_per_ring@, Ok(())));
                return Err(e);
            },
        }
        let range_proofs = self.verify_range_proofs();
        let res = self.verify_balance(range_proofs);
        assert(res == self.verify_outcome(msg@, public_commitments_per_ring@, range_proofs));
        res
    }
}

/// In a signed transaction every ring verifies against the ledger commitments
/// of its members, in ring order, provided no key image is the identity (which
/// a secret key of zero gives).
pub proof fn lemma_signed_rings_verify(
    material: RingCtMaterial,
    nonces: RingCtNonces,
    msg: Seq<u8>,
    tx: RingCtTransaction,
    openings: Seq<RevealedCommitment>,
    public_commitments_per_ring: Seq<Vec<Point>>,
)
    requires
        material.is_signed(nonces, msg, tx, openings),
        public_commitments_per_ring.len() == material.inputs@.len(),
        forall|i: int| 0 <= i < material.inputs@.len() ==> {
            let m = #[trigger] material.inputs@[i];
            let pcs = public_commitments_per_ring[i]@;
            &&& pcs.len() == m.ring_size()
            &&& forall|j: int| 0 <= j < pcs.len() ==> (#[trigger] pcs[j]).valid()
                && pcs[j].bytes@ == m.commitments_spec(nonces.mlsags@[i].pi as int % m.ring_size())[j]
            &&& tx.mlsags@[i].key_image.bytes@ != identity_encoding()
        },
    ensures
        tx.rings_ok(msg, public_commitments_per_ring, tx.mlsags@.len() as int),
        tx.rings_result(msg, public_commitments_per_ring, 0) == Ok::<(), Error>(()),
        tx.verify_outcome(msg, public_commitments_per_ring, Ok(())) == (if tx.balanced() {
            Ok::<(), Error>(())
        } else {
            Err(Error::InputPseudoCommitmentsDoNotSumToOutputCommitments)
        }),
{
    assert forall|i: int| 0 <= i < tx.mlsags@.len() implies (#[trigger] tx.mlsags@[i]).verify_spec(
        msg,
        public_commitments_per_ring[i]@,
    ) is Ok by {
        let m = material.inputs@[i];
        assert(m.is_signature(msg, material.pseudo_opening(nonces, i), nonces.mlsags@[i], tx.mlsags@[i]));
        crate::mlsag::lemma_signature_verifies(
            m,
            msg,
            material.pseudo_opening(nonces, i),
            nonces.mlsags@[i],
            tx.mlsags@[i],
            public_commitments_per_ring[i]@,
        );
    }
    tx.lemma_rings_ok_result(msg, public_commitments_per_ring, 0);
}

} // verus!
