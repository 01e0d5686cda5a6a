//! MLSAG ring signatures with a commitment column.
use crate::commitment::{pedersen_commit, RevealedCommitment};
use crate::group::{field_order, g1_add, g1_base_mul, g1_hash, g1_mul, g1_sub, identity_encoding, le_value, Point, Scalar, HASH_TO_CURVE_DOMAIN};
use crate::hash::{c_hash, challenge};
use crate::Error;
use vstd::prelude::*;

verus! {

/// The point that the hash onto the curve gives for a compressed point.
pub open spec fn hash_point(p: Seq<u8>) -> Seq<u8> {
    g1_hash(HASH_TO_CURVE_DOMAIN@, p)
}

/// `i` reduced into `[0, n)`, for `0 <= i < 2n`.
pub open spec fn wrap(i: int, n: int) -> int {
    if i < n {
        i
    } else {
        i - n
    }
}

/// One link of the challenge chain: the challenge that follows `c` at ring
/// index `n`.
pub open spec fn ring_step(
    msg: Seq<u8>,
    ring: Seq<(Point, Point)>,
    r: Seq<(Scalar, Scalar)>,
    key_image: Seq<u8>,
    n: int,
    c: int,
) -> Seq<u8> {
    challenge(
        msg,
        g1_add(g1_base_mul(r[n].0.val()), g1_mul(ring[n].0.bytes@, c)),
        g1_add(g1_base_mul(r[n].1.val()), g1_mul(ring[n].1.bytes@, c)),
        g1_add(g1_mul(hash_point(ring[n].0.bytes@), r[n].0.val()), g1_mul(key_image, c)),
    )
}

/// The spending half of a ring: the secret key and the opening of its commitment.
#[derive(Clone, Copy, Debug)]
pub struct TrueInput {
    pub secret_key: Scalar,
    pub revealed_commitment: RevealedCommitment,
}

impl TrueInput {
    pub open spec fn wf(self) -> bool {
        self.secret_key.wf() && self.revealed_commitment.wf()
    }

    /// `secret_key·G`, compressed.
    pub open spec fn public_key_spec(self) -> Seq<u8> {
        g1_base_mul(self.secret_key.val())
    }

    /// `secret_key·H_p(public_key)`, compressed.
    pub open spec fn key_image_spec(self) -> Seq<u8> {
        g1_mul(hash_point(self.public_key_spec()), self.secret_key.val())
    }

    pub fn public_key(&self) -> (r: Point)
        requires
            self.wf(),
        ensures
            r.valid(),
            r.bytes@ == self.public_key_spec(),
    {
        Point::base_mul(&self.secret_key)
    }

    pub fn revealed_commitment(&self) -> (r: &RevealedCommitment)
        ensures
            *r == self.revealed_commitment,
    {
        &self.revealed_commitment
    }

    /// The key image `I = x·H_p(x·G)`: it depends on the secret key alone.
    pub fn key_image(&self) -> (r: Point)
        requires
            self.wf(),
        ensures
            r.valid(),
            r.bytes@ == self.key_image_spec(),
    {
        let pk = self.public_key();
        pk.hash_to_curve().mul(&self.secret_key)
    }

    /// A fresh opening of the input's value under the given blinding factor.
    pub fn random_pseudo_commitment(&self, blinding: Scalar) -> (r: RevealedCommitment)
        ensures
            r.value == self.revealed_commitment.value,
            r.blinding == blinding,
    {
        RevealedCommitment::from_value(self.revealed_commitment.value, blinding)
    }
}

/// A ledger output used as a member of the anonymity set.
#[derive(Clone, Copy, Debug)]
pub struct DecoyInput {
    pub public_key: Point,
    pub commitment: Point,
}

impl DecoyInput {
    pub open spec fn wf(self) -> bool {
        self.public_key.valid() && self.commitment.valid()
    }

    pub fn public_key(&self) -> (r: Point)
        ensures
            r == self.public_key,
    {
        self.public_key
    }

    pub fn commitment(&self) -> (r: Point)
        ensures
            r == self.commitment,
    {
        self.commitment
    }
}

/// The random draws of one signature: the position of the true input, the
/// two nonces, and a response pair for each ring member.
#[derive(Debug)]
pub struct SigningNonces {
    pub pi: u32,
    pub alpha: (Scalar, Scalar),
    pub r: Vec<(Scalar, Scalar)>,
}

impl SigningNonces {
    /// Draws for a ring of `n` members.
    pub open spec fn wf(self, n: int) -> bool {
        &&& self.alpha.0.wf()
        &&& self.alpha.1.wf()
        &&& self.r@.len() == n
        &&& forall|i: int| 0 <= i < n ==> (#[trigger] self.r@[i]).0.wf() && self.r@[i].1.wf()
    }
}

/// What the signer of one ring holds.
#[derive(Debug)]
pub struct MlsagMaterial {
    pub true_input: TrueInput,
    pub decoy_inputs: Vec<DecoyInput>,
}

impl MlsagMaterial {
    pub open spec fn wf(self) -> bool {
        &&& self.true_input.wf()
        &&& self.decoy_inputs@.len() < usize::MAX
        &&& forall|i: int| 0 <= i < self.decoy_inputs@.len() ==> (#[trigger] self.decoy_inputs@[i]).wf()
    }

    /// Number of ring members: the decoys and the true input.
    pub open spec fn ring_size(self) -> int {
        self.decoy_inputs@.len() + 1int
    }

    /// Public keys of the ring, the true input's at position `pi`.
    pub open spec fn public_keys_spec(self, pi: int) -> Seq<Seq<u8>> {
        self.decoy_inputs@.map_values(|d: DecoyInput| d.public_key.bytes@).insert(
            pi,
            self.true_input.public_key_spec(),
        )
    }

    /// Ledger commitments of the ring, the true input's at position `pi`.
    pub open spec fn commitments_spec(self, pi: int) -> Seq<Seq<u8>> {
        self.decoy_inputs@.map_values(|d: DecoyInput| d.commitment.bytes@).insert(
            pi,
            self.true_input.revealed_commitment.commitment(),
        )
    }

    /// The challenge at ring index `pi + k` (mod ring size) in the chain that
    /// the signer seeds at `pi + 1` with the nonces `alpha`.
    pub open spec fn signer_chain(
        msg: Seq<u8>,
        ring: Seq<(Point, Point)>,
        nonces: SigningNonces,
        key_image: Seq<u8>,
        pi: int,
        k: nat,
    ) -> Seq<u8>
        decreases k,
    {
        if k <= 1 {
            challenge(
                msg,
                g1_base_mul(nonces.alpha.0.val()),
                g1_base_mul(nonces.alpha.1.val()),
                g1_mul(hash_point(ring[pi].0.bytes@), nonces.alpha.0.val()),
            )
        } else {
            let c = Self::signer_chain(msg, ring, nonces, key_image, pi, (k - 1) as nat);
            ring_step(msg, ring, nonces.r@, key_image, wrap(pi + k - 1, ring.len() as int), le_value(c) as int)
        }
    }

    /// `sig` is the signature of `msg` that `sign` makes from this material,
    /// the pseudo-commitment opening and the draws `nonces`.
    pub open spec fn is_signature(
        self,
        msg: Seq<u8>,
        revealed_pseudo_commitment: RevealedCommitment,
        nonces: SigningNonces,
        sig: MlsagSignature,
    ) -> bool {
        let n = self.ring_size();
        let pi = nonces.pi as int % n;
        let c_pi = le_value(Self::signer_chain(msg, sig.ring@, nonces, sig.key_image.bytes@, pi, n as nat)) as int;
        let sk = self.true_input.secret_key.val();
        let diff = (self.true_input.revealed_commitment.blinding.val() - revealed_pseudo_commitment.blinding.val()) % field_order();
        &&& sig.ring@.len() == n
        &&& sig.r@.len() == n
        &&& forall|i: int| 0 <= i < n ==> (#[trigger] sig.ring@[i]).0.bytes@ == self.public_keys_spec(pi)[i]
        &&& forall|i: int| 0 <= i < n ==> (#[trigger] sig.ring@[i]).1.bytes@
            == g1_sub(self.commitments_spec(pi)[i], revealed_pseudo_commitment.commitment())
        &&& forall|i: int| 0 <= i < n ==> (#[trigger] sig.ring@[i]).0.valid() && sig.ring@[i].1.valid()
        &&& sig.pseudo_commitment.valid()
        &&& sig.key_image.valid()
        &&& sig.c0.wf()
        &&& revealed_pseudo_commitment.value == self.true_input.revealed_commitment.value ==> sig.chain_closes(msg)
        &&& sig.pseudo_commitment.bytes@ == revealed_pseudo_commitment.commitment()
        &&& sig.key_image.bytes@ == self.true_input.key_image_spec()
        &&& sig.c0.bytes@ == Self::signer_chain(msg, sig.ring@, nonces, sig.key_image.bytes@, pi, (n - pi) as nat)
        &&& forall|i: int| 0 <= i < n && i != pi ==> #[trigger] sig.r@[i] == nonces.r@[i]
        &&& sig.r@[pi].0.val() == (nonces.alpha.0.val() - (c_pi * sk) % field_order()) % field_order()
        &&& sig.r@[pi].1.val() == (nonces.alpha.1.val() - (c_pi * diff) % field_order()) % field_order()
    }

    pub fn count_inputs(&self) -> (r: usize)
        requires
            self.decoy_inputs@.len() < usize::MAX,
        ensures
            r == self.ring_size(),
    {
        self.decoy_inputs.len() + 1
    }

    /// The ring's public keys with the true input's inserted at `pi`.
    pub fn public_keys(&self, pi: usize) -> (r: Vec<Point>)
        requires
            self.wf(),
            pi <= self.decoy_inputs@.len(),
        ensures
            r@.len() == self.ring_size(),
            forall|i: int| 0 <= i < r@.len() ==> (#[trigger] r@[i]).valid(),
            forall|i: int| 0 <= i < r@.len() ==> (#[trigger] r@[i]).bytes@ == self.public_keys_spec(pi as int)[i],
    {
        let mut keys: Vec<Point> = Vec::new();
        let mut i: usize = 0;
        while i < self.decoy_inputs.len()
            invariant
                self.wf(),
                i <= self.decoy_inputs@.len(),
                keys@.len() == i,
                forall|j: int| 0 <= j < i ==> keys@[j] == self.decoy_inputs@[j].public_key,
            decreases self.decoy_inputs@.len() - i,
        {
            keys.push(self.decoy_inputs[i].public_key());
            i += 1;
        }
        let ghost before = keys@;
        keys.insert(pi, self.true_input.public_key());
        proof {
            let s = self.public_keys_spec(pi as int);
            assert forall|j: int| 0 <= j < keys@.len() implies (#[trigger] keys@[j]).bytes@ == s[j] && keys@[j].valid() by {
                if j < pi {
                    assert(keys@[j] == before[j]);
                    assert(self.decoy_inputs@[j].wf());
                } else if j > pi {
                    assert(keys@[j] == before[j - 1]);
                    assert(self.decoy_inputs@[j - 1].wf());
                }
            }
        }
        keys
    }

    /// The ring's ledger commitments with the true input's inserted at `pi`.
    pub fn commitments(&self, pi: usize) -> (r: Vec<Point>)
        requires
            self.wf(),
            pi <= self.decoy_inputs@.len(),
        ensures
            r@.len() == self.ring_size(),
            forall|i: int| 0 <= i < r@.len() ==> (#[trigger] r@[i]).valid(),
            forall|i: int| 0 <= i < r@.len() ==> (#[trigger] r@[i]).bytes@ == self.commitments_spec(pi as int)[i],
    {
        let mut cs: Vec<Point> = Vec::new();
        let mut i: usize = 0;
        while i < self.decoy_inputs.len()
            invariant
                self.wf(),
                i <= self.decoy_inputs@.len(),
                cs@.len() == i,
                forall|j: int| 0 <= j < i ==> cs@[j] == self.decoy_inputs@[j].commitment,
            decreases self.decoy_inputs@.len() - i,
        {
            cs.push(self.decoy_inputs[i].commitment());
            i += 1;
        }
        let ghost before = cs@;
        cs.insert(pi, self.true_input.revealed_commitment.commit());
        proof {
            let s = self.commitments_spec(pi as int);
            assert forall|j: int| 0 <= j < cs@.len() implies (#[trigger] cs@[j]).bytes@ == s[j] && cs@[j].valid() by {
                if j < pi {
                    assert(cs@[j] == before[j]);
                    assert(self.decoy_inputs@[j].wf());
                } else if j > pi {
                    assert(cs@[j] == before[j - 1]);
                    assert(self.decoy_inputs@[j - 1].wf());
                }
            }
        }
        cs
    }
}

/// The position in the signer's chain of the challenge at ring index `j`.
spec fn signer_offset(j: int, pi: int, n: int) -> int {
    if j > pi {
        j - pi
    } else {
        j - pi + n
    }
}

/// Walking from `c0`, the verifier meets the signer's challenges, as long as
/// the responses at the signer's position lead back to the seed.
proof fn lemma_chain_matches(
    msg: Seq<u8>,
    sig: MlsagSignature,
    nonces: SigningNonces,
    pi: int,
    j: nat,
)
    requires
        sig.ring@.len() == sig.r@.len(),
        nonces.r@.len() == sig.r@.len(),
        0 <= pi < sig.ring@.len(),
        j <= sig.ring@.len(),
        forall|i: int| 0 <= i < sig.r@.len() && i != pi ==> #[trigger] sig.r@[i] == nonces.r@[i],
        sig.c0.bytes@ == MlsagMaterial::signer_chain(
            msg,
            sig.ring@,
            nonces,
            sig.key_image.bytes@,
            pi,
            (sig.ring@.len() - pi) as nat,
        ),
        ring_step(
            msg,
            sig.ring@,
            sig.r@,
            sig.key_image.bytes@,
            pi,
            le_value(MlsagMaterial::signer_chain(msg, sig.ring@, nonces, sig.key_image.bytes@, pi, sig.ring@.len())) as int,
        ) == MlsagMaterial::signer_chain(msg, sig.ring@, nonces, sig.key_image.bytes@, pi, 1),
    ensures
        sig.verifier_chain(msg, j) == MlsagMaterial::signer_chain(
            msg,
            sig.ring@,
            nonces,
            sig.key_image.bytes@,
            pi,
            signer_offset(j as int, pi, sig.ring@.len() as int) as nat,
        ),
    decreases j,
{
    if j > 0 {
        let n = sig.ring@.len() as int;
        lemma_chain_matches(msg, sig, nonces, pi, (j - 1) as nat);
        if j - 1 != pi {
            let k = signer_offset(j as int, pi, n);
            assert(k == signer_offset(j - 1, pi, n) + 1);
            assert(wrap(pi + k - 1, n) == j - 1);
            assert(sig.r@[j - 1] == nonces.r@[j - 1]);
        }
    }
}

proof fn lemma_close(a: int, m: int, q: int)
    requires
        0 <= a < q,
        0 <= m < q,
    ensures
        (((a - m) % q) + m) % q == a,
{
    vstd::arithmetic::div_mod::lemma_add_mod_noop(a - m, m, q);
    vstd::arithmetic::div_mod::lemma_small_mod(m as nat, q as nat);
    vstd::arithmetic::div_mod::lemma_small_mod(a as nat, q as nat);
}

/// Computes one link of the challenge chain (see `ring_step`).
fn step(
    msg: &[u8],
    ring: &Vec<(Point, Point)>,
    r: &Vec<(Scalar, Scalar)>,
    key_image: &Point,
    n: usize,
    c: &Scalar,
) -> (out: Scalar)
    requires
        n < ring@.len(),
        n < r@.len(),
        ring@[n as int].0.valid(),
        ring@[n as int].1.valid(),
        r@[n as int].0.wf(),
        r@[n as int].1.wf(),
        key_image.valid(),
        c.wf(),
    ensures
        out.wf(),
        out.bytes@ == ring_step(msg@, ring@, r@, key_image.bytes@, n as int, c.val()),
{
    let (pk, hidden) = ring[n];
    let (r0, r1) = r[n];
    let l1 = Point::base_mul(&r0).add(&pk.mul(c));
    let l2 = Point::base_mul(&r1).add(&hidden.mul(c));
    let r = pk.hash_to_curve().mul(&r0).add(&key_image.mul(c));
    c_hash(msg, &l1, &l2, &r)
}

impl MlsagMaterial {
    /// Signs `msg` over the ring made of the decoys and the true input, the
    /// latter placed at `nonces.pi % ring_size`. The second column of the ring
    /// holds each ledger commitment minus the pseudo-commitment.
    pub fn sign(
        &self,
        msg: &[u8],
        revealed_pseudo_commitment: &RevealedCommitment,
        nonces: &SigningNonces,
    ) -> (sig: MlsagSignature)
        requires
            self.wf(),
            revealed_pseudo_commitment.wf(),
            nonces.wf(self.ring_size()),
        ensures
            self.is_signature(msg@, *revealed_pseudo_commitment, *nonces, sig),
    {
        let n = self.decoy_inputs.len() + 1;
        let pi = (nonces.pi as usize) % n;
        let public_keys = self.public_keys(pi);
        let commitments = self.commitments(pi);
        let pseudo_commitment = revealed_pseudo_commitment.commit();

        let ghost same_value = revealed_pseudo_commitment.value == self.true_input.revealed_commitment.value;
        let ghost diff_val = (self.true_input.revealed_commitment.blinding.val() - revealed_pseudo_commitment.blinding.val())
            % field_order();
        assert(commitments@[pi as int].bytes@ == self.true_input.revealed_commitment.commitment()) by {
            assert(self.commitments_spec(pi as int)[pi as int] == self.true_input.revealed_commitment.commitment());
        }
        let mut ring: Vec<(Point, Point)> = Vec::new();
        let mut i: usize = 0;
        while i < n
            invariant
                n == self.ring_size(),
                public_keys@.len() == n,
                commitments@.len() == n,
                forall|j: int| 0 <= j < n ==> (#[trigger] public_keys@[j]).valid(),
                forall|j: int| 0 <= j < n ==> (#[trigger] commitments@[j]).valid(),
                pseudo_commitment.valid(),
                i <= n,
                ring@.len() == i,
                forall|j: int| 0 <= j < i ==> (#[trigger] ring@[j]).0 == public_keys@[j],
                forall|j: int| 0 <= j < i ==> (#[trigger] ring@[j]).1.valid()
                    && ring@[j].1.bytes@ == g1_sub(commitments@[j].bytes@, pseudo_commitment.bytes@),
                self.wf(),
                revealed_pseudo_commitment.wf(),
                pi < n,
                pseudo_commitment.bytes@ == revealed_pseudo_commitment.commitment(),
                commitments@[pi as int].bytes@ == self.true_input.revealed_commitment.commitment(),
                same_value == (revealed_pseudo_commitment.value == self.true_input.revealed_commitment.value),
                diff_val == (self.true_input.revealed_commitment.blinding.val() - revealed_pseudo_commitment.blinding.val())
                    % field_order(),
                pi < i && same_value ==> ring@[pi as int].1.bytes@ == g1_base_mul(diff_val),
            decreases n - i,
        {
            let hidden = commitments[i].sub(&pseudo_commitment);
            proof {
                if i == pi && same_value {
                    let v = revealed_pseudo_commitment.value as int;
                    assert(commitments@[i as int].bytes@ == pedersen_commit(v, self.true_input.revealed_commitment.blinding.val()));
                    assert(pseudo_commitment.bytes@ == pedersen_commit(v, revealed_pseudo_commitment.blinding.val()));
                    assert(hidden.bytes@ == g1_base_mul(diff_val));
                }
            }
            ring.push((public_keys[i], hidden));
            i += 1;
        }

        let key_image = self.true_input.key_image();
        let (a0, a1) = nonces.alpha;
        let hp = ring[pi].0.hash_to_curve();
        let mut c = c_hash(msg, &Point::base_mul(&a0), &Point::base_mul(&a1), &hp.mul(&a0));
        let mut c0 = c;
        let mut k: usize = 1;
        while k < n
            invariant
                n == self.ring_size(),
                pi < n,
                pi == nonces.pi as int % (n as int),
                nonces.wf(n as int),
                ring@.len() == n,
                forall|j: int| 0 <= j < n ==> (#[trigger] ring@[j]).0.valid() && ring@[j].1.valid(),
                key_image.valid(),
                1 <= k <= n,
                c.wf(),
                c.bytes@ == Self::signer_chain(msg@, ring@, *nonces, key_image.bytes@, pi as int, k as nat),
                k >= n - pi ==> c0.bytes@ == Self::signer_chain(msg@, ring@, *nonces, key_image.bytes@, pi as int, (n - pi) as nat),
                c0.wf(),
            decreases n - k,
        {
            let idx = if k < n - pi {
                pi + k
            } else {
                k - (n - pi)
            };
            c = step(msg, &ring, &nonces.r, &key_image, idx, &c);
            k += 1;
            if k == n - pi {
                c0 = c;
            }
        }

        let sk = self.true_input.secret_key;
        let diff = self.true_input.revealed_commitment.blinding.sub(&revealed_pseudo_commitment.blinding);
        let mut r: Vec<(Scalar, Scalar)> = Vec::new();
        let mut j: usize = 0;
        while j < n
            invariant
                n == self.ring_size(),
                nonces.r@.len() == n,
                j <= n,
                r@.len() == j,
                forall|t: int| 0 <= t < j ==> #[trigger] r@[t] == nonces.r@[t],
            decreases n - j,
        {
            r.push(nonces.r[j]);
            j += 1;
        }
        let r_pi = (a0.sub(&c.mul(&sk)), a1.sub(&c.mul(&diff)));
        r.set(pi, r_pi);

        // The verifier's three points at the signer's position: the responses
        // close the chain, as they equal the points hashed into the seed.
        let (pk, hidden) = ring[pi];
        let l1 = Point::base_mul(&r_pi.0).add(&pk.mul(&c));
        let l2 = Point::base_mul(&r_pi.1).add(&hidden.mul(&c));
        let r1 = hp.mul(&r_pi.0).add(&key_image.mul(&c));
        proof {
            let q = field_order();
            let m0 = (c.val() * sk.val()) % q;
            assert(pk.bytes@ == g1_base_mul(sk.val())) by {
                assert(self.public_keys_spec(pi as int)[pi as int] == self.true_input.public_key_spec());
            }
            assert(sk.val() * c.val() == c.val() * sk.val()) by (nonlinear_arith);
            assert(0 <= m0 < q) by (nonlinear_arith) requires q > 0, m0 == (c.val() * sk.val()) % q;
            lemma_close(a0.val(), m0, q);
            assert(l1.bytes@ == g1_base_mul(a0.val()));
            assert(r1.bytes@ == g1_mul(hash_point(ring@[pi as int].0.bytes@), a0.val()));
            if same_value {
                let m1 = (c.val() * diff.val()) % q;
                assert(diff.val() * c.val() == c.val() * diff.val()) by (nonlinear_arith);
                assert(0 <= m1 < q) by (nonlinear_arith) requires q > 0, m1 == (c.val() * diff.val()) % q;
                lemma_close(a1.val(), m1, q);
                assert(l2.bytes@ == g1_base_mul(a1.val()));
            }
        }
        let sig = MlsagSignature { c0, r, key_image, ring, pseudo_commitment };
        proof {
            if same_value {
                let nn = n as int;
                assert(sig.r@[pi as int] == r_pi);
                lemma_chain_matches(msg@, sig, *nonces, pi as int, n as nat);
                assert forall|t: int| 0 <= t < nn implies #[trigger] sig.link_ok(t) by {
                    if t != pi {
                        assert(sig.r@[t] == nonces.r@[t]);
                    }
                }
            }
        }

        proof {
            let nn = self.ring_size();
            assert forall|t: int| 0 <= t < nn implies (#[trigger] sig.ring@[t]).0.bytes@ == self.public_keys_spec(pi as int)[t] by {
                assert(public_keys@[t].bytes@ == self.public_keys_spec(pi as int)[t]);
            }
            assert forall|t: int| 0 <= t < nn implies (#[trigger] sig.ring@[t]).1.bytes@
                == g1_sub(self.commitments_spec(pi as int)[t], revealed_pseudo_commitment.commitment()) by {
                assert(commitments@[t].bytes@ == self.commitments_spec(pi as int)[t]);
            }
        }
        sig
    }
}

/// A linkable ring signature. The position of the signer is not recorded.
#[derive(Debug)]
pub struct MlsagSignature {
    pub c0: Scalar,
    pub r: Vec<(Scalar, Scalar)>,
    pub key_image: Point,
    pub ring: Vec<(Point, Point)>,
    pub pseudo_commitment: Point,
}

impl MlsagSignature {
    /// The challenge that the verifier recomputes at ring index `k` (mod ring
    /// size), walking from `c0` at index 0.
    pub open spec fn verifier_chain(self, msg: Seq<u8>, k: nat) -> Seq<u8>
        decreases k,
    {
        if k == 0 {
            self.c0.bytes@
        } else {
            let c = self.verifier_chain(msg, (k - 1) as nat);
            ring_step(msg, self.ring@, self.r@, self.key_image.bytes@, k - 1, le_value(c) as int)
        }
    }

    /// Every hidden commitment is the ledger commitment minus the pseudo-commitment.
    pub open spec fn hidden_commitments_ok(self, public_commitments: Seq<Point>) -> bool {
        forall|i: int| 0 <= i < self.ring@.len() ==> #[trigger] self.hidden_commitment_ok(public_commitments, i)
    }

    /// The hidden commitment at `i` is the ledger commitment minus the pseudo-commitment.
    pub open spec fn hidden_commitment_ok(self, public_commitments: Seq<Point>, i: int) -> bool {
        &&& self.pseudo_commitment.valid()
        &&& public_commitments[i].valid()
        &&& self.ring@[i].1.bytes@ == g1_sub(public_commitments[i].bytes@, self.pseudo_commitment.bytes@)
    }

    /// The key image is a point of the group other than the identity.
    pub open spec fn key_image_ok(self) -> bool {
        self.key_image.valid() && self.key_image.bytes@ != identity_encoding()
    }

    /// The challenge chain, recomputed from `c0` over the whole ring, closes on `c0`.
    pub open spec fn chain_closes(self, msg: Seq<u8>) -> bool {
        &&& self.ring@.len() >= 1
        &&& self.r@.len() == self.ring@.len()
        &&& self.c0.wf()
        &&& forall|i: int| 0 <= i < self.ring@.len() ==> #[trigger] self.link_ok(i)
        &&& self.verifier_chain(msg, self.ring@.len()) == self.c0.bytes@
    }

    /// The responses at `i` are canonical scalars and the public key at `i` a point.
    pub open spec fn link_ok(self, i: int) -> bool {
        self.r@[i].0.wf() && self.r@[i].1.wf() && self.ring@[i].0.valid()
    }

    /// What `verify` returns.
    pub open spec fn verify_spec(self, msg: Seq<u8>, public_commitments: Seq<Point>) -> Result<(), Error> {
        if self.ring@.len() != public_commitments.len() {
            Err(Error::ExpectedAPublicCommitmentsForEachRingEntry)
        } else if !self.hidden_commitments_ok(public_commitments) {
            Err(Error::InvalidHiddenCommitmentInRing)
        } else if !self.key_image_ok() {
            Err(Error::KeyImageNotOnCurve)
        } else if !self.chain_closes(msg) {
            Err(Error::InvalidRingSignature)
        } else {
            Ok(())
        }
    }

    pub fn pseudo_commitment(&self) -> (r: Point)
        ensures
            r == self.pseudo_commitment,
    {
        self.pseudo_commitment
    }

    /// The first column of the ring.
    pub fn public_keys(&self) -> (r: Vec<Point>)
        ensures
            r@.len() == self.ring@.len(),
            forall|i: int| 0 <= i < r@.len() ==> #[trigger] r@[i] == self.ring@[i].0,
    {
        let mut keys: Vec<Point> = Vec::new();
        let mut i: usize = 0;
        while i < self.ring.len()
            invariant
                i <= self.ring@.len(),
                keys@.len() == i,
                forall|j: int| 0 <= j < i ==> #[trigger] keys@[j] == self.ring@[j].0,
            decreases self.ring@.len() - i,
        {
            keys.push(self.ring[i].0);
            i += 1;
        }
        keys
    }

    /// Checks the signature on `msg` against the ledger commitments of the ring
    /// members, in the order of the ring. The checks run in order and the first
    /// failure is returned.
    pub fn verify(&self, msg: &[u8], public_commitments: &[Point]) -> (res: Result<(), Error>)
        ensures
            res == self.verify_spec(msg@, public_commitments@),
    {
        let n = self.ring.len();
        if n != public_commitments.len() {
            return Err(Error::ExpectedAPublicCommitmentsForEachRingEntry);
        }
        let mut i: usize = 0;
        while i < n
            invariant
                n == self.ring@.len(),
                n == public_commitments@.len(),
                i <= n,
                forall|j: int| 0 <= j < i ==> #[trigger] self.hidden_commitment_ok(public_commitments@, j),
                forall|j: int| 0 <= j < i ==> (#[trigger] self.ring@[j]).1.valid(),
            decreases n - i,
        {
            if !self.pseudo_commitment.is_valid() || !public_commitments[i].is_valid() {
                assert(!self.hidden_commitment_ok(public_commitments@, i as int));
                return Err(Error::InvalidHiddenCommitmentInRing);
            }
            let expected = public_commitments[i].sub(&self.pseudo_commitment);
            if !self.ring[i].1.equals(&expected) {
                assert(!self.hidden_commitment_ok(public_commitments@, i as int));
                return Err(Error::InvalidHiddenCommitmentInRing);
            }
            i += 1;
        }

        assert(self.hidden_commitments_ok(public_commitments@));
        if !self.key_image.is_valid() || self.key_image.is_identity() {
            return Err(Error::KeyImageNotOnCurve);
        }

        if n == 0 || self.r.len() != n || !self.c0.is_canonical() {
            return Err(Error::InvalidRingSignature);
        }
        let mut c = self.c0;
        let mut k: usize = 0;
        while k < n
            invariant
                n == self.ring@.len(),
                n == self.r@.len(),
                k <= n,
                forall|j: int| 0 <= j < n ==> (#[trigger] self.ring@[j]).1.valid(),
                n == public_commitments@.len(),
                self.hidden_commitments_ok(public_commitments@),
                self.key_image_ok(),
                self.ring@.len() >= 1,
                self.c0.wf(),
                forall|j: int| 0 <= j < k ==> #[trigger] self.link_ok(j),
                c.wf(),
                c.bytes@ == self.verifier_chain(msg@, k as nat),
            decreases n - k,
        {
            if !self.r[k].0.is_canonical() || !self.r[k].1.is_canonical() || !self.ring[k].0.is_valid() {
                assert(!self.link_ok(k as int));
                return Err(Error::InvalidRingSignature);
            }
            assert(self.link_ok(k as int));
            c = step(msg, &self.ring, &self.r, &self.key_image, k, &c);
            k += 1;
        }
        if !c.equals(&self.c0) {
            return Err(Error::InvalidRingSignature);
        }
        Ok(())
    }
}

/// A signature made by `sign` passes the verifier's structural checks against
/// the ledger commitments of its ring, in ring order: one commitment per ring
/// member, and each hidden commitment equal to that ledger commitment minus
/// the pseudo-commitment.
pub proof fn lemma_signed_ring_is_coherent(
    material: MlsagMaterial,
    msg: Seq<u8>,
    pseudo: RevealedCommitment,
    nonces: SigningNonces,
    sig: MlsagSignature,
    public_commitments: Seq<Point>,
)
    requires
        material.is_signature(msg, pseudo, nonces, sig),
        public_commitments.len() == material.ring_size(),
        forall|i: int| 0 <= i < public_commitments.len() ==> (#[trigger] public_commitments[i]).valid()
            && public_commitments[i].bytes@ == material.commitments_spec(nonces.pi as int % material.ring_size())[i],
    ensures
        sig.ring@.len() == public_commitments.len(),
        sig.r@.len() == sig.ring@.len(),
        sig.hidden_commitments_ok(public_commitments),
        sig.verify_spec(msg, public_commitments) != Err::<(), Error>(Error::ExpectedAPublicCommitmentsForEachRingEntry),
        sig.verify_spec(msg, public_commitments) != Err::<(), Error>(Error::InvalidHiddenCommitmentInRing),
{
    assert forall|i: int| 0 <= i < sig.ring@.len() implies #[trigger] sig.hidden_commitment_ok(public_commitments, i) by {
        assert(public_commitments[i].valid());
        assert(sig.ring@[i].1 == sig.ring@[i].1);
    }
}

/// A signature made by `sign`, with a pseudo-commitment to the true input's
/// value, verifies against the ledger commitments of its ring in ring order,
/// provided its key image is not the identity (which the secret key zero gives).
pub proof fn lemma_signature_verifies(
    material: MlsagMaterial,
    msg: Seq<u8>,
    pseudo: RevealedCommitment,
    nonces: SigningNonces,
    sig: MlsagSignature,
    public_commitments: Seq<Point>,
)
    requires
        material.is_signature(msg, pseudo, nonces, sig),
        pseudo.value == material.true_input.revealed_commitment.value,
        public_commitments.len() == material.ring_size(),
        forall|i: int| 0 <= i < public_commitments.len() ==> (#[trigger] public_commitments[i]).valid()
            && public_commitments[i].bytes@ == material.commitments_spec(nonces.pi as int % material.ring_size())[i],
        sig.key_image.bytes@ != identity_encoding(),
    ensures
        sig.chain_closes(msg),
        sig.verify_spec(msg, public_commitments) == Ok::<(), Error>(()),
{
    lemma_signed_ring_is_coherent(material, msg, pseudo, nonces, sig, public_commitments);
}

/// Two signatures made with the same secret key carry the same key image,
/// whatever their rings, messages and draws.
pub proof fn lemma_key_image_links_signatures(
    m1: MlsagMaterial,
    msg1: Seq<u8>,
    pseudo1: RevealedCommitment,
    nonces1: SigningNonces,
    sig1: MlsagSignature,
    m2: MlsagMaterial,
    msg2: Seq<u8>,
    pseudo2: RevealedCommitment,
    nonces2: SigningNonces,
    sig2: MlsagSignature,
)
    requires
        m1.is_signature(msg1, pseudo1, nonces1, sig1),
        m2.is_signature(msg2, pseudo2, nonces2, sig2),
        m1.true_input.secret_key.val() == m2.true_input.secret_key.val(),
    ensures
        sig1.key_image.bytes@ == sig2.key_image.bytes@,
{
}

/// A hidden commitment that is not the ledger commitment minus the
/// pseudo-commitment is rejected, whatever the rest of the signature holds.
pub proof fn lemma_altered_hidden_commitment_is_rejected(
    sig: MlsagSignature,
    msg: Seq<u8>,
    public_commitments: Seq<Point>,
    i: int,
)
    requires
        sig.ring@.len() == public_commitments.len(),
        0 <= i < sig.ring@.len(),
        sig.ring@[i].1.bytes@ != g1_sub(public_commitments[i].bytes@, sig.pseudo_commitment.bytes@),
    ensures
        sig.verify_spec(msg, public_commitments) == Err::<(), Error>(Error::InvalidHiddenCommitmentInRing),
{
    assert(!sig.hidden_commitment_ok(public_commitments, i));
}

/// A key image that is not a point of the group, or is the identity, is
/// rejected once the ring's commitments check out.
pub proof fn lemma_bad_key_image_is_rejected(sig: MlsagSignature, msg: Seq<u8>, public_commitments: Seq<Point>)
    requires
        sig.ring@.len() == public_commitments.len(),
        sig.hidden_commitments_ok(public_commitments),
        !sig.key_image.valid() || sig.key_image.bytes@ == identity_encoding(),
    ensures
        sig.verify_spec(msg, public_commitments) == Err::<(), Error>(Error::KeyImageNotOnCurve),
{
}

} // verus!
