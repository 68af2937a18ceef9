//! The Schnorr identification scheme: the response, the verification
//! equation, and the interactive prover and verifier.
use crate::curve::{
    add_points, base_enc, bytes_eq, generate_random_scalar, group_order, is_valid_point,
    lemma_affine_mod, lemma_canonical_le, le_nat, mul_base, mul_point, point_add_of, point_mul_of,
    reduce_scalar, scalar_add, zero_bytes,
    scalar_mul, scalar_of, valid_point,
};
use crate::keyring::{get_32byte_key, read_spec, KeyId, KeyRing, SecretKeyErrors};
use crate::replay::ReplayStore;
use vstd::prelude::*;

verus! {

/// Whether `s·B == R + c·X`, as the curve arithmetic decides it, with `X`
/// and `R` both points of the prime-order subgroup and `s` a canonical scalar.
pub open spec fn schnorr_relation(x: Seq<u8>, r: Seq<u8>, c: Seq<u8>, s: Seq<u8>) -> bool {
    valid_point(x) && valid_point(r) && le_nat(s) < group_order() && match point_mul_of(scalar_of(c) as int, x) {
        Some(cx) => point_add_of(r, cx) == Some(base_enc(scalar_of(s) as int)),
        None => false,
    }
}

/// The response to challenge `c` for secret `x` and nonce `r`: `r + c·x mod q`.
pub open spec fn response_of(r: Seq<u8>, x: Seq<u8>, c: Seq<u8>) -> nat {
    (le_nat(r) + le_nat(c) * le_nat(x)) % group_order()
}

/// Why a proof could not be produced.
#[derive(Clone, Copy, Debug, PartialEq, Eq, Structural)]
pub enum ProofError {
    /// The private key could not be read.
    KeyUnavailable(SecretKeyErrors),
    /// A response was already given for this commitment.
    AlreadyAnswered,
}

/// The response `s = r + c·x mod q`, canonical.
pub fn generate_proof_response(r: &[u8; 32], x: &[u8; 32], c: &[u8; 32]) -> (s: [u8; 32])
    ensures
        le_nat(s@) == response_of(r@, x@, c@),
        scalar_of(s@) == (scalar_of(r@) + scalar_of(c@) * scalar_of(x@)) % group_order(),
{
    let cx = scalar_mul(c, x);
    let s = scalar_add(r, &cx);
    proof {
        let q = group_order() as int;
        lemma_affine_mod(le_nat(r@) as int, le_nat(c@) as int, le_nat(x@) as int, q);
        lemma_affine_mod(0, 1, le_nat(s@) as int, q);
    }
    s
}

/// Checks `s·B == R + c·X` for the public key `X` and the proof `(R, c, s)`.
///
/// A response that is not a canonical scalar is rejected. An honest proof is
/// always accepted: where `X = x·B`, `R = k·B` and `s = k + c·x mod q` in
/// canonical form, the result is `true`.
pub fn verify_int_proof(pubkey: [u8; 32], proof: ([u8; 32], [u8; 32], [u8; 32])) -> (ok: bool)
    ensures
        ok == schnorr_relation(pubkey@, proof.0@, proof.1@, proof.2@),
        ok ==> forall|k: int| 0 <= k < group_order() ==> #[trigger] point_mul_of(k, proof.0@) is Some,
        forall|x: int, k: int|
            #![trigger base_enc(x), base_enc(k)]
            0 <= x < group_order() && 0 <= k < group_order() && pubkey@ == base_enc(x) && proof.0@
                == base_enc(k) && le_nat(proof.2@) == (k + scalar_of(proof.1@) * x) % (
            group_order() as int) ==> ok,
{
    let (commitment, challenge, response) = proof;
    let q = Ghost(group_order() as int);
    if !is_valid_point(&pubkey) || !is_valid_point(&commitment) {
        return false;
    }
    let canonical = reduce_scalar(response);
    if !bytes_eq(&canonical, &response) {
        proof {
            if le_nat(response@) < group_order() {
                lemma_canonical_le(response@, canonical@);
            }
        }
        return false;
    }
    let cx = match mul_point(&challenge, &pubkey) {
        Some(p) => p,
        None => return false,
    };
    let sum = match add_points(&commitment, &cx) {
        Some(p) => p,
        None => return false,
    };
    let sb = mul_base(&response);
    let ok = bytes_eq(&sum, &sb);
    proof {
        assert forall|x: int, k: int|
            #![trigger base_enc(x), base_enc(k)]
            0 <= x < q@ && 0 <= k < q@ && pubkey@ == base_enc(x) && commitment@ == base_enc(k)
                && le_nat(response@) == (k + scalar_of(challenge@) * x) % q@ implies ok by {
            let j = (scalar_of(challenge@) * x) % q@;
            assert(cx@ == base_enc(j));
            assert(0 <= j < q@);
            lemma_affine_mod(k, scalar_of(challenge@) as int, x, q@);
            lemma_affine_mod(0, 1, le_nat(response@) as int, q@);
            assert(sum@ == base_enc((k + j) % q@));
        }
    }
    ok
}

/// A fresh key pair `(public, private)`: a random canonical scalar `x` and
/// the encoding of `x·B`.
pub fn gen_random_key_pair() -> (r: ([u8; 32], [u8; 32]))
    ensures
        le_nat(r.1@) < group_order(),
        r.0@ == base_enc(le_nat(r.1@) as int),
{
    let private_key = generate_random_scalar();
    let public_key = mul_base(&private_key);
    proof {
        lemma_affine_mod(0, 1, le_nat(private_key@) as int, group_order() as int);
    }
    (public_key, private_key)
}

/// What a prover holds.
pub struct ProverView {
    pub my_id: u32,
    pub recipient_id: u32,
    /// The secret nonce `r` behind the commitment.
    pub nonce: Seq<u8>,
    pub commitment: Seq<u8>,
    pub challenge: Seq<u8>,
    pub response: Seq<u8>,
    /// Whether a response was given.
    pub answered: bool,
}

/// The prover's half of one interactive Schnorr identification.
pub struct IntSchnorrProver {
    my_id: u32,
    recipient_id: u32,
    my_random_int: [u8; 32],
    my_commitment: [u8; 32],
    my_challenge: [u8; 32],
    my_response: [u8; 32],
    answered: bool,
}

impl View for IntSchnorrProver {
    type V = ProverView;

    closed spec fn view(&self) -> ProverView {
        ProverView {
            my_id: self.my_id,
            recipient_id: self.recipient_id,
            nonce: self.my_random_int@,
            commitment: self.my_commitment@,
            challenge: self.my_challenge@,
            response: self.my_response@,
            answered: self.answered,
        }
    }
}

/// The commitment is `r·B` for the canonical nonce `r`.
pub open spec fn commits_to_nonce(nonce: Seq<u8>, commitment: Seq<u8>) -> bool {
    le_nat(nonce) < group_order() && commitment == base_enc(le_nat(nonce) as int)
}

impl IntSchnorrProver {
    /// Draws a nonce `r` and commits to it with `R = r·B`.
    pub fn new(my_id: u32, recipient_id: u32) -> (r: IntSchnorrProver)
        ensures
            commits_to_nonce(r@.nonce, r@.commitment),
            !r@.answered,
            r@.challenge == zero_bytes(),
            r@.response == zero_bytes(),
            r@.my_id == my_id,
            r@.recipient_id == recipient_id,
    {
        let my_random_int = generate_random_scalar();
        let my_commitment = mul_base(&my_random_int);
        proof {
            lemma_affine_mod(0, 1, le_nat(my_random_int@) as int, group_order() as int);
        }
        let zeros = [0u8; 32];
        proof {
            assert(zeros@ =~= zero_bytes());
        }
        IntSchnorrProver {
            my_id,
            recipient_id,
            my_random_int,
            my_commitment,
            my_challenge: zeros,
            my_response: zeros,
            answered: false,
        }
    }

    /// The commitment `R = r·B`.
    pub fn my_commitment(&self) -> (r: [u8; 32])
        ensures
            r@ == self@.commitment,
    {
        self.my_commitment
    }

    /// Answers `challenge` with `s = r + c·x`, once.
    pub fn add_challenge(&mut self, ring: &KeyRing, challenge: [u8; 32]) -> (r: Result<
        [u8; 32],
        ProofError,
    >)
        requires
            ring.wf(),
        ensures
            final(self)@.nonce == old(self)@.nonce,
            final(self)@.commitment == old(self)@.commitment,
            final(self)@.my_id == old(self)@.my_id,
            final(self)@.recipient_id == old(self)@.recipient_id,
            old(self)@.answered ==> r == Err::<[u8; 32], ProofError>(ProofError::AlreadyAnswered)
                && final(self)@ == old(self)@,
            !old(self)@.answered ==> match read_spec(ring@, KeyId::PrivateKey(old(self)@.my_id), 32) {
                Err(e) => r == Err::<[u8; 32], ProofError>(ProofError::KeyUnavailable(e))
                    && final(self)@ == old(self)@,
                Ok(x) => r.is_ok() && le_nat(r.unwrap()@) == response_of(
                    old(self)@.nonce,
                    x,
                    challenge@,
                ) && final(self)@.answered && final(self)@.challenge == challenge@
                    && final(self)@.response == r.unwrap()@,
            },
    {
        if self.answered {
            return Err(ProofError::AlreadyAnswered);
        }
        let x = match get_32byte_key(ring, KeyId::PrivateKey(self.my_id)) {
            Ok(x) => x,
            Err(e) => return Err(ProofError::KeyUnavailable(e)),
        };
        let response = generate_proof_response(&self.my_random_int, &x, &challenge);
        self.my_challenge = challenge;
        self.my_response = response;
        self.answered = true;
        Ok(response)
    }
}

/// The verifier's half of one interactive Schnorr identification.
pub struct IntSchnorrVerifier {
    pub my_id: u32,
    pub sender_id: u32,
    pub commitment: [u8; 32],
    pub challenge: [u8; 32],
    pub response: [u8; 32],
}

impl IntSchnorrVerifier {
    /// Takes the prover's commitment and draws a random challenge.
    pub fn new(my_id: u32, sender_id: u32, commitment: [u8; 32]) -> (r: IntSchnorrVerifier)
        ensures
            r.my_id == my_id,
            r.sender_id == sender_id,
            r.commitment == commitment,
            le_nat(r.challenge@) < group_order(),
    {
        let challenge = generate_random_scalar();
        IntSchnorrVerifier { my_id, sender_id, commitment, challenge, response: [0u8; 32] }
    }

    /// Checks `response` against the commitment, the challenge and the
    /// sender's public key. A commitment already in the log is rejected; an
    /// accepted one is added to it.
    pub fn verify_proof(&mut self, ring: &KeyRing, store: &mut ReplayStore, response: [u8; 32]) -> (r:
        Result<bool, SecretKeyErrors>)
        requires
            ring.wf(),
            old(store).wf(),
        ensures
            final(store).wf(),
            final(self).response == response,
            final(self).commitment == old(self).commitment,
            final(self).challenge == old(self).challenge,
            final(self).sender_id == old(self).sender_id,
            final(store).counts() == old(store).counts(),
            final(store).threshold_spec() == old(store).threshold_spec(),
            accepted_once(
                old(store).log().contains((old(self).sender_id, old(self).commitment@)),
                read_spec(ring@, KeyId::PublicKey(old(self).sender_id), 32),
                old(self).commitment@,
                old(self).challenge@,
                response@,
                r,
            ),
            forall|x: int, j: int|
                #![trigger base_enc(x), base_enc(j)]
                0 <= x < group_order() && 0 <= j < group_order() && !old(store).log().contains(
                    (old(self).sender_id, old(self).commitment@),
                ) && read_spec(ring@, KeyId::PublicKey(old(self).sender_id), 32) == Ok::<
                    Seq<u8>,
                    SecretKeyErrors,
                >(base_enc(x)) && old(self).commitment@ == base_enc(j) && le_nat(response@) == (j
                    + scalar_of(old(self).challenge@) * x) % (group_order() as int) ==> r == Ok::<
                    bool,
                    SecretKeyErrors,
                >(true),
            final(store).log() == (if r == Ok::<bool, SecretKeyErrors>(true) {
                old(store).log().insert((old(self).sender_id, old(self).commitment@))
            } else {
                old(store).log()
            }),
    {
        self.response = response;
        if !store.check_commitment(self.sender_id, &self.commitment) {
            return Ok(false);
        }
        let pubkey = get_32byte_key(ring, KeyId::PublicKey(self.sender_id))?;
        let accepted = verify_int_proof(pubkey, (self.commitment, self.challenge, response));
        if accepted {
            store.record_commitment(self.sender_id, self.commitment);
        }
        Ok(accepted)
    }
}

/// The outcome of a verification with replay defence: a commitment already
/// seen is rejected, an unreadable public key is an error, and otherwise the
/// Schnorr relation decides.
pub open spec fn accepted_once(
    seen: bool,
    pubkey: Result<Seq<u8>, SecretKeyErrors>,
    commitment: Seq<u8>,
    challenge: Seq<u8>,
    response: Seq<u8>,
    r: Result<bool, SecretKeyErrors>,
) -> bool {
    if seen {
        r == Ok::<bool, SecretKeyErrors>(false)
    } else {
        match pubkey {
            Err(e) => r == Err::<bool, SecretKeyErrors>(e),
            Ok(x) => r == Ok::<bool, SecretKeyErrors>(
                schnorr_relation(x, commitment, challenge, response),
            ),
        }
    }
}

impl IntSchnorrProver {
    /// The own identity.
    pub fn my_id(&self) -> (r: u32)
        ensures
            r == self@.my_id,
    {
        self.my_id
    }

    /// The verifier's identity.
    pub fn recipient_id(&self) -> (r: u32)
        ensures
            r == self@.recipient_id,
    {
        self.recipient_id
    }

    /// The challenge answered, zero before any.
    pub fn my_challenge(&self) -> (r: [u8; 32])
        ensures
            r@ == self@.challenge,
    {
        self.my_challenge
    }

    /// The response given, zero before any.
    pub fn my_response(&self) -> (r: [u8; 32])
        ensures
            r@ == self@.response,
    {
        self.my_response
    }
}

} // verus!
