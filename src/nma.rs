//! Non-interactive mutual authentication: each side sends one proof bound to
//! the shared secret and counter, checks the peer's, and on success derives a
//! session key and ratchets the shared state.
use crate::curve::{
    base_enc, dh_key, group_order, is_valid_point, le_nat, mul_point,
    point_mul_of, scalar_of, sha3_256, sha3_of, valid_point,
};
use crate::keyring::{get_32byte_key, get_shared_counter, KeyId, KeyRing, SecretKeyErrors};
use crate::nizk::{
    bytes_to_vec, challenge_input, check_nizk_proof, nizk_proof, proof_inputs, ratchet_error, ratchet_spec, update_used_values,
};
use crate::replay::{counts_after, ReplayStore};
use crate::schnorr::{commits_to_nonce, response_of, schnorr_relation};
use vstd::prelude::*;

verus! {

/// What one side of the exchange holds.
pub struct NmaView {
    pub sender_id: u32,
    pub recipient_id: u32,
    /// Whether this side sent first.
    pub initiator: bool,
    /// The secret nonce `r` behind the own commitment.
    pub nonce: Seq<u8>,
    pub commitment: Seq<u8>,
    pub challenge: Seq<u8>,
    pub response: Seq<u8>,
    pub recipient_commitment: Seq<u8>,
    pub recipient_challenge: Seq<u8>,
    pub recipient_response: Seq<u8>,
    /// Whether the peer's proof was accepted.
    pub accepted: bool,
}

/// One side of a non-interactive mutual authentication.
pub struct NIZKMutAuth {
    sender_id: u32,
    recipient_id: u32,
    initiator: bool,
    my_random_int: [u8; 32],
    my_commitment: [u8; 32],
    my_challenge: [u8; 32],
    my_response: [u8; 32],
    recipient_commitment: [u8; 32],
    recipient_challenge: [u8; 32],
    recipient_response: [u8; 32],
    proof_accepted: bool,
}

impl View for NIZKMutAuth {
    type V = NmaView;

    closed spec fn view(&self) -> NmaView {
        NmaView {
            sender_id: self.sender_id,
            recipient_id: self.recipient_id,
            initiator: self.initiator,
            nonce: self.my_random_int@,
            commitment: self.my_commitment@,
            challenge: self.my_challenge@,
            response: self.my_response@,
            recipient_commitment: self.recipient_commitment@,
            recipient_challenge: self.recipient_challenge@,
            recipient_response: self.recipient_response@,
            accepted: self.proof_accepted,
        }
    }
}

/// The own proof of `v` is honest for private key `x`, shared secret `k` and
/// counter `n`, with no message.
pub open spec fn own_proof_honest(v: NmaView, x: Seq<u8>, k: Seq<u8>, n: Seq<u8>) -> bool {
    &&& commits_to_nonce(v.nonce, v.commitment)
    &&& v.challenge == sha3_of(challenge_input(v.commitment, k, n, None))
    &&& le_nat(v.response) == response_of(v.nonce, x, v.challenge)
}

/// The peer's public key, then the shared secret and the shared counter of
/// session `v`, or the first read that fails.
pub open spec fn peer_inputs(m: Map<KeyId, Seq<u8>>, v: NmaView) -> Result<
    (Seq<u8>, Seq<u8>, Seq<u8>),
    SecretKeyErrors,
> {
    proof_inputs(m, KeyId::PublicKey(v.recipient_id), v.sender_id, v.recipient_id)
}

/// The response that opens the ratchet input and the one that follows it:
/// the initiator's first, then the responder's, on both sides.
pub open spec fn ratchet_responses(v: NmaView) -> (Seq<u8>, Seq<u8>) {
    if v.initiator {
        (v.response, v.recipient_response)
    } else {
        (v.recipient_response, v.response)
    }
}

impl NIZKMutAuth {
    /// Starts a session of `sender_id` with `recipient_id` and generates the
    /// own proof. With the peer's proof this side is the responder and keeps
    /// it; without, it is the initiator.
    pub fn new(
        ring: &KeyRing,
        sender_id: u32,
        recipient_id: u32,
        sender_proof: Option<([u8; 32], [u8; 32], [u8; 32])>,
    ) -> (r: Result<(NIZKMutAuth, ([u8; 32], [u8; 32], [u8; 32])), SecretKeyErrors>)
        requires
            ring.wf(),
        ensures
            match proof_inputs(ring@, KeyId::PrivateKey(sender_id), sender_id, recipient_id) {
                Err(e) => r == Err::<(NIZKMutAuth, ([u8; 32], [u8; 32], [u8; 32])), SecretKeyErrors>(e),
                Ok((x, k, n)) => {
                    let v = r.unwrap().0@;
                    let p = r.unwrap().1;
                    &&& r.is_ok()
                    &&& own_proof_honest(v, x, k, n)
                    &&& p.0@ == v.commitment && p.1@ == v.challenge && p.2@ == v.response
                    &&& v.sender_id == sender_id && v.recipient_id == recipient_id
                    &&& v.initiator == sender_proof is None
                    &&& !v.accepted
                    &&& match sender_proof {
                        Some(q) => v.recipient_commitment == q.0@ && v.recipient_challenge == q.1@
                            && v.recipient_response == q.2@,
                        None => true,
                    }
                },
            },
    {
        let (initiator, recipient_commitment, recipient_challenge, recipient_response) =
            match sender_proof {
            Some((commitment, challenge, response)) => (false, commitment, challenge, response),
            None => (true, [0u8; 32], [0u8; 32], [0u8; 32]),
        };
        let mut nizk_mut_auth = NIZKMutAuth {
            sender_id,
            recipient_id,
            initiator,
            my_random_int: [0u8; 32],
            my_commitment: [0u8; 32],
            my_challenge: [0u8; 32],
            my_response: [0u8; 32],
            recipient_commitment,
            recipient_challenge,
            recipient_response,
            proof_accepted: false,
        };
        let proof = nizk_mut_auth.nizk_proof(ring)?;
        Ok((nizk_mut_auth, proof))
    }

    /// Generates the own proof, with no message, and keeps it.
    fn nizk_proof(&mut self, ring: &KeyRing) -> (r: Result<([u8; 32], [u8; 32], [u8; 32]), SecretKeyErrors>)
        requires
            ring.wf(),
        ensures
            match proof_inputs(
                ring@,
                KeyId::PrivateKey(old(self)@.sender_id),
                old(self)@.sender_id,
                old(self)@.recipient_id,
            ) {
                Err(e) => r == Err::<([u8; 32], [u8; 32], [u8; 32]), SecretKeyErrors>(e) && final(self)@ == old(self)@,
                Ok((x, k, n)) => {
                    &&& r.is_ok()
                    &&& own_proof_honest(final(self)@, x, k, n)
                    &&& r.unwrap().0@ == final(self)@.commitment
                    &&& r.unwrap().1@ == final(self)@.challenge
                    &&& r.unwrap().2@ == final(self)@.response
                    &&& final(self)@ == (NmaView {
                        nonce: final(self)@.nonce,
                        commitment: final(self)@.commitment,
                        challenge: final(self)@.challenge,
                        response: final(self)@.response,
                        ..old(self)@
                    })
                },
            },
    {
        let privkey = get_32byte_key(ring, KeyId::PrivateKey(self.sender_id))?;
        let sharedkey = get_32byte_key(ring, KeyId::SharedSecretKey(self.sender_id, self.recipient_id))?;
        let counter = get_shared_counter(ring, self.sender_id, self.recipient_id)?;
        let (nonce, commitment, challenge, response) = nizk_proof(&privkey, &sharedkey, &counter, None);
        self.my_random_int = nonce;
        self.my_commitment = commitment;
        self.my_challenge = challenge;
        self.my_response = response;
        Ok((commitment, challenge, response))
    }

    /// Takes the peer's proof; the initiator calls this with the reply.
    pub fn add_recipient_values(&mut self, proof: ([u8; 32], [u8; 32], [u8; 32]))
        ensures
            final(self)@ == (NmaView {
                recipient_commitment: proof.0@,
                recipient_challenge: proof.1@,
                recipient_response: proof.2@,
                ..old(self)@
            }),
    {
        let (commitment, challenge, response) = proof;
        self.recipient_commitment = commitment;
        self.recipient_challenge = challenge;
        self.recipient_response = response;
    }
}

impl NIZKMutAuth {
    /// Checks the peer's proof, with no message, against its public key and
    /// the shared secret and counter. A commitment already accepted from the
    /// peer is rejected at once; an accepted one is logged; a rejection is
    /// counted against the peer.
    pub fn verify_proof(&mut self, ring: &KeyRing, store: &mut ReplayStore) -> (r: Result<
        bool,
        SecretKeyErrors,
    >)
        requires
            ring.wf(),
            old(store).wf(),
        ensures
            final(store).wf(),
            final(store).threshold_spec() == old(store).threshold_spec(),
            forall|x: int, j: int|
                #![trigger base_enc(x), base_enc(j)]
                0 <= x < group_order() && 0 <= j < group_order() && !old(store).log().contains(
                    (old(self)@.recipient_id, old(self)@.recipient_commitment),
                ) && peer_inputs(ring@, old(self)@) is Ok && peer_inputs(ring@, old(self)@).unwrap().0
                    == base_enc(x) && old(self)@.recipient_commitment == base_enc(j) && le_nat(
                    old(self)@.recipient_response,
                ) == (j + scalar_of(old(self)@.recipient_challenge) * x) % (group_order() as int)
                    && old(self)@.recipient_challenge == sha3_of(
                    challenge_input(
                        old(self)@.recipient_commitment,
                        peer_inputs(ring@, old(self)@).unwrap().1,
                        peer_inputs(ring@, old(self)@).unwrap().2,
                        None,
                    ),
                ) ==> r == Ok::<bool, SecretKeyErrors>(true),
            r.is_ok() ==> final(self)@ == (NmaView { accepted: r.unwrap(), ..old(self)@ }),
            r.is_err() ==> final(self)@ == old(self)@,
            old(store).log().contains((old(self)@.recipient_id, old(self)@.recipient_commitment))
                ==> r == Ok::<bool, SecretKeyErrors>(false) && final(store).log() == old(store).log()
                && final(store).counts() == old(store).counts(),
            !old(store).log().contains((old(self)@.recipient_id, old(self)@.recipient_commitment))
                && !valid_point(old(self)@.recipient_commitment) ==> r == Ok::<bool, SecretKeyErrors>(
                false,
            ) && final(store).log() == old(store).log() && final(store).counts() == old(store).counts(),
            !old(store).log().contains((old(self)@.recipient_id, old(self)@.recipient_commitment))
                && valid_point(old(self)@.recipient_commitment) ==> match proof_inputs(
                ring@,
                KeyId::PublicKey(old(self)@.recipient_id),
                old(self)@.sender_id,
                old(self)@.recipient_id,
            ) {
                Err(e) => r == Err::<bool, SecretKeyErrors>(e) && final(store).log() == old(
                    store,
                ).log() && final(store).counts() == old(store).counts(),
                Ok((x, k, n)) => {
                    let v = old(self)@;
                    let schnorr = schnorr_relation(
                        x,
                        v.recipient_commitment,
                        v.recipient_challenge,
                        v.recipient_response,
                    );
                    let mac = v.recipient_challenge == sha3_of(
                        challenge_input(v.recipient_commitment, k, n, None),
                    );
                    if schnorr && mac {
                        &&& r == Ok::<bool, SecretKeyErrors>(true)
                        &&& final(store).log() == old(store).log().insert(
                            (v.recipient_id, v.recipient_commitment),
                        )
                        &&& final(store).counts() == old(store).counts()
                    } else {
                        &&& r == Ok::<bool, SecretKeyErrors>(false)
                        &&& final(store).log() == old(store).log()
                        &&& final(store).counts() == old(store).counts().insert(
                            v.recipient_id,
                            counts_after(old(store).counts_of(v.recipient_id), schnorr, mac),
                        )
                    }
                },
            },
    {
        if !store.check_commitment(self.recipient_id, &self.recipient_commitment)
            || !is_valid_point(&self.recipient_commitment) {
            self.proof_accepted = false;
            return Ok(false);
        }
        let pubkey = get_32byte_key(ring, KeyId::PublicKey(self.recipient_id))?;
        let sharedkey = get_32byte_key(ring, KeyId::SharedSecretKey(self.sender_id, self.recipient_id))?;
        let counter = get_shared_counter(ring, self.sender_id, self.recipient_id)?;
        let (schnorr, mac) = check_nizk_proof(
            pubkey,
            &sharedkey,
            &counter,
            None,
            (self.recipient_commitment, self.recipient_challenge, self.recipient_response),
        );
        let accepted = schnorr && mac;
        self.proof_accepted = accepted;
        if accepted {
            store.record_commitment(self.recipient_id, self.recipient_commitment);
        } else {
            store.manage_intrusion(self.recipient_id, schnorr, mac);
        }
        Ok(accepted)
    }

    /// Once the peer's proof is accepted, derives the session key
    /// `SHA3-256(r·R_peer)` and ratchets the shared state with both
    /// responses, the initiator's first. Before that, or where `r·R_peer`
    /// cannot be computed, it returns `None` and changes nothing.
    pub fn calculate_session_key(&self, ring: &mut KeyRing) -> (r: Result<Option<[u8; 32]>, SecretKeyErrors>)
        requires
            old(ring).wf(),
        ensures
            final(ring).wf(),
            r.is_ok() && r.unwrap() is Some ==> final(ring)@[KeyId::SharedSecretKey(self@.sender_id, self@.recipient_id)].len() == 32,
            !self@.accepted ==> r == Ok::<Option<[u8; 32]>, SecretKeyErrors>(None) && final(ring)@
                == old(ring)@,
            self@.accepted ==> match point_mul_of(scalar_of(self@.nonce) as int, self@.recipient_commitment) {
                None => r == Ok::<Option<[u8; 32]>, SecretKeyErrors>(None) && final(ring)@ == old(ring)@,
                Some(p) => match ratchet_error(old(ring)@, self@.sender_id, self@.recipient_id) {
                    Some(e) => r == Err::<Option<[u8; 32]>, SecretKeyErrors>(e) && final(ring)@
                        == old(ring)@,
                    None => {
                        &&& r.is_ok() && r.unwrap() is Some
                        &&& r.unwrap().unwrap()@ == sha3_of(p)
                        &&& final(ring)@ == ratchet_spec(
                            old(ring)@,
                            self@.sender_id,
                            self@.recipient_id,
                            ratchet_responses(self@).0,
                            Some(ratchet_responses(self@).1),
                        )
                    },
                },
            },
            forall|j: int|
                0 <= j < group_order() && self@.recipient_commitment == #[trigger] base_enc(j)
                    && self@.accepted && ratchet_error(old(ring)@, self@.sender_id, self@.recipient_id)
                    is None ==> r.is_ok() && r.unwrap() is Some,
            forall|j: int|
                0 <= j < group_order() && self@.recipient_commitment == #[trigger] base_enc(j) && r.is_ok()
                    && r.unwrap() is Some ==> r.unwrap().unwrap()@ == dh_key(scalar_of(self@.nonce) as int, j),
    {
        if !self.proof_accepted {
            return Ok(None);
        }
        let session_point = match mul_point(&self.my_random_int, &self.recipient_commitment) {
            Some(p) => p,
            None => return Ok(None),
        };
        let session_key = sha3_256(&bytes_to_vec(&session_point));
        if self.initiator {
            update_used_values(
                ring,
                self.sender_id,
                self.recipient_id,
                self.my_response,
                Some(self.recipient_response.as_slice()),
            )?;
        } else {
            update_used_values(
                ring,
                self.sender_id,
                self.recipient_id,
                self.recipient_response,
                Some(self.my_response.as_slice()),
            )?;
        }
        Ok(Some(session_key))
    }
}

/// The two sides of an exchange that start from the same shared secret and
/// counter, each from its own perspective, and ratchet with the same pair of
/// responses, end with the same secret and the same counter.
pub proof fn lemma_ratchet_agreement(
    ma: Map<KeyId, Seq<u8>>,
    mb: Map<KeyId, Seq<u8>>,
    a: u32,
    b: u32,
    first: Seq<u8>,
    second: Option<Seq<u8>>,
)
    requires
        ma[KeyId::SharedSecretKey(a, b)] == mb[KeyId::SharedSecretKey(b, a)],
        ma[KeyId::SharedCounter(a, b)] == mb[KeyId::SharedCounter(b, a)],
    ensures
        ratchet_spec(ma, a, b, first, second)[KeyId::SharedSecretKey(a, b)] == ratchet_spec(
            mb,
            b,
            a,
            first,
            second,
        )[KeyId::SharedSecretKey(b, a)],
        ratchet_spec(ma, a, b, first, second)[KeyId::SharedCounter(a, b)] == ratchet_spec(
            mb,
            b,
            a,
            first,
            second,
        )[KeyId::SharedCounter(b, a)],
{
}

/// An initiator and a responder that hold each other's proofs feed the
/// ratchet the same pair of responses.
pub proof fn lemma_ratchet_responses_agree(i: NmaView, r: NmaView)
    requires
        i.initiator,
        !r.initiator,
        i.recipient_response == r.response,
        r.recipient_response == i.response,
    ensures
        ratchet_responses(i) == ratchet_responses(r),
{
}

impl NIZKMutAuth {
    /// The own identity.
    pub fn sender_id(&self) -> (r: u32)
        ensures
            r == self@.sender_id,
    {
        self.sender_id
    }

    /// The peer's identity.
    pub fn recipient_id(&self) -> (r: u32)
        ensures
            r == self@.recipient_id,
    {
        self.recipient_id
    }
}

} // verus!
