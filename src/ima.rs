//! Interactive mutual authentication: both parties prove possession of their
//! private keys in four messages and derive a shared secret from the same
//! commitments.
use crate::curve::{
    base_enc, dh_key, generate_random_scalar, lemma_dh_agreement, group_order, lemma_affine_mod, le_nat, mul_base,
    mul_point, point_mul_of, scalar_of, sha3_256, sha3_of,
};
use crate::keyring::{get_32byte_key, read_spec, KeyId, KeyRing, SecretKeyErrors};
use crate::nizk::{be_bytes, be_nat, bytes_to_vec, counter_to_bytes, lemma_be_round_trip};
use crate::replay::ReplayStore;
use crate::schnorr::{commits_to_nonce, generate_proof_response, response_of, schnorr_relation, verify_int_proof, ProofError};
use vstd::prelude::*;

verus! {

/// The role of the party that sends first.
pub const CONST_INITIATOR_ROLE: u8 = 0;

/// The role of the party that answers.
pub const CONST_RECEIVER_ROLE: u8 = 1;

/// Stage tag: nothing more to send until the peer's next message.
pub const CONST_NEXT_STEP_REQUIRED: u8 = 0;

/// Stage tag: a commitment.
pub const CONST_COMMITMENT: u8 = 1;

/// Stage tag: a commitment and a challenge.
pub const CONST_COMMITMENT_AND_CHALLENGE: u8 = 2;

/// Stage tag: a challenge and a response.
pub const CONST_CHALLENGE_AND_RESPONSE: u8 = 3;

/// Stage tag: a response.
pub const CONST_RESPONSE: u8 = 4;

/// The peer's proof is not complete yet.
pub const CONST_RESPONSE_CANNOT_BE_VERIFIED: u8 = 0;

/// The peer's proof is complete; it is checked once the own response is sent.
pub const CONST_RESPONSE_CAN_BE_VERIFIED_AFTER_GENERATING_RESPONSE: u8 = 1;

/// The peer's proof is complete and can be checked.
pub const CONST_RESPONSE_CAN_BE_VERIFIED: u8 = 2;

/// The message's tag is not the one expected next.
pub const CONST_RECEIVED_WRONG_REQUEST_ID: u8 = 3;

/// No further values are to be generated.
pub const CONST_NO_OTHER_VALUES_TO_GENERATE: u8 = 0;

/// Further values are to be generated.
pub const CONST_NEXT_VALUES_HAS_TO_BE_GENERATED: u8 = 1;

/// What one side of the exchange holds.
pub struct ImaView {
    pub sender_id: u32,
    pub recipient_id: u32,
    pub role: u8,
    /// The tag of the next message to send.
    pub stage: u8,
    /// The tag of the last message taken from the peer (zero before any).
    pub received: u8,
    /// The secret nonce `r` behind the own commitment.
    pub nonce: Seq<u8>,
    pub commitment: Seq<u8>,
    pub my_challenge: Seq<u8>,
    pub my_response: Seq<u8>,
    pub recipient_commitment: Seq<u8>,
    pub recipient_challenge: Seq<u8>,
    pub recipient_response: Seq<u8>,
}

/// The tag expected next from the peer (zero where nothing more is).
pub open spec fn expected_tag(role: u8, received: u8) -> u8 {
    if role == CONST_RECEIVER_ROLE {
        if received == 0 {
            CONST_COMMITMENT
        } else if received == CONST_COMMITMENT {
            CONST_CHALLENGE_AND_RESPONSE
        } else {
            0
        }
    } else {
        if received == 0 {
            CONST_COMMITMENT_AND_CHALLENGE
        } else if received == CONST_COMMITMENT_AND_CHALLENGE {
            CONST_RESPONSE
        } else {
            0
        }
    }
}

/// Whether the peer's proof is complete: its commitment, the own challenge
/// and its response are all in.
pub open spec fn ready_to_verify(v: ImaView) -> bool {
    if v.role == CONST_RECEIVER_ROLE {
        v.received == CONST_CHALLENGE_AND_RESPONSE && v.stage == CONST_NEXT_STEP_REQUIRED
    } else {
        v.received == CONST_RESPONSE
    }
}

/// One side of an interactive mutual authentication.
pub struct IntMutAuth {
    sender_id: u32,
    recipient_id: u32,
    role: u8,
    stage: u8,
    received: u8,
    my_random_int: [u8; 32],
    my_commitment: [u8; 32],
    my_challenge: [u8; 32],
    my_response: [u8; 32],
    recipient_commitment: [u8; 32],
    recipient_challenge: [u8; 32],
    recipient_response: [u8; 32],
}

impl View for IntMutAuth {
    type V = ImaView;

    closed spec fn view(&self) -> ImaView {
        ImaView {
            sender_id: self.sender_id,
            recipient_id: self.recipient_id,
            role: self.role,
            stage: self.stage,
            received: self.received,
            nonce: self.my_random_int@,
            commitment: self.my_commitment@,
            my_challenge: self.my_challenge@,
            my_response: self.my_response@,
            recipient_commitment: self.recipient_commitment@,
            recipient_challenge: self.recipient_challenge@,
            recipient_response: self.recipient_response@,
        }
    }
}

impl IntMutAuth {
    /// Draws a nonce `r` and commits to it with `R = r·B`. A receiver starts
    /// by sending its commitment with a challenge; any other role is the
    /// initiator and starts with its commitment.
    pub fn new(sender_id: u32, recipient_id: u32, role: u8) -> (r: IntMutAuth)
        ensures
            r@.sender_id == sender_id,
            r@.recipient_id == recipient_id,
            r@.role == role,
            r@.stage == (if role == CONST_RECEIVER_ROLE {
                CONST_COMMITMENT_AND_CHALLENGE
            } else {
                CONST_COMMITMENT
            }),
            r@.received == 0,
            commits_to_nonce(r@.nonce, r@.commitment),
    {
        let my_random_int = generate_random_scalar();
        let my_commitment = mul_base(&my_random_int);
        proof {
            lemma_affine_mod(0, 1, le_nat(my_random_int@) as int, group_order() as int);
        }
        let stage = if role == CONST_RECEIVER_ROLE {
            CONST_COMMITMENT_AND_CHALLENGE
        } else {
            CONST_COMMITMENT
        };
        IntMutAuth {
            sender_id,
            recipient_id,
            role,
            stage,
            received: 0,
            my_random_int,
            my_commitment,
            my_challenge: [0u8; 32],
            my_response: [0u8; 32],
            recipient_commitment: [0u8; 32],
            recipient_challenge: [0u8; 32],
            recipient_response: [0u8; 32],
        }
    }

    /// Takes the peer's message with tag `request_type`. A tag other than the
    /// one expected next, or a missing second value, is refused with
    /// `CONST_RECEIVED_WRONG_REQUEST_ID` and changes nothing.
    pub fn add_recipient_values(&mut self, request_type: u8, val1: [u8; 32], val2: Option<[u8; 32]>) -> (r: u8)
        ensures
            request_type == CONST_NEXT_STEP_REQUIRED ==> r == CONST_RESPONSE_CANNOT_BE_VERIFIED
                && final(self)@ == old(self)@,
            request_type != CONST_NEXT_STEP_REQUIRED && (request_type != expected_tag(
                old(self)@.role,
                old(self)@.received,
            ) || ((request_type == CONST_COMMITMENT_AND_CHALLENGE || request_type
                == CONST_CHALLENGE_AND_RESPONSE) && val2 is None)) ==> r
                == CONST_RECEIVED_WRONG_REQUEST_ID && final(self)@ == old(self)@,
            request_type != CONST_NEXT_STEP_REQUIRED && request_type == expected_tag(
                old(self)@.role,
                old(self)@.received,
            ) && !((request_type == CONST_COMMITMENT_AND_CHALLENGE || request_type
                == CONST_CHALLENGE_AND_RESPONSE) && val2 is None) ==> final(self)@ == (
            recipient_values_after(old(self)@, request_type, val1@, opt_bytes(val2))) && r == (
            if request_type == CONST_CHALLENGE_AND_RESPONSE {
                CONST_RESPONSE_CAN_BE_VERIFIED_AFTER_GENERATING_RESPONSE
            } else if request_type == CONST_RESPONSE {
                CONST_RESPONSE_CAN_BE_VERIFIED
            } else {
                CONST_RESPONSE_CANNOT_BE_VERIFIED
            }),
    {
        if request_type == CONST_NEXT_STEP_REQUIRED {
            return CONST_RESPONSE_CANNOT_BE_VERIFIED;
        }
        let expected = if self.role == CONST_RECEIVER_ROLE {
            if self.received == 0 {
                CONST_COMMITMENT
            } else if self.received == CONST_COMMITMENT {
                CONST_CHALLENGE_AND_RESPONSE
            } else {
                0
            }
        } else {
            if self.received == 0 {
                CONST_COMMITMENT_AND_CHALLENGE
            } else if self.received == CONST_COMMITMENT_AND_CHALLENGE {
                CONST_RESPONSE
            } else {
                0
            }
        };
        if request_type != expected {
            return CONST_RECEIVED_WRONG_REQUEST_ID;
        }
        if request_type == CONST_COMMITMENT {
            self.recipient_commitment = val1;
            self.received = request_type;
            CONST_RESPONSE_CANNOT_BE_VERIFIED
        } else if request_type == CONST_COMMITMENT_AND_CHALLENGE {
            match val2 {
                Some(c) => {
                    self.recipient_commitment = val1;
                    self.recipient_challenge = c;
                    self.received = request_type;
                    CONST_RESPONSE_CANNOT_BE_VERIFIED
                },
                None => CONST_RECEIVED_WRONG_REQUEST_ID,
            }
        } else if request_type == CONST_CHALLENGE_AND_RESPONSE {
            match val2 {
                Some(s) => {
                    self.recipient_challenge = val1;
                    self.recipient_response = s;
                    self.received = request_type;
                    CONST_RESPONSE_CAN_BE_VERIFIED_AFTER_GENERATING_RESPONSE
                },
                None => CONST_RECEIVED_WRONG_REQUEST_ID,
            }
        } else {
            self.recipient_response = val1;
            self.received = request_type;
            CONST_RESPONSE_CAN_BE_VERIFIED
        }
    }
}

/// What the next message of a session `s` is: its tag, and whether it
/// needs a fresh challenge and the own response.
pub open spec fn next_tag(s: ImaView) -> u8 {
    if s.stage == CONST_COMMITMENT {
        CONST_COMMITMENT
    } else if s.stage == CONST_COMMITMENT_AND_CHALLENGE && s.received == CONST_COMMITMENT {
        CONST_COMMITMENT_AND_CHALLENGE
    } else if s.stage == CONST_CHALLENGE_AND_RESPONSE && s.received
        == CONST_COMMITMENT_AND_CHALLENGE {
        CONST_CHALLENGE_AND_RESPONSE
    } else if s.stage == CONST_RESPONSE && s.received == CONST_CHALLENGE_AND_RESPONSE {
        CONST_RESPONSE
    } else {
        CONST_NEXT_STEP_REQUIRED
    }
}

impl IntMutAuth {
    /// Emits the next message `(val1, val2, tag)`: the commitment; the
    /// commitment with a fresh challenge; a fresh challenge with the response
    /// to the peer's challenge; or that response. Where the peer's message
    /// that it answers has not come, or all is sent, it emits the commitment
    /// with the tag `CONST_NEXT_STEP_REQUIRED` and changes nothing.
    pub fn gen_next_values(&mut self, ring: &KeyRing) -> (r: Result<
        ([u8; 32], Option<[u8; 32]>, u8),
        ProofError,
    >)
        requires
            ring.wf(),
        ensures
            final(self)@.sender_id == old(self)@.sender_id,
            final(self)@.recipient_id == old(self)@.recipient_id,
            final(self)@.role == old(self)@.role,
            final(self)@.received == old(self)@.received,
            final(self)@.nonce == old(self)@.nonce,
            final(self)@.commitment == old(self)@.commitment,
            final(self)@.recipient_commitment == old(self)@.recipient_commitment,
            final(self)@.recipient_challenge == old(self)@.recipient_challenge,
            final(self)@.recipient_response == old(self)@.recipient_response,
            next_tag(old(self)@) == CONST_NEXT_STEP_REQUIRED ==> final(self)@ == old(self)@
                && r.is_ok() && r.unwrap().0@ == old(self)@.commitment && r.unwrap().1 is None
                && r.unwrap().2 == CONST_NEXT_STEP_REQUIRED,
            next_tag(old(self)@) == CONST_COMMITMENT ==> final(self)@.stage
                == CONST_CHALLENGE_AND_RESPONSE && r.is_ok() && r.unwrap().0@ == old(
                self,
            )@.commitment && r.unwrap().1 is None && r.unwrap().2 == CONST_COMMITMENT,
            next_tag(old(self)@) == CONST_COMMITMENT_AND_CHALLENGE ==> final(self)@.stage
                == CONST_RESPONSE && r.is_ok() && r.unwrap().0@ == old(self)@.commitment
                && r.unwrap().1 is Some && final(self)@.my_challenge == r.unwrap().1.unwrap()@
                && le_nat(final(self)@.my_challenge) < group_order() && r.unwrap().2
                == CONST_COMMITMENT_AND_CHALLENGE,
            (next_tag(old(self)@) == CONST_CHALLENGE_AND_RESPONSE || next_tag(old(self)@)
                == CONST_RESPONSE) ==> match read_spec(
                ring@,
                KeyId::PrivateKey(old(self)@.sender_id),
                32,
            ) {
                Err(e) => r == Err::<([u8; 32], Option<[u8; 32]>, u8), ProofError>(
                    ProofError::KeyUnavailable(e),
                ) && final(self)@ == old(self)@,
                Ok(x) => {
                    &&& r.is_ok()
                    &&& r.unwrap().2 == next_tag(old(self)@)
                    &&& final(self)@.stage == CONST_NEXT_STEP_REQUIRED
                    &&& le_nat(final(self)@.my_response) == response_of(
                        old(self)@.nonce,
                        x,
                        old(self)@.recipient_challenge,
                    )
                    &&& if next_tag(old(self)@) == CONST_CHALLENGE_AND_RESPONSE {
                        &&& r.unwrap().0@ == final(self)@.my_challenge
                        &&& le_nat(final(self)@.my_challenge) < group_order()
                        &&& r.unwrap().1 is Some
                        &&& r.unwrap().1.unwrap()@ == final(self)@.my_response
                    } else {
                        &&& r.unwrap().0@ == final(self)@.my_response
                        &&& r.unwrap().1 is None
                        &&& final(self)@.my_challenge == old(self)@.my_challenge
                    }
                },
            },
    {
        if self.stage == CONST_COMMITMENT {
            self.stage = CONST_CHALLENGE_AND_RESPONSE;
            Ok((self.my_commitment, None, CONST_COMMITMENT))
        } else if self.stage == CONST_COMMITMENT_AND_CHALLENGE && self.received == CONST_COMMITMENT {
            let challenge = generate_random_scalar();
            self.my_challenge = challenge;
            self.stage = CONST_RESPONSE;
            Ok((self.my_commitment, Some(challenge), CONST_COMMITMENT_AND_CHALLENGE))
        } else if self.stage == CONST_CHALLENGE_AND_RESPONSE && self.received
            == CONST_COMMITMENT_AND_CHALLENGE {
            let response = self.gen_proof(ring)?;
            let challenge = generate_random_scalar();
            self.my_challenge = challenge;
            self.my_response = response;
            self.stage = CONST_NEXT_STEP_REQUIRED;
            Ok((challenge, Some(response), CONST_CHALLENGE_AND_RESPONSE))
        } else if self.stage == CONST_RESPONSE && self.received == CONST_CHALLENGE_AND_RESPONSE {
            let response = self.gen_proof(ring)?;
            self.my_response = response;
            self.stage = CONST_NEXT_STEP_REQUIRED;
            Ok((response, None, CONST_RESPONSE))
        } else {
            Ok((self.my_commitment, None, CONST_NEXT_STEP_REQUIRED))
        }
    }

    /// The response `r + c·x` to the peer's challenge `c`.
    fn gen_proof(&self, ring: &KeyRing) -> (r: Result<[u8; 32], ProofError>)
        requires
            ring.wf(),
        ensures
            match read_spec(ring@, KeyId::PrivateKey(self@.sender_id), 32) {
                Err(e) => r == Err::<[u8; 32], ProofError>(ProofError::KeyUnavailable(e)),
                Ok(x) => r.is_ok() && le_nat(r.unwrap()@) == response_of(
                    self@.nonce,
                    x,
                    self@.recipient_challenge,
                ),
            },
    {
        let x = match get_32byte_key(ring, KeyId::PrivateKey(self.sender_id)) {
            Ok(x) => x,
            Err(e) => return Err(ProofError::KeyUnavailable(e)),
        };
        Ok(generate_proof_response(&self.my_random_int, &x, &self.recipient_challenge))
    }
}

/// The keyring after a successful exchange of `a` with `b` whose shared
/// point has encoding `p`: the secret is `SHA3-256(p)` and the counter one.
pub open spec fn shared_state_after(m: Map<KeyId, Seq<u8>>, a: u32, b: u32, p: Seq<u8>) -> Map<
    KeyId,
    Seq<u8>,
> {
    m.insert(KeyId::SharedSecretKey(a, b), sha3_of(p)).insert(
        KeyId::SharedCounter(a, b),
        be_bytes(1),
    )
}

impl IntMutAuth {
    /// Checks the peer's proof: its commitment, the own challenge and its
    /// response, against its public key. A commitment already accepted from
    /// the peer is rejected. On success the commitment is logged and the
    /// shared secret `SHA3-256(r·R_peer)` and the counter one are stored.
    pub fn verify_proof(&self, ring: &mut KeyRing, store: &mut ReplayStore) -> (r: Result<
        bool,
        SecretKeyErrors,
    >)
        requires
            old(ring).wf(),
            old(store).wf(),
        ensures
            final(ring).wf(),
            final(store).wf(),
            final(store).counts() == old(store).counts(),
            final(store).threshold_spec() == old(store).threshold_spec(),
            r != Ok::<bool, SecretKeyErrors>(true) ==> final(ring)@ == old(ring)@
                && final(store).log() == old(store).log(),
            (!ready_to_verify(self@) || old(store).log().contains(
                (self@.recipient_id, self@.recipient_commitment),
            )) ==> r == Ok::<bool, SecretKeyErrors>(false),
            ready_to_verify(self@) && !old(store).log().contains(
                (self@.recipient_id, self@.recipient_commitment),
            ) ==> match read_spec(old(ring)@, KeyId::PublicKey(self@.recipient_id), 32) {
                Err(e) => r == Err::<bool, SecretKeyErrors>(e),
                Ok(x) => if schnorr_relation(
                    x,
                    self@.recipient_commitment,
                    self@.my_challenge,
                    self@.recipient_response,
                ) {
                    &&& r == Ok::<bool, SecretKeyErrors>(true)
                    &&& final(ring)@ == shared_state_after(
                        old(ring)@,
                        self@.sender_id,
                        self@.recipient_id,
                        point_mul_of(scalar_of(self@.nonce) as int, self@.recipient_commitment).unwrap(),
                    )
                    &&& final(store).log() == old(store).log().insert(
                        (self@.recipient_id, self@.recipient_commitment),
                    )
                } else {
                    r == Ok::<bool, SecretKeyErrors>(false)
                },
            },
            forall|x: int, j: int|
                #![trigger base_enc(x), base_enc(j)]
                0 <= x < group_order() && 0 <= j < group_order() && ready_to_verify(self@) && !old(
                    store,
                ).log().contains((self@.recipient_id, self@.recipient_commitment)) && read_spec(
                    old(ring)@,
                    KeyId::PublicKey(self@.recipient_id),
                    32,
                ) == Ok::<Seq<u8>, SecretKeyErrors>(base_enc(x)) && self@.recipient_commitment
                    == base_enc(j) && le_nat(self@.recipient_response) == (j + scalar_of(
                    self@.my_challenge,
                ) * x) % (group_order() as int) ==> r == Ok::<bool, SecretKeyErrors>(true),
            r == Ok::<bool, SecretKeyErrors>(true) ==> final(ring)@[KeyId::SharedSecretKey(
                self@.sender_id,
                self@.recipient_id,
            )].len() == 32,
            r == Ok::<bool, SecretKeyErrors>(true) ==> forall|j: int|
                0 <= j < group_order() && self@.recipient_commitment == #[trigger] base_enc(j)
                    ==> final(ring)@[KeyId::SharedSecretKey(self@.sender_id, self@.recipient_id)]
                    == dh_key(scalar_of(self@.nonce) as int, j),
    {
        let ready = if self.role == CONST_RECEIVER_ROLE {
            self.received == CONST_CHALLENGE_AND_RESPONSE && self.stage == CONST_NEXT_STEP_REQUIRED
        } else {
            self.received == CONST_RESPONSE
        };
        if !ready {
            return Ok(false);
        }
        if !store.check_commitment(self.recipient_id, &self.recipient_commitment) {
            return Ok(false);
        }
        let pubkey = get_32byte_key(ring, KeyId::PublicKey(self.recipient_id))?;
        let accepted = verify_int_proof(
            pubkey,
            (self.recipient_commitment, self.my_challenge, self.recipient_response),
        );
        if !accepted {
            return Ok(false);
        }
        let shared_point = match mul_point(&self.my_random_int, &self.recipient_commitment) {
            Some(p) => p,
            None => return Ok(false),
        };
        self.calculate_shared_secret_key(ring, &shared_point);
        store.record_commitment(self.recipient_id, self.recipient_commitment);
        Ok(true)
    }

    /// Stores `SHA3-256(p)` as the secret shared with the peer and one as the
    /// shared counter.
    fn calculate_shared_secret_key(&self, ring: &mut KeyRing, shared_point: &[u8; 32])
        requires
            old(ring).wf(),
        ensures
            final(ring).wf(),
            final(ring)@ == shared_state_after(
                old(ring)@,
                self@.sender_id,
                self@.recipient_id,
                shared_point@,
            ),
            final(ring)@[KeyId::SharedSecretKey(self@.sender_id, self@.recipient_id)].len() == 32,
    {
        let key = sha3_256(&bytes_to_vec(shared_point));
        ring.put(KeyId::SharedSecretKey(self.sender_id, self.recipient_id), bytes_to_vec(&key));
        let counter = counter_to_bytes(1);
        ring.put(KeyId::SharedCounter(self.sender_id, self.recipient_id), bytes_to_vec(&counter));
    }
}

/// After a successful exchange between `a` with nonce `ra` and `b` with
/// nonce `rb`, each side holds, from its own perspective, the same shared
/// secret `SHA3-256((ra·rb)·B)` and the shared counter one.
pub proof fn lemma_ima_agreement(
    ma: Map<KeyId, Seq<u8>>,
    mb: Map<KeyId, Seq<u8>>,
    a: u32,
    b: u32,
    ra: int,
    rb: int,
)
    requires
        ma[KeyId::SharedSecretKey(a, b)] == dh_key(ra, rb),
        mb[KeyId::SharedSecretKey(b, a)] == dh_key(rb, ra),
        ma[KeyId::SharedCounter(a, b)] == be_bytes(1),
        mb[KeyId::SharedCounter(b, a)] == be_bytes(1),
    ensures
        ma[KeyId::SharedSecretKey(a, b)] == mb[KeyId::SharedSecretKey(b, a)],
        ma[KeyId::SharedSecretKey(a, b)] == sha3_of(
            base_enc((ra * rb) % (group_order() as int)),
        ),
        be_nat(ma[KeyId::SharedCounter(a, b)]) == 1,
        be_nat(mb[KeyId::SharedCounter(b, a)]) == 1,
{
    lemma_dh_agreement(ra, rb);
    lemma_be_round_trip(1);
}

/// The bytes of an optional value, empty where it is absent.
pub open spec fn opt_bytes(v: Option<[u8; 32]>) -> Seq<u8> {
    match v {
        Some(b) => b@,
        None => Seq::empty(),
    }
}

/// The session after taking the peer's message with the expected tag `tag`
/// and values `v1`, `v2`.
pub open spec fn recipient_values_after(s: ImaView, tag: u8, v1: Seq<u8>, v2: Seq<u8>) -> ImaView {
    if tag == CONST_COMMITMENT {
        ImaView { recipient_commitment: v1, received: tag, ..s }
    } else if tag == CONST_COMMITMENT_AND_CHALLENGE {
        ImaView { recipient_commitment: v1, recipient_challenge: v2, received: tag, ..s }
    } else if tag == CONST_CHALLENGE_AND_RESPONSE {
        ImaView { recipient_challenge: v1, recipient_response: v2, received: tag, ..s }
    } else {
        ImaView { recipient_response: v1, received: tag, ..s }
    }
}

impl IntMutAuth {
    /// The own identity.
    pub fn sender_id(&self) -> (r: u32)
        ensures
            r == self@.sender_id,
    {
        self.sender_id
    }

    /// The peer's identity.
    pub fn recipient_id(&self) -> (r: u32)
        ensures
            r == self@.recipient_id,
    {
        self.recipient_id
    }

    /// The role this side plays.
    pub fn role(&self) -> (r: u8)
        ensures
            r == self@.role,
    {
        self.role
    }
}

} // verus!
