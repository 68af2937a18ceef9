//! Mutual authentication between two identified parties with the Schnorr
//! identification scheme over Ed25519, a non-interactive proof bound to an
//! evolving shared secret and counter, and replay and intrusion accounting.
use vstd::prelude::*;

pub mod curve;
pub mod ima;
pub mod keyring;
pub mod nizk;
pub mod nma;
pub mod replay;
pub mod schnorr;

pub use crate::curve::{generate_random_32bytes, generate_random_scalar};
pub use crate::ima::{
    IntMutAuth, CONST_INITIATOR_ROLE, CONST_NEXT_STEP_REQUIRED, CONST_NEXT_VALUES_HAS_TO_BE_GENERATED,
    CONST_NO_OTHER_VALUES_TO_GENERATE, CONST_RECEIVED_WRONG_REQUEST_ID,
    CONST_RECEIVER_ROLE, CONST_RESPONSE_CANNOT_BE_VERIFIED, CONST_RESPONSE_CAN_BE_VERIFIED,
    CONST_RESPONSE_CAN_BE_VERIFIED_AFTER_GENERATING_RESPONSE,
};
pub use crate::keyring::{
    get_32byte_key, get_key_instance, get_shared_counter, KeyId, KeyRing, SecretKeyErrors,
};
pub use crate::nizk::{gen_nizk_proof, update_used_values, verify_nizk_proof};
pub use crate::nma::NIZKMutAuth;
pub use crate::replay::{check_intrusion, init_intrusion_counters, IntrusionCounts, ReplayStore};
pub use crate::schnorr::{gen_random_key_pair, IntSchnorrProver, IntSchnorrVerifier, ProofError};

verus! {

/// A new side of an interactive mutual authentication.
pub fn get_int_mut_auth_instance(sender_id: u32, recipient_id: u32, role: u8) -> (r: IntMutAuth)
    ensures
        r@.sender_id == sender_id,
        r@.recipient_id == recipient_id,
        r@.role == role,
        r@.stage == (if role == CONST_RECEIVER_ROLE {
            crate::ima::CONST_COMMITMENT_AND_CHALLENGE
        } else {
            crate::ima::CONST_COMMITMENT
        }),
        r@.received == 0,
        crate::schnorr::commits_to_nonce(r@.nonce, r@.commitment),
{
    IntMutAuth::new(sender_id, recipient_id, role)
}

/// A new prover of an interactive Schnorr identification.
pub fn get_int_schnorr_prover_instance(my_id: u32, recipient_id: u32) -> (r: IntSchnorrProver)
    ensures
        r@.my_id == my_id,
        r@.recipient_id == recipient_id,
        !r@.answered,
        r@.challenge == crate::curve::zero_bytes(),
        r@.response == crate::curve::zero_bytes(),
        crate::schnorr::commits_to_nonce(r@.nonce, r@.commitment),
{
    IntSchnorrProver::new(my_id, recipient_id)
}

/// A new verifier of an interactive Schnorr identification, for the
/// prover's `commitment`.
pub fn get_int_schnorr_verifier_instance(my_id: u32, sender_id: u32, commitment: [u8; 32]) -> (r:
    IntSchnorrVerifier)
    ensures
        r.my_id == my_id,
        r.sender_id == sender_id,
        r.commitment == commitment,
        crate::curve::le_nat(r.challenge@) < crate::curve::group_order(),
{
    IntSchnorrVerifier::new(my_id, sender_id, commitment)
}

} // verus!
