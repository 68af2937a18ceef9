use curve25519_dalek::constants::ED25519_BASEPOINT_POINT;
use curve25519_dalek::edwards::CompressedEdwardsY;
use schnorr_auth::{
    check_intrusion, gen_nizk_proof, gen_random_key_pair, get_32byte_key, get_shared_counter,
    verify_nizk_proof, IntMutAuth, KeyId, KeyRing, NIZKMutAuth, ReplayStore,
    CONST_INITIATOR_ROLE, CONST_NEXT_STEP_REQUIRED, CONST_RECEIVER_ROLE,
    CONST_RESPONSE_CANNOT_BE_VERIFIED, CONST_RESPONSE_CAN_BE_VERIFIED,
    CONST_RESPONSE_CAN_BE_VERIFIED_AFTER_GENERATING_RESPONSE,
};

fn rings_for(a: u32, b: u32) -> (KeyRing, KeyRing) {
    let (pub_a, priv_a) = gen_random_key_pair();
    let (pub_b, priv_b) = gen_random_key_pair();
    let mut ring_a = KeyRing::new();
    ring_a.put(KeyId::PrivateKey(a), priv_a.to_vec());
    ring_a.put(KeyId::PublicKey(b), pub_b.to_vec());
    let mut ring_b = KeyRing::new();
    ring_b.put(KeyId::PrivateKey(b), priv_b.to_vec());
    ring_b.put(KeyId::PublicKey(a), pub_a.to_vec());
    (ring_a, ring_b)
}

type Message = ([u8; 32], Option<[u8; 32]>, u8);

/// Runs the four IMA messages between initiator 1 and receiver 2 and both
/// verifications; returns the four messages.
fn run_ima(
    ring_a: &mut KeyRing,
    ring_b: &mut KeyRing,
    store_a: &mut ReplayStore,
    store_b: &mut ReplayStore,
) -> Vec<Message> {
    let mut a = IntMutAuth::new(1, 2, CONST_INITIATOR_ROLE);
    let mut b = IntMutAuth::new(2, 1, CONST_RECEIVER_ROLE);
    let m1 = a.gen_next_values(ring_a).unwrap();
    assert_eq!(m1.2, 1);
    assert!(m1.1.is_none());
    assert_eq!(b.add_recipient_values(m1.2, m1.0, m1.1), CONST_RESPONSE_CANNOT_BE_VERIFIED);
    let m2 = b.gen_next_values(ring_b).unwrap();
    assert_eq!(m2.2, 2);
    assert!(m2.1.is_some());
    assert_eq!(a.add_recipient_values(m2.2, m2.0, m2.1), CONST_RESPONSE_CANNOT_BE_VERIFIED);
    let m3 = a.gen_next_values(ring_a).unwrap();
    assert_eq!(m3.2, 3);
    assert_eq!(
        b.add_recipient_values(m3.2, m3.0, m3.1),
        CONST_RESPONSE_CAN_BE_VERIFIED_AFTER_GENERATING_RESPONSE
    );
    let m4 = b.gen_next_values(ring_b).unwrap();
    assert_eq!(m4.2, 4);
    assert_eq!(a.add_recipient_values(m4.2, m4.0, m4.1), CONST_RESPONSE_CAN_BE_VERIFIED);
    assert_eq!(a.gen_next_values(ring_a).unwrap().2, CONST_NEXT_STEP_REQUIRED);
    assert_eq!(b.gen_next_values(ring_b).unwrap().2, CONST_NEXT_STEP_REQUIRED);
    assert_eq!(b.verify_proof(ring_b, store_b), Ok(true));
    assert_eq!(a.verify_proof(ring_a, store_a), Ok(true));
    vec![m1, m2, m3, m4]
}

fn bootstrap() -> (KeyRing, KeyRing, ReplayStore, ReplayStore) {
    let (mut ring_a, mut ring_b) = rings_for(1, 2);
    let mut store_a = ReplayStore::new(0);
    let mut store_b = ReplayStore::new(0);
    run_ima(&mut ring_a, &mut ring_b, &mut store_a, &mut store_b);
    (ring_a, ring_b, store_a, store_b)
}

fn shared_secret(ring: &KeyRing, a: u32, b: u32) -> [u8; 32] {
    get_32byte_key(ring, KeyId::SharedSecretKey(a, b)).unwrap()
}

fn non_point() -> [u8; 32] {
    let mut y: u8 = 2;
    loop {
        let mut bytes = [0u8; 32];
        bytes[0] = y;
        if CompressedEdwardsY(bytes).decompress().is_none() {
            return bytes;
        }
        y += 1;
    }
}

#[test]
fn happy_ima() {
    let (ring_a, ring_b, _, _) = bootstrap();
    assert_eq!(shared_secret(&ring_a, 1, 2), shared_secret(&ring_b, 2, 1));
    assert_eq!(get_shared_counter(&ring_a, 1, 2), Ok([0, 0, 0, 1]));
    assert_eq!(get_shared_counter(&ring_b, 2, 1), Ok([0, 0, 0, 1]));
}

#[test]
fn ima_replay_is_rejected() {
    let (mut ring_a, mut ring_b) = rings_for(1, 2);
    let mut store_a = ReplayStore::new(0);
    let mut store_b = ReplayStore::new(0);
    let msgs = run_ima(&mut ring_a, &mut ring_b, &mut store_a, &mut store_b);
    let before = shared_secret(&ring_b, 2, 1);
    // The initiator's old commitment, challenge and response are sent again.
    let mut b = IntMutAuth::new(2, 1, CONST_RECEIVER_ROLE);
    b.add_recipient_values(msgs[0].2, msgs[0].0, msgs[0].1);
    b.gen_next_values(&ring_b).unwrap();
    b.add_recipient_values(msgs[2].2, msgs[2].0, msgs[2].1);
    b.gen_next_values(&ring_b).unwrap();
    assert_eq!(b.verify_proof(&mut ring_b, &mut store_b), Ok(false));
    assert_eq!(shared_secret(&ring_b, 2, 1), before);
}

#[test]
fn ima_wrong_tag_changes_nothing() {
    let mut a = IntMutAuth::new(1, 2, CONST_INITIATOR_ROLE);
    assert_eq!((a.sender_id(), a.recipient_id(), a.role()), (1, 2, CONST_INITIATOR_ROLE));
    assert_eq!(a.add_recipient_values(4, [7u8; 32], None), 3);
    assert_eq!(a.add_recipient_values(9, [7u8; 32], None), 3);
    assert_eq!(a.add_recipient_values(2, [7u8; 32], None), 3);
    let (ring_a, _) = rings_for(1, 2);
    let m1 = a.gen_next_values(&ring_a).unwrap();
    assert_eq!(m1.2, 1);
    // Nothing has come from the receiver, so the response cannot be sent.
    let next = a.gen_next_values(&ring_a).unwrap();
    assert_eq!(next.2, CONST_NEXT_STEP_REQUIRED);
    assert_eq!(next.0, m1.0);
}

#[test]
fn nma_without_message() {
    let (mut ring_a, mut ring_b, _, mut store_b) = bootstrap();
    let proof = gen_nizk_proof(&mut ring_a, 1, 2, "", true).unwrap();
    assert_eq!(verify_nizk_proof(&mut ring_b, &mut store_b, 2, 1, "", proof, true), Ok(true));
    assert_eq!(get_shared_counter(&ring_a, 1, 2), Ok([0, 0, 0, 3]));
    assert_eq!(get_shared_counter(&ring_b, 2, 1), Ok([0, 0, 0, 3]));
    assert_eq!(shared_secret(&ring_a, 1, 2), shared_secret(&ring_b, 2, 1));
}

#[test]
fn nma_session_agreement() {
    let (mut ring_a, mut ring_b, mut store_a, mut store_b) = bootstrap();
    let old_secret = shared_secret(&ring_a, 1, 2);
    let (mut a, proof_a) = NIZKMutAuth::new(&ring_a, 1, 2, None).unwrap();
    let (mut b, proof_b) = NIZKMutAuth::new(&ring_b, 2, 1, Some(proof_a)).unwrap();
    assert_eq!((b.sender_id(), b.recipient_id()), (2, 1));
    assert_eq!(b.verify_proof(&ring_b, &mut store_b), Ok(true));
    a.add_recipient_values(proof_b);
    assert_eq!(a.verify_proof(&ring_a, &mut store_a), Ok(true));
    let key_a = a.calculate_session_key(&mut ring_a).unwrap().unwrap();
    let key_b = b.calculate_session_key(&mut ring_b).unwrap().unwrap();
    assert_eq!(key_a, key_b);
    assert_eq!(shared_secret(&ring_a, 1, 2), shared_secret(&ring_b, 2, 1));
    assert_ne!(shared_secret(&ring_a, 1, 2), old_secret);
    assert_eq!(get_shared_counter(&ring_a, 1, 2), Ok([0, 0, 0, 3]));
    assert_eq!(get_shared_counter(&ring_b, 2, 1), Ok([0, 0, 0, 3]));
}

#[test]
fn nma_session_key_before_acceptance_is_none() {
    let (mut ring_a, _, _, _) = bootstrap();
    let (a, _) = NIZKMutAuth::new(&ring_a, 1, 2, None).unwrap();
    assert_eq!(a.calculate_session_key(&mut ring_a), Ok(None));
    assert_eq!(get_shared_counter(&ring_a, 1, 2), Ok([0, 0, 0, 1]));
}

#[test]
fn nma_with_message() {
    let (mut ring_a, mut ring_b, _, mut store_b) = bootstrap();
    let proof = gen_nizk_proof(&mut ring_a, 1, 2, "transfer 100", false).unwrap();
    assert_eq!(
        verify_nizk_proof(&mut ring_b, &mut store_b, 2, 1, "transfer 900", proof, true),
        Ok(false)
    );
    assert_eq!(check_intrusion(&store_b, 1), (false, true, false));
    assert_eq!(get_shared_counter(&ring_b, 2, 1), Ok([0, 0, 0, 1]));
    assert_eq!(
        verify_nizk_proof(&mut ring_b, &mut store_b, 2, 1, "transfer 100", proof, true),
        Ok(true)
    );
}

#[test]
fn nma_stale_counter() {
    let (mut ring_a, mut ring_b, _, mut store_b) = bootstrap();
    let first = gen_nizk_proof(&mut ring_a, 1, 2, "", false).unwrap();
    assert_eq!(verify_nizk_proof(&mut ring_b, &mut store_b, 2, 1, "", first, true), Ok(true));
    assert_eq!(get_shared_counter(&ring_b, 2, 1), Ok([0, 0, 0, 3]));
    let stale = gen_nizk_proof(&mut ring_a, 1, 2, "", false).unwrap();
    assert_eq!(verify_nizk_proof(&mut ring_b, &mut store_b, 2, 1, "", stale, true), Ok(false));
    assert_eq!(check_intrusion(&store_b, 1), (false, true, false));
}

#[test]
fn nma_replay_is_rejected() {
    let (mut ring_a, mut ring_b, _, mut store_b) = bootstrap();
    let proof = gen_nizk_proof(&mut ring_a, 1, 2, "", false).unwrap();
    assert_eq!(verify_nizk_proof(&mut ring_b, &mut store_b, 2, 1, "", proof, false), Ok(true));
    let secret = shared_secret(&ring_b, 2, 1);
    assert_eq!(verify_nizk_proof(&mut ring_b, &mut store_b, 2, 1, "", proof, false), Ok(false));
    assert_eq!(shared_secret(&ring_b, 2, 1), secret);
    assert_eq!(check_intrusion(&store_b, 1), (false, false, false));
}

#[test]
fn bad_point_injection() {
    let (mut ring_a, mut ring_b, _, mut store_b) = bootstrap();
    let proof = gen_nizk_proof(&mut ring_a, 1, 2, "", false).unwrap();
    let forged = (non_point(), proof.1, proof.2);
    assert_eq!(verify_nizk_proof(&mut ring_b, &mut store_b, 2, 1, "", forged, true), Ok(false));
    assert_eq!(get_shared_counter(&ring_b, 2, 1), Ok([0, 0, 0, 1]));
    assert_eq!(check_intrusion(&store_b, 1), (false, false, false));
    assert_eq!(verify_nizk_proof(&mut ring_b, &mut store_b, 2, 1, "", proof, true), Ok(true));
}

#[test]
fn schnorr_forgery_fails() {
    let (mut ring_a, mut ring_b, _, mut store_b) = bootstrap();
    let proof = gen_nizk_proof(&mut ring_a, 1, 2, "", false).unwrap();
    let mut response = proof.2;
    response[0] ^= 1;
    assert_eq!(
        verify_nizk_proof(&mut ring_b, &mut store_b, 2, 1, "", (proof.0, proof.1, response), true),
        Ok(false)
    );
    assert_eq!(check_intrusion(&store_b, 1), (true, false, false));
}

#[test]
fn random_key_pair_round_trips() {
    let (public, private) = gen_random_key_pair();
    assert_ne!(public, private);
    let point = CompressedEdwardsY(public).decompress().unwrap();
    assert_eq!(point.compress().to_bytes(), public);
    let x = curve25519_dalek::scalar::Scalar::from_bytes_mod_order(private);
    assert_eq!(x.to_bytes(), private);
    assert_eq!((x * ED25519_BASEPOINT_POINT).compress().to_bytes(), public);
}
