use curve25519_dalek::constants::ED25519_BASEPOINT_POINT;
use schnorr_auth::curve::bytes_eq;
use schnorr_auth::nizk::{
    counter_from_bytes, counter_to_bytes, hash_concat, nizk_proof, optional_field,
};
use schnorr_auth::schnorr::{generate_proof_response, verify_int_proof};
use schnorr_auth::{
    check_intrusion, gen_random_key_pair, generate_random_32bytes, generate_random_scalar,
    get_32byte_key, get_int_schnorr_prover_instance, get_int_schnorr_verifier_instance,
    get_key_instance, get_shared_counter, init_intrusion_counters, update_used_values, KeyId,
    KeyRing, ProofError, ReplayStore, SecretKeyErrors,
};

fn scalar(n: u8) -> [u8; 32] {
    let mut b = [0u8; 32];
    b[0] = n;
    b
}

#[test]
fn response_is_r_plus_c_times_x() {
    assert_eq!(generate_proof_response(&scalar(1), &scalar(1), &scalar(1)), scalar(2));
    assert_eq!(generate_proof_response(&scalar(3), &scalar(5), &scalar(7)), scalar(38));
}

#[test]
fn response_reduces_modulo_group_order() {
    // q - 1, little-endian.
    let q_minus_1: [u8; 32] = [
        0xec, 0xd3, 0xf5, 0x5c, 0x1a, 0x63, 0x12, 0x58, 0xd6, 0x9c, 0xf7, 0xa2, 0xde, 0xf9, 0xde,
        0x14, 0, 0, 0, 0, 0, 0, 0, 0, 0, 0, 0, 0, 0, 0, 0, 0x10,
    ];
    assert_eq!(generate_proof_response(&q_minus_1, &scalar(1), &scalar(2)), scalar(1));
}

#[test]
fn honest_interactive_proof_verifies() {
    let (public, private) = gen_random_key_pair();
    let mut ring = KeyRing::new();
    ring.put(KeyId::PrivateKey(5), private.to_vec());
    ring.put(KeyId::PublicKey(5), public.to_vec());
    let mut prover = get_int_schnorr_prover_instance(5, 6);
    let mut verifier = get_int_schnorr_verifier_instance(6, 5, prover.my_commitment());
    let s = prover.add_challenge(&ring, verifier.challenge).unwrap();
    assert_eq!(prover.my_id(), 5);
    assert_eq!(prover.recipient_id(), 6);
    assert_eq!(prover.my_challenge(), verifier.challenge);
    assert_eq!(prover.my_response(), s);
    assert_eq!(prover.add_challenge(&ring, verifier.challenge), Err(ProofError::AlreadyAnswered));
    let mut store = ReplayStore::new(0);
    assert_eq!(verifier.verify_proof(&ring, &mut store, s), Ok(true));
    // The same commitment is not accepted twice.
    let mut again = get_int_schnorr_verifier_instance(6, 5, prover.my_commitment());
    again.challenge = verifier.challenge;
    assert_eq!(again.verify_proof(&ring, &mut store, s), Ok(false));
}

#[test]
fn prover_without_private_key() {
    let ring = KeyRing::new();
    let mut prover = get_int_schnorr_prover_instance(5, 6);
    assert_eq!(
        prover.add_challenge(&ring, scalar(1)),
        Err(ProofError::KeyUnavailable(SecretKeyErrors::NotFound))
    );
}

#[test]
fn verifier_without_public_key() {
    let ring = KeyRing::new();
    let mut store = ReplayStore::new(0);
    let mut verifier = get_int_schnorr_verifier_instance(6, 5, [1u8; 32]);
    assert_eq!(verifier.verify_proof(&ring, &mut store, scalar(1)), Err(SecretKeyErrors::NotFound));
}

#[test]
fn schnorr_soundness_on_known_values() {
    // x = 3, r = 4, c = 5: s = 4 + 15 = 19.
    let base = ED25519_BASEPOINT_POINT;
    let x_pub = (curve25519_dalek::scalar::Scalar::from(3u8) * base).compress().to_bytes();
    let r_pub = (curve25519_dalek::scalar::Scalar::from(4u8) * base).compress().to_bytes();
    assert!(verify_int_proof(x_pub, (r_pub, scalar(5), scalar(19))));
    assert!(!verify_int_proof(x_pub, (r_pub, scalar(5), scalar(20))));
    assert!(!verify_int_proof(x_pub, (r_pub, scalar(6), scalar(19))));
}

#[test]
fn non_canonical_response_is_rejected() {
    // x = 3, r = 4, c = 5: s = 19, sent as 19 + q.
    let base = ED25519_BASEPOINT_POINT;
    let x_pub = (curve25519_dalek::scalar::Scalar::from(3u8) * base).compress().to_bytes();
    let r_pub = (curve25519_dalek::scalar::Scalar::from(4u8) * base).compress().to_bytes();
    let s_plus_q: [u8; 32] = [
        0x00, 0xd4, 0xf5, 0x5c, 0x1a, 0x63, 0x12, 0x58, 0xd6, 0x9c, 0xf7,
        0xa2, 0xde, 0xf9, 0xde, 0x14, 0, 0, 0, 0, 0, 0, 0, 0, 0, 0, 0, 0, 0, 0, 0, 0x10,
    ];
    assert!(!verify_int_proof(x_pub, (r_pub, scalar(5), s_plus_q)));
    assert!(verify_int_proof(x_pub, (r_pub, scalar(5), scalar(19))));
}

#[test]
fn random_values_differ() {
    assert_ne!(generate_random_32bytes(), generate_random_32bytes());
    let s = generate_random_scalar();
    assert_eq!(s[31] & 0xe0, 0);
}

#[test]
fn sha3_of_abc() {
    let expected: [u8; 32] = [
        0x3a, 0x98, 0x5d, 0xa7, 0x4f, 0xe2, 0x25, 0xb2, 0x04, 0x5c, 0x17, 0x2d, 0x6b, 0xd3, 0x90,
        0xbd, 0x85, 0x5f, 0x08, 0x6e, 0x3e, 0x9d, 0x52, 0x5b, 0x46, 0xbf, 0xe2, 0x45, 0x11, 0x43,
        0x15, 0x32,
    ];
    assert_eq!(hash_concat(b"a", b"", b"b", b"c"), expected);
}

#[test]
fn counter_bytes_round_trip() {
    assert_eq!(counter_to_bytes(1), [0, 0, 0, 1]);
    assert_eq!(counter_to_bytes(0x01020304), [1, 2, 3, 4]);
    assert_eq!(counter_from_bytes([1, 2, 3, 4]), 0x01020304);
    assert_eq!(counter_from_bytes(counter_to_bytes(u32::MAX)), u32::MAX);
}

#[test]
fn bytes_eq_compares_all_bytes() {
    let a = [9u8; 32];
    let mut b = a;
    assert!(bytes_eq(&a, &b));
    b[31] = 0;
    assert!(!bytes_eq(&a, &b));
}

#[test]
fn nizk_proof_binds_its_inputs() {
    let (_, private) = gen_random_key_pair();
    let (_, commitment, challenge, _) =
        nizk_proof(&private, &[4u8; 32], &[0, 0, 0, 1], Some(b"m".as_slice()));
    assert_eq!(challenge, hash_concat(&commitment, &[4u8; 32], &[0, 0, 0, 1], b"m"));
    let (_, commitment, challenge, _) = nizk_proof(&private, &[4u8; 32], &[0, 0, 0, 1], None);
    assert_eq!(challenge, hash_concat(&commitment, &[4u8; 32], &[0, 0, 0, 1], b""));
}

#[test]
fn optional_field_is_its_bytes() {
    assert_eq!(optional_field(None), Vec::<u8>::new());
    assert_eq!(optional_field(Some(b"".as_slice())), Vec::<u8>::new());
    assert_eq!(optional_field(Some(b"ab".as_slice())), vec![b'a', b'b']);
}

#[test]
fn key_instance_stores_and_reads() {
    let mut ring = KeyRing::new();
    let id = KeyId::PublicKey(3);
    assert_eq!(get_key_instance(&mut ring, id, 32, None), Err(SecretKeyErrors::NotFound));
    assert_eq!(get_key_instance(&mut ring, id, 32, Some(vec![1u8; 31])), Err(SecretKeyErrors::WrongSize));
    assert_eq!(get_key_instance(&mut ring, id, 32, Some(vec![1u8; 32])), Ok(vec![1u8; 32]));
    // An entry already held wins over the offered value.
    assert_eq!(get_key_instance(&mut ring, id, 32, Some(vec![2u8; 32])), Ok(vec![1u8; 32]));
    assert_eq!(get_key_instance(&mut ring, id, 4, None), Err(SecretKeyErrors::WrongSize));
    assert_eq!(get_32byte_key(&ring, id), Ok([1u8; 32]));
}

#[test]
fn ratchet_moves_counter_by_two() {
    let mut ring = KeyRing::new();
    assert_eq!(update_used_values(&mut ring, 1, 2, [0u8; 32], None), Err(SecretKeyErrors::NotFound));
    ring.put(KeyId::SharedSecretKey(1, 2), vec![7u8; 32]);
    ring.put(KeyId::SharedCounter(1, 2), vec![0, 0, 0, 5]);
    assert_eq!(update_used_values(&mut ring, 1, 2, [3u8; 32], None), Ok(()));
    assert_eq!(get_shared_counter(&ring, 1, 2), Ok([0, 0, 0, 7]));
    let expected = hash_concat(&[7u8; 32], &[0, 0, 0, 6], &[3u8; 32], b"");
    assert_eq!(get_32byte_key(&ring, KeyId::SharedSecretKey(1, 2)), Ok(expected));
    assert_eq!(update_used_values(&mut ring, 1, 2, [5u8; 32], Some([6u8; 2].as_slice())), Ok(()));
    assert_eq!(get_shared_counter(&ring, 1, 2), Ok([0, 0, 0, 9]));
    let next = hash_concat(&expected, &[0, 0, 0, 8], &[5u8; 32], &[6, 6]);
    assert_eq!(get_32byte_key(&ring, KeyId::SharedSecretKey(1, 2)), Ok(next));
}

#[test]
fn ratchet_refuses_exhausted_counter() {
    let mut ring = KeyRing::new();
    ring.put(KeyId::SharedSecretKey(1, 2), vec![7u8; 32]);
    ring.put(KeyId::SharedCounter(1, 2), vec![0xff, 0xff, 0xff, 0xfe]);
    assert_eq!(
        update_used_values(&mut ring, 1, 2, [3u8; 32], None),
        Err(SecretKeyErrors::CounterExhausted)
    );
    assert_eq!(get_32byte_key(&ring, KeyId::SharedSecretKey(1, 2)), Ok([7u8; 32]));
}

#[test]
fn intrusion_counters_and_threshold() {
    let mut store = ReplayStore::new(1);
    init_intrusion_counters(&mut store, 9);
    assert_eq!(check_intrusion(&store, 9), (false, false, false));
    store.manage_intrusion(9, false, false);
    assert_eq!(check_intrusion(&store, 9), (false, false, false));
    store.manage_intrusion(9, false, true);
    assert_eq!(check_intrusion(&store, 9), (true, false, false));
    store.manage_intrusion(9, false, false);
    assert_eq!(check_intrusion(&store, 9), (true, true, true));
    init_intrusion_counters(&mut store, 9);
    assert_eq!(check_intrusion(&store, 9), (true, true, true));
    assert_eq!(check_intrusion(&store, 8), (false, false, false));
}

#[test]
fn commitment_log_is_per_peer() {
    let mut store = ReplayStore::new(0);
    assert!(store.check_commitment(1, &[5u8; 32]));
    store.record_commitment(1, [5u8; 32]);
    assert!(!store.check_commitment(1, &[5u8; 32]));
    assert!(store.check_commitment(2, &[5u8; 32]));
}
