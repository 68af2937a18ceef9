//! The non-interactive proof bound to the shared secret and counter, its
//! check, and the ratchet that evolves the shared secret.
use crate::curve::{
    base_enc, bytes_eq, generate_random_scalar, group_order, is_valid_point, lemma_affine_mod, le_nat,
    mul_base, scalar_of, sha3_256, sha3_of, valid_point,
};
use crate::keyring::{get_32byte_key, get_shared_counter, read_spec, KeyId, KeyRing, SecretKeyErrors};
use crate::replay::{counts_after, ReplayStore};
use crate::schnorr::{commits_to_nonce, generate_proof_response, response_of, schnorr_relation, verify_int_proof};
use vstd::prelude::*;
use vstd::string::StringSliceAdditionalSpecFns;

verus! {

/// The value of four big-endian bytes.
pub open spec fn be_nat(b: Seq<u8>) -> nat {
    b[0] as nat * 16777216 + b[1] as nat * 65536 + b[2] as nat * 256 + b[3] as nat
}

/// The four big-endian bytes of `n`.
pub open spec fn be_bytes(n: nat) -> Seq<u8> {
    seq![(n / 16777216) as u8, ((n / 65536) % 256) as u8, ((n / 256) % 256) as u8, (n % 256) as u8]
}

/// An optional last field of a hash input: its bytes where it is present,
/// nothing where it is absent.
pub open spec fn opt_field(m: Option<Seq<u8>>) -> Seq<u8> {
    match m {
        Some(b) => b,
        None => Seq::empty(),
    }
}

/// The view of an optional byte slice.
pub open spec fn opt_slice(m: Option<&[u8]>) -> Option<Seq<u8>> {
    match m {
        Some(b) => Some(b@),
        None => None,
    }
}

/// The bytes that the challenge hashes: `R || K || n || m?`.
pub open spec fn challenge_input(r: Seq<u8>, k: Seq<u8>, n: Seq<u8>, m: Option<Seq<u8>>) -> Seq<u8> {
    r + k + n + opt_field(m)
}

/// The bytes that the ratchet hashes: `K || n || s || extra?`.
pub open spec fn ratchet_input(k: Seq<u8>, n: Seq<u8>, s: Seq<u8>, extra: Option<Seq<u8>>) -> Seq<
    u8,
> {
    k + n + s + opt_field(extra)
}

/// The encoding of an optional last field of a hash input.
pub fn optional_field(m: Option<&[u8]>) -> (r: Vec<u8>)
    ensures
        r@ == opt_field(opt_slice(m)),
{
    let mut r: Vec<u8> = Vec::new();
    match m {
        Some(b) => {
            append_bytes(&mut r, b);
            assert(r@ =~= b@);
        },
        None => {
            assert(r@ =~= Seq::<u8>::empty());
        },
    }
    r
}

/// Reading a counter back gives the value written.
pub proof fn lemma_be_round_trip(n: nat)
    requires
        n <= u32::MAX,
    ensures
        be_bytes(n).len() == 4,
        be_nat(be_bytes(n)) == n,
{
    let b = be_bytes(n);
    assert(b[0] as nat == n / 16777216);
    assert(b[1] as nat == (n / 65536) % 256);
    assert(b[2] as nat == (n / 256) % 256);
    assert(b[3] as nat == n % 256);
    assert(n == (n / 16777216) * 16777216 + ((n / 65536) % 256) * 65536 + ((n / 256) % 256) * 256
        + n % 256) by (nonlinear_arith)
        requires
            n <= u32::MAX,
    ;
}

/// The counter held in four big-endian bytes.
pub fn counter_from_bytes(b: [u8; 4]) -> (n: u32)
    ensures
        n == be_nat(b@),
{
    (b[0] as u32) * 16777216 + (b[1] as u32) * 65536 + (b[2] as u32) * 256 + (b[3] as u32)
}

/// The four big-endian bytes of a counter.
pub fn counter_to_bytes(n: u32) -> (b: [u8; 4])
    ensures
        b@ == be_bytes(n as nat),
{
    let b: [u8; 4] = [
        (n / 16777216) as u8,
        ((n / 65536) % 256) as u8,
        ((n / 256) % 256) as u8,
        (n % 256) as u8,
    ];
    assert(b@ =~= be_bytes(n as nat));
    b
}

/// Appends `s` to `v`.
fn append_bytes(v: &mut Vec<u8>, s: &[u8])
    ensures
        final(v)@ == old(v)@ + s@,
{
    let ghost start = v@;
    let mut i: usize = 0;
    while i < s.len()
        invariant
            0 <= i <= s@.len(),
            v@ == start + s@.subrange(0, i as int),
        decreases s@.len() - i,
    {
        v.push(s[i]);
        i = i + 1;
        assert(v@ =~= start + s@.subrange(0, i as int));
    }
    assert(s@.subrange(0, s@.len() as int) =~= s@);
}

/// The bytes of `s` in a vector.
pub fn bytes_to_vec(s: &[u8]) -> (r: Vec<u8>)
    ensures
        r@ == s@,
{
    let mut r: Vec<u8> = Vec::new();
    append_bytes(&mut r, s);
    assert(r@ =~= s@);
    r
}

/// SHA3-256 over the concatenation of four byte strings.
pub fn hash_concat(a: &[u8], b: &[u8], c: &[u8], d: &[u8]) -> (r: [u8; 32])
    ensures
        r@ == sha3_of(a@ + b@ + c@ + d@),
{
    let mut data: Vec<u8> = Vec::new();
    append_bytes(&mut data, a);
    append_bytes(&mut data, b);
    append_bytes(&mut data, c);
    append_bytes(&mut data, d);
    assert(data@ =~= a@ + b@ + c@ + d@);
    sha3_256(&data)
}

/// A proof `(r, R, c, s)` for private key `x`, shared secret `k`, counter `n`
/// and optional message `m`: `R = r·B`, `c = SHA3-256(R || k || n || m?)` and
/// `s = r + c·x mod q`.
pub fn nizk_proof(privkey: &[u8; 32], sharedkey: &[u8; 32], counter: &[u8; 4], message: Option<&[u8]>) -> (r:
    ([u8; 32], [u8; 32], [u8; 32], [u8; 32]))
    ensures
        commits_to_nonce(r.0@, r.1@),
        r.2@ == sha3_of(challenge_input(r.1@, sharedkey@, counter@, opt_slice(message))),
        le_nat(r.3@) == response_of(r.0@, privkey@, r.2@),
{
    let nonce = generate_random_scalar();
    let commitment = mul_base(&nonce);
    proof {
        lemma_affine_mod(0, 1, le_nat(nonce@) as int, group_order() as int);
    }
    let tail = optional_field(message);
    let challenge = hash_concat(&commitment, sharedkey, counter, tail.as_slice());
    let response = generate_proof_response(&nonce, privkey, &challenge);
    (nonce, commitment, challenge, response)
}

/// Checks a proof `(R, c, s)` against the prover's public key `x`, the shared
/// secret `k`, the counter `n` and the message `m`. The first result is the
/// Schnorr check `s·B == R + c·X`; the second whether `c` is the challenge
/// that `k`, `n` and `m` give for `R`, which binds the proof to the shared
/// state.
pub fn check_nizk_proof(
    pubkey: [u8; 32],
    sharedkey: &[u8; 32],
    counter: &[u8; 4],
    message: Option<&[u8]>,
    proof: ([u8; 32], [u8; 32], [u8; 32]),
) -> (r: (bool, bool))
    ensures
        r.0 == schnorr_relation(pubkey@, proof.0@, proof.1@, proof.2@),
        r.1 == (proof.1@ == sha3_of(challenge_input(proof.0@, sharedkey@, counter@, opt_slice(message)))),
        forall|x: int, k: int|
            #![trigger base_enc(x), base_enc(k)]
            0 <= x < group_order() && 0 <= k < group_order() && pubkey@ == base_enc(x) && proof.0@
                == base_enc(k) && le_nat(proof.2@) == (k + scalar_of(proof.1@) * x) % (
            group_order() as int) ==> r.0,
{
    let schnorr = verify_int_proof(pubkey, proof);
    let tail = optional_field(message);
    let expected = hash_concat(&proof.0, sharedkey, counter, tail.as_slice());
    let mac = bytes_eq(&expected, &proof.1);
    (schnorr, mac)
}

/// Whether the ratchet of `a` with `b` cannot run on keyring contents `m`,
/// and why.
pub open spec fn ratchet_error(m: Map<KeyId, Seq<u8>>, a: u32, b: u32) -> Option<SecretKeyErrors> {
    match read_spec(m, KeyId::SharedSecretKey(a, b), 32) {
        Err(e) => Some(e),
        Ok(_) => match read_spec(m, KeyId::SharedCounter(a, b), 4) {
            Err(e) => Some(e),
            Ok(n) => if be_nat(n) + 2 > u32::MAX {
                Some(SecretKeyErrors::CounterExhausted)
            } else {
                None
            },
        },
    }
}

/// The keyring contents after the ratchet of `a` with `b` on `response` and
/// the optional `extra`: with `n` the counter and `K` the secret, the secret
/// becomes `SHA3-256(K || n+1 || response || extra?)` and the counter `n+2`.
pub open spec fn ratchet_spec(
    m: Map<KeyId, Seq<u8>>,
    a: u32,
    b: u32,
    response: Seq<u8>,
    extra: Option<Seq<u8>>,
) -> Map<KeyId, Seq<u8>> {
    let k = m[KeyId::SharedSecretKey(a, b)];
    let n = be_nat(m[KeyId::SharedCounter(a, b)]);
    m.insert(
        KeyId::SharedSecretKey(a, b),
        sha3_of(ratchet_input(k, be_bytes(n + 1), response, extra)),
    ).insert(KeyId::SharedCounter(a, b), be_bytes(n + 2))
}

/// Advances the shared state of `my_id` with `other_id` after a proof that
/// used `response`: the counter goes up by two and the secret is rehashed.
pub fn update_used_values(
    ring: &mut KeyRing,
    my_id: u32,
    other_id: u32,
    response: [u8; 32],
    additional_data: Option<&[u8]>,
) -> (r: Result<(), SecretKeyErrors>)
    requires
        old(ring).wf(),
    ensures
        final(ring).wf(),
        r.is_ok() ==> final(ring)@[KeyId::SharedSecretKey(my_id, other_id)].len() == 32,
        match ratchet_error(old(ring)@, my_id, other_id) {
            Some(e) => r == Err::<(), SecretKeyErrors>(e) && final(ring)@ == old(ring)@,
            None => r.is_ok() && final(ring)@ == ratchet_spec(
                old(ring)@,
                my_id,
                other_id,
                response@,
                opt_slice(additional_data),
            ),
        },
{
    let sharedkey = get_32byte_key(ring, KeyId::SharedSecretKey(my_id, other_id))?;
    let counter = get_shared_counter(ring, my_id, other_id)?;
    let n = counter_from_bytes(counter);
    if n > u32::MAX - 2 {
        return Err(SecretKeyErrors::CounterExhausted);
    }
    let next = counter_to_bytes(n + 1);
    let tail = optional_field(additional_data);
    let new_key = hash_concat(&sharedkey, &next, &response, tail.as_slice());
    ring.put(KeyId::SharedSecretKey(my_id, other_id), bytes_to_vec(&new_key));
    let last = counter_to_bytes(n + 2);
    ring.put(KeyId::SharedCounter(my_id, other_id), bytes_to_vec(&last));
    Ok(())
}

/// After a successful ratchet the shared counter is strictly larger.
pub proof fn lemma_ratchet_increases_counter(
    m: Map<KeyId, Seq<u8>>,
    a: u32,
    b: u32,
    response: Seq<u8>,
    extra: Option<Seq<u8>>,
)
    requires
        ratchet_error(m, a, b) is None,
    ensures
        be_nat(ratchet_spec(m, a, b, response, extra)[KeyId::SharedCounter(a, b)]) > be_nat(
            m[KeyId::SharedCounter(a, b)],
        ),
{
    let n = be_nat(m[KeyId::SharedCounter(a, b)]);
    lemma_be_round_trip(n + 2);
}

/// The private or public key under `key`, then the shared secret and the
/// shared counter of `a` with `b`, or the first read that fails.
pub open spec fn proof_inputs(m: Map<KeyId, Seq<u8>>, key: KeyId, a: u32, b: u32) -> Result<
    (Seq<u8>, Seq<u8>, Seq<u8>),
    SecretKeyErrors,
> {
    match read_spec(m, key, 32) {
        Err(e) => Err(e),
        Ok(x) => match read_spec(m, KeyId::SharedSecretKey(a, b), 32) {
            Err(e) => Err(e),
            Ok(k) => match read_spec(m, KeyId::SharedCounter(a, b), 4) {
                Err(e) => Err(e),
                Ok(n) => Ok((x, k, n)),
            },
        },
    }
}

/// `(R, c, s)` is an honest proof for private key `x`, shared secret `k`,
/// counter `n` and optional message `m`: `R = j·B` for some nonce `j`,
/// `c = SHA3-256(R || k || n || m?)` and `s = j + c·x mod q`.
pub open spec fn honest_nizk(
    p: ([u8; 32], [u8; 32], [u8; 32]),
    x: Seq<u8>,
    k: Seq<u8>,
    n: Seq<u8>,
    m: Option<Seq<u8>>,
) -> bool {
    &&& p.1@ == sha3_of(challenge_input(p.0@, k, n, m))
    &&& exists|j: int|
        0 <= j < group_order() && p.0@ == #[trigger] base_enc(j) && le_nat(p.2@) == (j + le_nat(
            p.1@,
        ) * le_nat(x)) % (group_order() as int)
}

/// Generates a proof for `my_id` towards `receiver_id` that binds `message`,
/// and ratchets the shared state with its response where `update_keys`.
pub fn gen_nizk_proof(
    ring: &mut KeyRing,
    my_id: u32,
    receiver_id: u32,
    message: &str,
    update_keys: bool,
) -> (r: Result<([u8; 32], [u8; 32], [u8; 32]), SecretKeyErrors>)
    requires
        old(ring).wf(),
    ensures
        final(ring).wf(),
        r.is_ok() && update_keys ==> final(ring)@[KeyId::SharedSecretKey(my_id, receiver_id)].len() == 32,
        match proof_inputs(old(ring)@, KeyId::PrivateKey(my_id), my_id, receiver_id) {
            Err(e) => r == Err::<([u8; 32], [u8; 32], [u8; 32]), SecretKeyErrors>(e)
                && final(ring)@ == old(ring)@,
            Ok((x, k, n)) => if update_keys && ratchet_error(old(ring)@, my_id, receiver_id) is Some {
                r == Err::<([u8; 32], [u8; 32], [u8; 32]), SecretKeyErrors>(
                    ratchet_error(old(ring)@, my_id, receiver_id).unwrap(),
                ) && final(ring)@ == old(ring)@
            } else {
                &&& r.is_ok()
                &&& honest_nizk(r.unwrap(), x, k, n, Some(message.spec_bytes()))
                &&& final(ring)@ == if update_keys {
                    ratchet_spec(old(ring)@, my_id, receiver_id, r.unwrap().2@, None)
                } else {
                    old(ring)@
                }
            },
        },
{
    let privkey = get_32byte_key(ring, KeyId::PrivateKey(my_id))?;
    let sharedkey = get_32byte_key(ring, KeyId::SharedSecretKey(my_id, receiver_id))?;
    let counter = get_shared_counter(ring, my_id, receiver_id)?;
    let (nonce, commitment, challenge, response) = nizk_proof(
        &privkey,
        &sharedkey,
        &counter,
        Some(message.as_bytes()),
    );
    proof {
        assert(le_nat(nonce@) < group_order());
        assert(commitment@ == base_enc(le_nat(nonce@) as int));
    }
    if update_keys {
        update_used_values(ring, my_id, receiver_id, response, None)?;
    }
    Ok((commitment, challenge, response))
}

/// Verifies a proof from `sender_id` that binds `message`. A commitment
/// already accepted from the sender is rejected at once. An accepted proof
/// has its commitment logged and, where `update_keys`, ratchets the shared
/// state with its response; a rejected one is counted against the sender.
pub fn verify_nizk_proof(
    ring: &mut KeyRing,
    store: &mut ReplayStore,
    my_id: u32,
    sender_id: u32,
    message: &str,
    proof: ([u8; 32], [u8; 32], [u8; 32]),
    update_keys: bool,
) -> (r: Result<bool, SecretKeyErrors>)
    requires
        old(ring).wf(),
        old(store).wf(),
    ensures
        final(ring).wf(),
        r == Ok::<bool, SecretKeyErrors>(true) && update_keys ==> final(ring)@[KeyId::SharedSecretKey(my_id, sender_id)].len() == 32,
        final(store).wf(),
        final(store).threshold_spec() == old(store).threshold_spec(),
        forall|x: int, j: int|
            #![trigger base_enc(x), base_enc(j)]
            0 <= x < group_order() && 0 <= j < group_order() && !old(store).log().contains(
                (sender_id, proof.0@),
            ) && proof_inputs(old(ring)@, KeyId::PublicKey(sender_id), my_id, sender_id) is Ok
                && proof_inputs(old(ring)@, KeyId::PublicKey(sender_id), my_id, sender_id).unwrap().0
                == base_enc(x) && proof.0@ == base_enc(j) && le_nat(proof.2@) == (j + scalar_of(
                proof.1@,
            ) * x) % (group_order() as int) && proof.1@ == sha3_of(
                challenge_input(
                    proof.0@,
                    proof_inputs(old(ring)@, KeyId::PublicKey(sender_id), my_id, sender_id).unwrap().1,
                    proof_inputs(old(ring)@, KeyId::PublicKey(sender_id), my_id, sender_id).unwrap().2,
                    Some(message.spec_bytes()),
                ),
            ) && !(update_keys && ratchet_error(old(ring)@, my_id, sender_id) is Some) ==> r
                == Ok::<bool, SecretKeyErrors>(true),
        old(store).log().contains((sender_id, proof.0@)) ==> r == Ok::<bool, SecretKeyErrors>(false)
            && final(ring)@ == old(ring)@ && final(store).log() == old(store).log()
            && final(store).counts() == old(store).counts(),
        !old(store).log().contains((sender_id, proof.0@)) && !valid_point(proof.0@) ==> r
            == Ok::<bool, SecretKeyErrors>(false) && final(ring)@ == old(ring)@ && final(store).log()
            == old(store).log() && final(store).counts() == old(store).counts(),
        !old(store).log().contains((sender_id, proof.0@)) && valid_point(proof.0@) ==> match proof_inputs(
            old(ring)@,
            KeyId::PublicKey(sender_id),
            my_id,
            sender_id,
        ) {
            Err(e) => r == Err::<bool, SecretKeyErrors>(e) && final(ring)@ == old(ring)@
                && final(store).log() == old(store).log() && final(store).counts() == old(
                store,
            ).counts(),
            Ok((x, k, n)) => {
                let schnorr = schnorr_relation(x, proof.0@, proof.1@, proof.2@);
                let mac = proof.1@ == sha3_of(
                    challenge_input(proof.0@, k, n, Some(message.spec_bytes())),
                );
                if !(schnorr && mac) {
                    &&& r == Ok::<bool, SecretKeyErrors>(false)
                    &&& final(ring)@ == old(ring)@
                    &&& final(store).log() == old(store).log()
                    &&& final(store).counts() == old(store).counts().insert(
                        sender_id,
                        counts_after(old(store).counts_of(sender_id), schnorr, mac),
                    )
                } else if update_keys && ratchet_error(old(ring)@, my_id, sender_id) is Some {
                    &&& r == Err::<bool, SecretKeyErrors>(
                        ratchet_error(old(ring)@, my_id, sender_id).unwrap(),
                    )
                    &&& final(ring)@ == old(ring)@
                    &&& final(store).log() == old(store).log()
                    &&& final(store).counts() == old(store).counts()
                } else {
                    &&& r == Ok::<bool, SecretKeyErrors>(true)
                    &&& final(ring)@ == if update_keys {
                        ratchet_spec(old(ring)@, my_id, sender_id, proof.2@, None)
                    } else {
                        old(ring)@
                    }
                    &&& final(store).log() == old(store).log().insert((sender_id, proof.0@))
                    &&& final(store).counts() == old(store).counts()
                }
            },
        },
{
    if !store.check_commitment(sender_id, &proof.0) || !is_valid_point(&proof.0) {
        return Ok(false);
    }
    let pubkey = get_32byte_key(ring, KeyId::PublicKey(sender_id))?;
    let sharedkey = get_32byte_key(ring, KeyId::SharedSecretKey(my_id, sender_id))?;
    let counter = get_shared_counter(ring, my_id, sender_id)?;
    let (schnorr, mac) = check_nizk_proof(pubkey, &sharedkey, &counter, Some(message.as_bytes()), proof);
    if schnorr && mac {
        if update_keys {
            update_used_values(ring, my_id, sender_id, proof.2, None)?;
        }
        store.record_commitment(sender_id, proof.0);
        Ok(true)
    } else {
        store.manage_intrusion(sender_id, schnorr, mac);
        Ok(false)
    }
}

} // verus!
