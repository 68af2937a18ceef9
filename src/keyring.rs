//! An in-memory keyring of private keys, public keys, shared secrets and
//! shared counters, addressed by a tagged key description.
use vstd::prelude::*;

verus! {

/// What a keyring entry holds, and for whom.
#[derive(Clone, Copy, Debug, PartialEq, Eq, Structural)]
pub enum KeyId {
    /// The private scalar of an identity.
    PrivateKey(u32),
    /// The compressed public point of an identity.
    PublicKey(u32),
    /// The secret shared by the first identity with the second, from the
    /// first's side.
    SharedSecretKey(u32, u32),
    /// The big-endian counter shared by the first identity with the second.
    SharedCounter(u32, u32),
}

/// Why a keyring access failed.
#[derive(Clone, Copy, Debug, PartialEq, Eq, Structural)]
pub enum SecretKeyErrors {
    /// No entry under the description.
    NotFound,
    /// The entry, or the value offered for it, has another length.
    WrongSize,
    /// The shared counter cannot advance any further.
    CounterExhausted,
}

/// What reading `id` from a keyring with contents `m` gives, for entries of
/// `size` bytes.
pub open spec fn read_spec(m: Map<KeyId, Seq<u8>>, id: KeyId, size: nat) -> Result<
    Seq<u8>,
    SecretKeyErrors,
> {
    if !m.contains_key(id) {
        Err(SecretKeyErrors::NotFound)
    } else if m[id].len() != size {
        Err(SecretKeyErrors::WrongSize)
    } else {
        Ok(m[id])
    }
}

/// The view of a keyring read.
pub open spec fn bytes_result(r: Result<Vec<u8>, SecretKeyErrors>) -> Result<Seq<u8>, SecretKeyErrors> {
    match r {
        Ok(v) => Ok(v@),
        Err(e) => Err(e),
    }
}

/// The keyring: one value for each description it holds.
pub struct KeyRing {
    entries: Vec<(KeyId, Vec<u8>)>,
}

impl KeyRing {
    /// Each description has at most one entry.
    pub closed spec fn wf(&self) -> bool {
        forall|i: int, j: int|
            0 <= i < j < self.entries.len() ==> self.entries[i].0 != self.entries[j].0
    }

    /// The value held under each description.
    pub closed spec fn view(&self) -> Map<KeyId, Seq<u8>> {
        Map::new(
            |k: KeyId| exists|i: int| 0 <= i < self.entries.len() && self.entries[i].0 == k,
            |k: KeyId|
                self.entries[choose|i: int| 0 <= i < self.entries.len() && self.entries[i].0 == k].1@,
        )
    }

    /// An empty keyring.
    pub fn new() -> (r: KeyRing)
        ensures
            r.wf(),
            r@ == Map::<KeyId, Seq<u8>>::empty(),
    {
        let r = KeyRing { entries: Vec::new() };
        assert(r@ =~= Map::<KeyId, Seq<u8>>::empty());
        r
    }

    fn find(&self, id: KeyId) -> (r: Option<usize>)
        requires
            self.wf(),
        ensures
            match r {
                Some(i) => i < self.entries.len() && self.entries[i as int].0 == id
                    && self@.contains_key(id) && self@[id] == self.entries[i as int].1@,
                None => !self@.contains_key(id),
            },
    {
        let mut i: usize = 0;
        while i < self.entries.len()
            invariant
                0 <= i <= self.entries.len(),
                self.wf(),
                forall|k: int| 0 <= k < i ==> self.entries[k].0 != id,
            decreases self.entries.len() - i,
        {
            if self.entries[i].0 == id {
                assert(self@.contains_key(id));
                let ghost j = choose|j: int| 0 <= j < self.entries.len() && self.entries[j].0 == id;
                assert(j == i as int);
                return Some(i);
            }
            i = i + 1;
        }
        None
    }

    /// The value held under `id`.
    pub fn get(&self, id: KeyId) -> (r: Option<Vec<u8>>)
        requires
            self.wf(),
        ensures
            match r {
                Some(v) => self@.contains_key(id) && v@ == self@[id],
                None => !self@.contains_key(id),
            },
    {
        match self.find(id) {
            Some(i) => {
                let v = copy_bytes(&self.entries[i].1);
                Some(v)
            },
            None => None,
        }
    }

    /// Puts `value` under `id`, replacing what was there.
    pub fn put(&mut self, id: KeyId, value: Vec<u8>)
        requires
            old(self).wf(),
        ensures
            final(self).wf(),
            final(self)@ == old(self)@.insert(id, value@),
    {
        let ghost before = self.entries@;
        let ghost v = value@;
        match self.find(id) {
            Some(i) => {
                self.entries.set(i, (id, value));
                assert(self.entries[i as int].0 == id && self.entries[i as int].1@ == v);
            },
            None => {
                self.entries.push((id, value));
                assert(self.entries[before.len() as int].0 == id);
                assert(self.entries[before.len() as int].1@ == v);
            },
        }
        assert forall|k: KeyId| #[trigger]
            self@.contains_key(k) == old(self)@.insert(id, v).contains_key(k) by {
            if old(self)@.contains_key(k) {
                let i = choose|i: int| 0 <= i < before.len() && before[i].0 == k;
                assert(self.entries[i].0 == k);
            }
        }
        assert forall|k: KeyId| #[trigger] self@.contains_key(k) implies self@[k] == old(
            self,
        )@.insert(id, v)[k] by {
            let j = choose|i: int| 0 <= i < self.entries.len() && self.entries[i].0 == k;
            if k != id {
                assert(before[j].0 == k);
            }
        }
        assert(self@ =~= old(self)@.insert(id, v));
    }
}

/// A copy of a byte vector.
pub fn copy_bytes(v: &Vec<u8>) -> (r: Vec<u8>)
    ensures
        r@ == v@,
{
    let mut r: Vec<u8> = Vec::new();
    let mut i: usize = 0;
    while i < v.len()
        invariant
            0 <= i <= v.len(),
            r@ == v@.subrange(0, i as int),
        decreases v.len() - i,
    {
        r.push(v[i]);
        i = i + 1;
        assert(r@ =~= v@.subrange(0, i as int));
    }
    assert(v@.subrange(0, v.len() as int) =~= v@);
    r
}

/// Returns the key held under `key_description`, storing `key` there first
/// where nothing is held and a key is offered. Every value is `key_size` bytes.
pub fn get_key_instance(
    ring: &mut KeyRing,
    key_description: KeyId,
    key_size: usize,
    key: Option<Vec<u8>>,
) -> (r: Result<Vec<u8>, SecretKeyErrors>)
    requires
        old(ring).wf(),
    ensures
        final(ring).wf(),
        old(ring)@.contains_key(key_description) ==> final(ring)@ == old(ring)@ && bytes_result(r) == read_spec(old(ring)@, key_description, key_size as nat),
        !old(ring)@.contains_key(key_description) ==> match key {
            None => r == Err::<Vec<u8>, SecretKeyErrors>(SecretKeyErrors::NotFound) && final(ring)@
                == old(ring)@,
            Some(k) => if k@.len() == key_size {
                r.is_ok() && r.unwrap()@ == k@ && final(ring)@ == old(ring)@.insert(
                    key_description,
                    k@,
                )
            } else {
                r == Err::<Vec<u8>, SecretKeyErrors>(SecretKeyErrors::WrongSize) && final(ring)@
                    == old(ring)@
            },
        },
{
    match ring.get(key_description) {
        Some(v) => {
            if v.len() == key_size {
                Ok(v)
            } else {
                Err(SecretKeyErrors::WrongSize)
            }
        },
        None => match key {
            None => Err(SecretKeyErrors::NotFound),
            Some(k) => {
                if k.len() == key_size {
                    let stored = copy_bytes(&k);
                    ring.put(key_description, stored);
                    Ok(k)
                } else {
                    Err(SecretKeyErrors::WrongSize)
                }
            },
        },
    }
}

/// Reads a 32-byte entry.
pub fn get_32byte_key(ring: &KeyRing, description: KeyId) -> (r: Result<[u8; 32], SecretKeyErrors>)
    requires
        ring.wf(),
    ensures
        match read_spec(ring@, description, 32) {
            Ok(v) => r.is_ok() && r.unwrap()@ == v,
            Err(e) => r == Err::<[u8; 32], SecretKeyErrors>(e),
        },
{
    match ring.get(description) {
        Some(v) => {
            if v.len() != 32 {
                return Err(SecretKeyErrors::WrongSize);
            }
            let mut a = [0u8; 32];
            let mut i: usize = 0;
            while i < 32
                invariant
                    0 <= i <= 32,
                    v@.len() == 32,
                    forall|k: int| 0 <= k < i ==> a@[k] == v@[k],
                decreases 32 - i,
            {
                a[i] = v[i];
                i = i + 1;
            }
            assert(a@ =~= v@);
            Ok(a)
        },
        None => Err(SecretKeyErrors::NotFound),
    }
}

/// Reads the 4-byte shared counter of `my_id` with `receiver_id`.
pub fn get_shared_counter(ring: &KeyRing, my_id: u32, receiver_id: u32) -> (r: Result<
    [u8; 4],
    SecretKeyErrors,
>)
    requires
        ring.wf(),
    ensures
        match read_spec(ring@, KeyId::SharedCounter(my_id, receiver_id), 4) {
            Ok(v) => r.is_ok() && r.unwrap()@ == v,
            Err(e) => r == Err::<[u8; 4], SecretKeyErrors>(e),
        },
{
    match ring.get(KeyId::SharedCounter(my_id, receiver_id)) {
        Some(v) => {
            if v.len() != 4 {
                return Err(SecretKeyErrors::WrongSize);
            }
            let a: [u8; 4] = [v[0], v[1], v[2], v[3]];
            assert(a@ =~= v@);
            Ok(a)
        },
        None => Err(SecretKeyErrors::NotFound),
    }
}

} // verus!
