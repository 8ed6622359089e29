//! The two stores the server works against, and in-memory implementations.

use std::collections::HashMap;
use vstd::prelude::*;
use vstd::std_specs::hash::axiom_u8_obeys_hash_table_key_model;
use vstd::std_specs::hash::axiom_random_state_builds_valid_hashers;

verus! {

/// Holds server key pairs, each under an 8-bit key id.
pub trait KeyStore {
    /// The key pairs held, by key id.
    spec fn keys(&self) -> Map<u8, Seq<u8>>;

    /// Stores `key` under `key_id`, replacing any earlier one.
    fn insert(&mut self, key_id: u8, key: [u8; 64])
        ensures
            final(self).keys() == old(self).keys().insert(key_id, key@),
    ;

    /// The key pair held under `key_id`.
    fn get(&self, key_id: u8) -> (r: Option<[u8; 64]>)
        ensures
            match r {
                Some(k) => self.keys().contains_key(key_id) && self.keys()[key_id] == k@,
                None => !self.keys().contains_key(key_id),
            },
    ;
}

/// Records the nonces of redeemed tokens.
pub trait NonceStore {
    /// The nonces recorded.
    spec fn spent(&self) -> Set<Seq<u8>>;

    /// Whether `nonce` is recorded.
    fn contains(&self, nonce: &[u8; 32]) -> (r: bool)
        ensures
            r == self.spent().contains(nonce@),
    ;

    /// Records `nonce` in one step with the check; says whether it was
    /// new.
    fn insert(&mut self, nonce: [u8; 32]) -> (r: bool)
        ensures
            r == !old(self).spent().contains(nonce@),
            final(self).spent() == old(self).spent().insert(nonce@),
    ;
}

/// A key store held in memory.
pub struct MemoryKeyStore {
    map: HashMap<u8, [u8; 64]>,
}

impl MemoryKeyStore {
    pub fn new() -> (r: MemoryKeyStore)
        ensures
            r.keys() == Map::<u8, Seq<u8>>::empty(),
    {
        let r = MemoryKeyStore { map: HashMap::new() };
        assert(r.keys() =~= Map::<u8, Seq<u8>>::empty());
        r
    }
}

impl KeyStore for MemoryKeyStore {
    closed spec fn keys(&self) -> Map<u8, Seq<u8>> {
        self.map@.map_values(|k: [u8; 64]| k@)
    }

    fn insert(&mut self, key_id: u8, key: [u8; 64]) {
        broadcast use axiom_u8_obeys_hash_table_key_model, axiom_random_state_builds_valid_hashers;

        self.map.insert(key_id, key);
        assert(final(self).keys() =~= old(self).keys().insert(key_id, key@));
    }

    fn get(&self, key_id: u8) -> (r: Option<[u8; 64]>) {
        broadcast use axiom_u8_obeys_hash_table_key_model, axiom_random_state_builds_valid_hashers;

        match self.map.get(&key_id) {
            Some(k) => Some(*k),
            None => None,
        }
    }
}

/// A nonce store held in memory.
pub struct MemoryNonceStore {
    nonces: Vec<[u8; 32]>,
}

impl MemoryNonceStore {
    pub fn new() -> (r: MemoryNonceStore)
        ensures
            r.spent() == Set::<Seq<u8>>::empty(),
    {
        let r = MemoryNonceStore { nonces: Vec::new() };
        assert(r.spent() =~= Set::<Seq<u8>>::empty());
        r
    }
}

impl NonceStore for MemoryNonceStore {
    closed spec fn spent(&self) -> Set<Seq<u8>> {
        Set::new(|s: Seq<u8>| exists|i: int| 0 <= i < self.nonces@.len() && self.nonces@[i]@ == s)
    }

    fn contains(&self, nonce: &[u8; 32]) -> (r: bool) {
        let mut i: usize = 0;
        while i < self.nonces.len()
            invariant
                i <= self.nonces@.len(),
                forall|j: int| 0 <= j < i ==> self.nonces@[j]@ != nonce@,
            decreases self.nonces@.len() - i,
        {
            if same_nonce(&self.nonces[i], nonce) {
                return true;
            }
            i += 1;
        }
        false
    }

    fn insert(&mut self, nonce: [u8; 32]) -> (r: bool) {
        if self.contains(&nonce) {
            assert(final(self).spent() =~= old(self).spent().insert(nonce@));
            false
        } else {
            self.nonces.push(nonce);
            assert(self.nonces@[self.nonces@.len() - 1] == nonce);
            assert forall|s: Seq<u8>| #[trigger]
                self.spent().contains(s) == old(self).spent().insert(nonce@).contains(s) by {
                if old(self).spent().contains(s) {
                    let i = choose|i: int| 0 <= i < old(self).nonces@.len() && old(self).nonces@[i]@ == s;
                    assert(self.nonces@[i] == old(self).nonces@[i]);
                }
                if self.spent().contains(s) && s != nonce@ {
                    let i = choose|i: int| 0 <= i < self.nonces@.len() && self.nonces@[i]@ == s;
                    assert(old(self).nonces@[i] == self.nonces@[i]);
                }
            }
            assert(self.spent() =~= old(self).spent().insert(nonce@));
            true
        }
    }
}

fn same_nonce(a: &[u8; 32], b: &[u8; 32]) -> (r: bool)
    ensures
        r == (a@ == b@),
{
    let mut i: usize = 0;
    while i < 32
        invariant
            i <= 32,
            a@.len() == 32,
            b@.len() == 32,
            forall|j: int| 0 <= j < i ==> a@[j] == b@[j],
        decreases 32 - i,
    {
        if a[i] != b[i] {
            return false;
        }
        i += 1;
    }
    assert(a@ =~= b@);
    true
}

} // verus!
