//! Key creation, batched issuance and single-use redemption.

use vstd::prelude::*;

use crate::codec::{
    blinded_view, get_array32, wrap_evaluated, TokenRequest, TokenResponse,
};
use crate::oprf::{
    blind_evaluation, check_blinded, derive_key, derived_key, direct_evaluation, evaluate_batch,
    is_group_element, random_seed, evaluate_direct,
};
use crate::store::{KeyStore, NonceStore};
use crate::token::{token_input_bytes, Token, TokenInput, TokenModel};
use crate::token_type::TokenType;

verus! {

/// Length in bytes of an authenticator: the hash output of the ciphersuite.
pub const AUTHENTICATOR_LEN: usize = 64;

/// Length in bytes of a nonce.
pub const NONCE_LEN: usize = 32;

#[derive(Clone, Copy, Debug, PartialEq, Eq, Structural)]
pub enum CreateKeypairError {
    SeedError,
}

#[derive(Clone, Copy, Debug, PartialEq, Eq, Structural)]
pub enum IssueTokenResponseError {
    KeyIdNotFound,
    InvalidTokenRequest,
    InvalidTokenType,
}

#[derive(Clone, Copy, Debug, PartialEq, Eq, Structural)]
pub enum RedeemTokenError {
    KeyIdNotFound,
    DoubleSpending,
    InvalidToken,
}

/// The domain-separation label under which key pairs are derived.
pub open spec fn key_label() -> Seq<u8> {
    seq![80u8, 114u8, 105u8, 118u8, 97u8, 99u8, 121u8, 80u8, 97u8, 115u8, 115u8]
}

/// The public key within a serialized key pair.
pub open spec fn public_part(key: Seq<u8>) -> Seq<u8> {
    key.subrange(32, 64)
}

/// Every element is the encoding of a group element.
pub open spec fn all_group_elements(es: Seq<Seq<u8>>) -> bool {
    forall|i: int| 0 <= i < es.len() ==> is_group_element(#[trigger] es[i])
}

/// The evaluated elements that `key` gives for a batch, in its order.
pub open spec fn evaluations(key: Seq<u8>, es: Seq<Seq<u8>>) -> Seq<Seq<u8>> {
    es.map_values(|b: Seq<u8>| blind_evaluation(key, b))
}

/// The outcome of redeeming token `t` against the key pairs `keys` and
/// the spent nonces `spent`.
pub open spec fn redeem_outcome(keys: Map<u8, Seq<u8>>, spent: Set<Seq<u8>>, t: TokenModel) -> Result<(), RedeemTokenError> {
    if t.token_type != TokenType::Batched || t.authenticator.len() != AUTHENTICATOR_LEN
        || t.nonce.len() != NONCE_LEN {
        Err(RedeemTokenError::InvalidToken)
    } else if spent.contains(t.nonce) {
        Err(RedeemTokenError::DoubleSpending)
    } else if !keys.contains_key(t.key_id) {
        Err(RedeemTokenError::KeyIdNotFound)
    } else {
        let input = token_input_bytes(t.token_type, t.nonce, t.challenge_digest, t.key_id);
        match direct_evaluation(keys[t.key_id], input) {
            Some(a) => if a == t.authenticator {
                Ok(())
            } else {
                Err(RedeemTokenError::InvalidToken)
            },
            None => Err(RedeemTokenError::InvalidToken),
        }
    }
}

/// The spent nonces after redeeming `t` with outcome `r`.
pub open spec fn spent_after(spent: Set<Seq<u8>>, t: TokenModel, r: Result<(), RedeemTokenError>) -> Set<Seq<u8>> {
    if r is Ok {
        spent.insert(t.nonce)
    } else {
        spent
    }
}

/// Once a token has been redeemed, no token with the same nonce is
/// accepted again, whatever the key pairs are then; one that is well formed
/// is refused as double spending.
pub proof fn lemma_no_double_redemption(
    keys: Map<u8, Seq<u8>>,
    later_keys: Map<u8, Seq<u8>>,
    spent: Set<Seq<u8>>,
    t: TokenModel,
    t2: TokenModel,
)
    requires
        redeem_outcome(keys, spent, t) is Ok,
        t2.nonce == t.nonce,
    ensures
        redeem_outcome(later_keys, spent_after(spent, t, Ok(())), t2) is Err,
        t2.token_type == TokenType::Batched && t2.authenticator.len() == AUTHENTICATOR_LEN
            ==> redeem_outcome(later_keys, spent_after(spent, t, Ok(())), t2) == Err::<
            (),
            RedeemTokenError,
        >(RedeemTokenError::DoubleSpending),
{
    assert(spent_after(spent, t, Ok(())).contains(t.nonce));
}

/// Where a token is accepted, the same token with any other authenticator
/// is refused as invalid, and its refusal records no nonce.
pub proof fn lemma_altered_authenticator(
    keys: Map<u8, Seq<u8>>,
    spent: Set<Seq<u8>>,
    t: TokenModel,
    t2: TokenModel,
)
    requires
        redeem_outcome(keys, spent, t) is Ok,
        t2.token_type == t.token_type,
        t2.nonce == t.nonce,
        t2.challenge_digest == t.challenge_digest,
        t2.key_id == t.key_id,
        t2.authenticator != t.authenticator,
    ensures
        redeem_outcome(keys, spent, t2) == Err::<(), RedeemTokenError>(
            RedeemTokenError::InvalidToken,
        ),
        spent_after(spent, t2, redeem_outcome(keys, spent, t2)) == spent,
{
}

/// A well-formed token with an unspent nonce that names a key id absent
/// from the key store is refused with `KeyIdNotFound`.
pub proof fn lemma_unknown_key_redemption(
    keys: Map<u8, Seq<u8>>,
    spent: Set<Seq<u8>>,
    t: TokenModel,
)
    requires
        t.token_type == TokenType::Batched,
        t.authenticator.len() == AUTHENTICATOR_LEN,
        t.nonce.len() == NONCE_LEN,
        !spent.contains(t.nonce),
        !keys.contains_key(t.key_id),
    ensures
        redeem_outcome(keys, spent, t) == Err::<(), RedeemTokenError>(
            RedeemTokenError::KeyIdNotFound,
        ),
{
}

/// The response made of the result of a batch evaluation: the evaluated
/// elements and proof where there is one, `InvalidTokenRequest` where the
/// evaluation failed.
pub fn response_from_evaluation(evaluation: Option<(Vec<[u8; 32]>, [u8; 64])>) -> (r: Result<TokenResponse, IssueTokenResponseError>)
    ensures
        match evaluation {
            Some((es, proof)) => r matches Ok(resp) && resp@.elements == es@.map_values(
                |a: [u8; 32]| a@,
            ) && resp@.proof == proof@,
            None => r == Err::<TokenResponse, _>(IssueTokenResponseError::InvalidTokenRequest),
        },
{
    match evaluation {
        Some((es, proof)) => {
            let evaluated_elements = wrap_evaluated(es);
            Ok(TokenResponse { evaluated_elements, evaluated_proof: proof })
        },
        None => Err(IssueTokenResponseError::InvalidTokenRequest),
    }
}

fn bytes_equal(a: &[u8], b: &[u8]) -> (r: bool)
    ensures
        r == (a@ == b@),
{
    if a.len() != b.len() {
        return false;
    }
    let mut same = true;
    let mut i: usize = 0;
    while i < a.len()
        invariant
            a@.len() == b@.len(),
            i <= a@.len(),
            same == (forall|j: int| 0 <= j < i ==> a@[j] == b@[j]),
        decreases a@.len() - i,
    {
        if a[i] != b[i] {
            same = false;
        }
        i += 1;
    }
    if same {
        assert(a@ =~= b@);
    }
    same
}

/// The issuance and redemption engine.
pub struct Server {}

impl Server {
    pub fn new() -> (r: Server) {
        Server {}
    }

    /// Derives a key pair from `seed`, stores it under `key_id` (replacing
    /// any earlier one) and returns its public key.
    pub fn create_keypair_with_seed<KS: KeyStore>(&mut self, key_store: &mut KS, key_id: u8, seed: &[u8; 32]) -> (r: Result<[u8; 32], CreateKeypairError>)
        ensures
            match derived_key(seed@, key_label()) {
                Some(k) => r matches Ok(pk) && pk@ == public_part(k) && final(key_store).keys()
                    == old(key_store).keys().insert(key_id, k),
                None => r == Err::<[u8; 32], _>(CreateKeypairError::SeedError)
                    && final(key_store).keys() == old(key_store).keys(),
            },
    {
        let label: [u8; 11] = [80, 114, 105, 118, 97, 99, 121, 80, 97, 115, 115];
        assert(label@ =~= key_label());
        match derive_key(seed, &label) {
            None => Err(CreateKeypairError::SeedError),
            Some(key) => {
                let public_key = get_array32(&key, 32);
                key_store.insert(key_id, key);
                Ok(public_key)
            },
        }
    }

    /// Draws a fresh seed from the operating system, derives a key pair from
    /// it, stores it under `key_id` and returns its public key.
    pub fn create_keypair<KS: KeyStore>(&mut self, key_store: &mut KS, key_id: u8) -> (r: Result<[u8; 32], CreateKeypairError>)
        ensures
            match r {
                Ok(pk) => exists|seed: Seq<u8>, k: Seq<u8>|
                    seed.len() == 32 && derived_key(seed, key_label()) == Some(k) && pk@
                        == public_part(k) && final(key_store).keys() == old(key_store).keys().insert(
                        key_id,
                        k,
                    ),
                Err(e) => e == CreateKeypairError::SeedError && final(key_store).keys() == old(
                    key_store,
                ).keys(),
            },
    {
        let seed = random_seed();
        let r = self.create_keypair_with_seed(key_store, key_id, &seed);
        proof {
            if let Some(k) = derived_key(seed@, key_label()) {
                assert(seed@.len() == 32 && derived_key(seed@, key_label()) == Some(k));
            }
        }
        r
    }

    /// Evaluates every blinded element of the request with the key pair it
    /// names, with one proof for the whole batch.
    pub fn issue_token_response<KS: KeyStore>(&mut self, key_store: &KS, token_request: TokenRequest) -> (r: Result<TokenResponse, IssueTokenResponseError>)
        ensures
            ({
                let req = token_request@;
                let keys = key_store.keys();
                &&& req.token_type != TokenType::Batched ==> r == Err::<TokenResponse, _>(
                    IssueTokenResponseError::InvalidTokenType,
                )
                &&& req.token_type == TokenType::Batched && !keys.contains_key(req.key_id) ==> r
                    == Err::<TokenResponse, _>(IssueTokenResponseError::KeyIdNotFound)
                &&& req.token_type == TokenType::Batched && keys.contains_key(req.key_id)
                    && !all_group_elements(req.elements) ==> r == Err::<TokenResponse, _>(
                    IssueTokenResponseError::InvalidTokenRequest,
                )
                &&& req.token_type == TokenType::Batched && keys.contains_key(req.key_id)
                    && all_group_elements(req.elements) ==> (r is Ok || r == Err::<
                    TokenResponse,
                    _,
                >(IssueTokenResponseError::InvalidTokenRequest))
                &&& r matches Ok(resp) ==> req.token_type == TokenType::Batched
                    && keys.contains_key(req.key_id) && all_group_elements(req.elements)
                    && resp@.elements == evaluations(keys[req.key_id], req.elements)
                    && resp@.proof.len() == 64
            }),
    {
        if token_request.token_type != TokenType::Batched {
            return Err(IssueTokenResponseError::InvalidTokenType);
        }
        let key = match key_store.get(token_request.token_key_id) {
            Some(k) => k,
            None => {
                return Err(IssueTokenResponseError::KeyIdNotFound);
            },
        };
        let ghost elements = token_request@.elements;
        let mut blinded: Vec<[u8; 32]> = Vec::new();
        let mut i: usize = 0;
        while i < token_request.blinded_elements.len()
            invariant
                token_request.token_type == TokenType::Batched,
                key_store.keys().contains_key(token_request.token_key_id),
                key_store.keys()[token_request.token_key_id] == key@,
                elements == blinded_view(token_request.blinded_elements@),
                i <= token_request.blinded_elements@.len(),
                blinded@.len() == i,
                forall|j: int| 0 <= j < i ==> (#[trigger] blinded@[j])@ == elements[j],
                forall|j: int| 0 <= j < i ==> is_group_element(#[trigger] elements[j]),
            decreases token_request.blinded_elements@.len() - i,
        {
            let b = token_request.blinded_elements[i].blinded_element;
            assert(elements[i as int] == b@);
            if !check_blinded(&b) {
                assert(!is_group_element(elements[i as int]));
                return Err(IssueTokenResponseError::InvalidTokenRequest);
            }
            blinded.push(b);
            i += 1;
        }
        let evaluation = evaluate_batch(&key, &blinded);
        let r = response_from_evaluation(evaluation);
        proof {
            if r is Ok {
                assert(r->Ok_0@.elements =~= evaluations(key@, elements));
            }
        }
        r
    }

    /// Redeems `token`: checks its shape and that its nonce is unspent,
    /// recomputes the authenticator with the key pair it names, and records
    /// the nonce where the two match.
    pub fn redeem_token<KS: KeyStore, NS: NonceStore>(&mut self, key_store: &mut KS, nonce_store: &mut NS, token: Token) -> (r: Result<(), RedeemTokenError>)
        ensures
            r == redeem_outcome(old(key_store).keys(), old(nonce_store).spent(), token@),
            final(nonce_store).spent() == spent_after(old(nonce_store).spent(), token@, r),
            final(key_store).keys() == old(key_store).keys(),
    {
        if token.token_type != TokenType::Batched {
            return Err(RedeemTokenError::InvalidToken);
        }
        if token.authenticator.len() != AUTHENTICATOR_LEN {
            return Err(RedeemTokenError::InvalidToken);
        }
        if token.nonce.len() != NONCE_LEN {
            return Err(RedeemTokenError::InvalidToken);
        }
        let nonce = get_array32(token.nonce.as_slice(), 0);
        assert(nonce@ =~= token.nonce@);
        if nonce_store.contains(&nonce) {
            return Err(RedeemTokenError::DoubleSpending);
        }
        let token_input = TokenInput {
            token_type: token.token_type,
            nonce,
            context: token.challenge_digest,
            key_id: token.token_key_id,
        };
        let key = match key_store.get(token.token_key_id) {
            Some(k) => k,
            None => {
                return Err(RedeemTokenError::KeyIdNotFound);
            },
        };
        let expected = match evaluate_direct(&key, token_input.serialize().as_slice()) {
            Some(a) => a,
            None => {
                return Err(RedeemTokenError::InvalidToken);
            },
        };
        if bytes_equal(token.authenticator.as_slice(), expected.as_slice()) {
            if nonce_store.insert(nonce) {
                Ok(())
            } else {
                Err(RedeemTokenError::DoubleSpending)
            }
        } else {
            Err(RedeemTokenError::InvalidToken)
        }
    }
}

} // verus!
