use privacypass::{
    response_from_evaluation, BlindedElement, CreateKeypairError, IssueTokenResponseError, KeyStore,
    MemoryKeyStore, MemoryNonceStore, NonceStore, RedeemTokenError, Server, Token, TokenInput, TokenRequest,
    TokenResponse, TokenType,
};
use rand::rngs::OsRng;
use voprf::{EvaluationElement, Group, Proof, Ristretto255, VoprfClient};

struct Issued {
    server: Server,
    keys: MemoryKeyStore,
    tokens: Vec<Token>,
}

fn token_input(nonce: [u8; 32], key_id: u8) -> TokenInput {
    TokenInput { token_type: TokenType::Batched, nonce, context: [5u8; 32], key_id }
}

/// Creates a key under id 1, issues `n` tokens through the full client flow
/// and returns them unredeemed.
fn issue(n: usize) -> Issued {
    let mut server = Server::new();
    let mut keys = MemoryKeyStore::new();
    let pk_bytes = server.create_keypair(&mut keys, 1).unwrap();
    let pk = <Ristretto255 as Group>::deserialize_elem(&pk_bytes).unwrap();

    let mut clients = Vec::new();
    let mut inputs = Vec::new();
    let mut blinded_elements = Vec::new();
    for i in 0..n {
        let input = token_input([i as u8 + 10; 32], 1).serialize();
        let blind = VoprfClient::<Ristretto255>::blind(&input, &mut OsRng).unwrap();
        let mut b = [0u8; 32];
        b.copy_from_slice(&blind.message.serialize());
        blinded_elements.push(BlindedElement { blinded_element: b });
        clients.push(blind.state);
        inputs.push(input);
    }
    let request = TokenRequest { token_type: TokenType::Batched, token_key_id: 1, blinded_elements };
    let response = server.issue_token_response(&keys, request).unwrap();
    assert_eq!(response.evaluated_elements.len(), n);
    assert_eq!(response.evaluated_proof.len(), 64);

    let messages: Vec<EvaluationElement<Ristretto255>> = response
        .evaluated_elements
        .iter()
        .map(|e| EvaluationElement::deserialize(&e.evaluated_element).unwrap())
        .collect();
    let proof = Proof::<Ristretto255>::deserialize(&response.evaluated_proof).unwrap();
    let outputs: Vec<Vec<u8>> = VoprfClient::batch_finalize(&inputs, &clients, &messages, &proof, pk)
        .unwrap()
        .map(|o| o.unwrap().to_vec())
        .collect();

    let tokens = (0..n)
        .map(|i| Token {
            token_type: TokenType::Batched,
            nonce: vec![i as u8 + 10; 32],
            challenge_digest: [5u8; 32],
            token_key_id: 1,
            authenticator: outputs[i].clone(),
        })
        .collect();
    Issued { server, keys, tokens }
}

#[test]
fn issued_tokens_redeem_once() {
    let mut issued = issue(3);
    let mut nonces = MemoryNonceStore::new();
    for t in issued.tokens.clone() {
        assert_eq!(issued.server.redeem_token(&mut issued.keys, &mut nonces, t.clone()), Ok(()));
        assert_eq!(
            issued.server.redeem_token(&mut issued.keys, &mut nonces, t),
            Err(RedeemTokenError::DoubleSpending)
        );
    }
}

#[test]
fn batch_order_is_kept() {
    let mut issued = issue(4);
    let mut nonces = MemoryNonceStore::new();
    // Each authenticator verifies only with its own nonce: a swap fails.
    let mut swapped = issued.tokens[0].clone();
    swapped.authenticator = issued.tokens[1].authenticator.clone();
    assert_eq!(
        issued.server.redeem_token(&mut issued.keys, &mut nonces, swapped),
        Err(RedeemTokenError::InvalidToken)
    );
    for t in issued.tokens.clone() {
        assert_eq!(issued.server.redeem_token(&mut issued.keys, &mut nonces, t), Ok(()));
    }
}

#[test]
fn flipped_authenticator_bit_is_rejected_and_not_spent() {
    let mut issued = issue(1);
    let mut nonces = MemoryNonceStore::new();
    let good = issued.tokens[0].clone();
    let mut bad = good.clone();
    bad.authenticator[7] ^= 0x01;
    assert_eq!(issued.server.redeem_token(&mut issued.keys, &mut nonces, bad), Err(RedeemTokenError::InvalidToken));
    let mut nonce = [0u8; 32];
    nonce.copy_from_slice(&good.nonce);
    assert!(!nonces.contains(&nonce));
    assert_eq!(issued.server.redeem_token(&mut issued.keys, &mut nonces, good), Ok(()));
    assert!(nonces.contains(&nonce));
}

#[test]
fn empty_batch_is_accepted() {
    let issued = issue(0);
    assert!(issued.tokens.is_empty());
    let mut server = Server::new();
    let request = TokenRequest { token_type: TokenType::Batched, token_key_id: 1, blinded_elements: vec![] };
    let response = server.issue_token_response(&issued.keys, request).unwrap();
    assert!(response.evaluated_elements.is_empty());
    assert_eq!(response.evaluated_proof.len(), 64);
    assert_ne!(response.evaluated_proof, [0u8; 64]);
}

#[test]
fn wrong_token_type_rejected_before_key_lookup() {
    let mut server = Server::new();
    let keys = MemoryKeyStore::new();
    for t in [TokenType::Private, TokenType::Public] {
        let request = TokenRequest { token_type: t, token_key_id: 9, blinded_elements: vec![] };
        assert_eq!(
            server.issue_token_response(&keys, request).unwrap_err(),
            IssueTokenResponseError::InvalidTokenType
        );
    }
}

#[test]
fn unknown_key_id_on_issuance() {
    let issued = issue(1);
    let mut server = Server::new();
    let request = TokenRequest { token_type: TokenType::Batched, token_key_id: 2, blinded_elements: vec![] };
    assert_eq!(
        server.issue_token_response(&issued.keys, request).unwrap_err(),
        IssueTokenResponseError::KeyIdNotFound
    );
}

#[test]
fn unknown_key_id_on_redemption() {
    let mut issued = issue(1);
    let mut nonces = MemoryNonceStore::new();
    let mut t = issued.tokens[0].clone();
    t.token_key_id = 3;
    assert_eq!(issued.server.redeem_token(&mut issued.keys, &mut nonces, t), Err(RedeemTokenError::KeyIdNotFound));
}

#[test]
fn invalid_group_element_rejected() {
    let mut issued = issue(1);
    let request = TokenRequest {
        token_type: TokenType::Batched,
        token_key_id: 1,
        blinded_elements: vec![BlindedElement { blinded_element: [0xFF; 32] }],
    };
    assert_eq!(
        issued.server.issue_token_response(&issued.keys, request).unwrap_err(),
        IssueTokenResponseError::InvalidTokenRequest
    );
    let identity = TokenRequest {
        token_type: TokenType::Batched,
        token_key_id: 1,
        blinded_elements: vec![BlindedElement { blinded_element: [0; 32] }],
    };
    assert_eq!(
        issued.server.issue_token_response(&issued.keys, identity).unwrap_err(),
        IssueTokenResponseError::InvalidTokenRequest
    );
}

#[test]
fn malformed_tokens_are_invalid() {
    let mut issued = issue(1);
    let mut nonces = MemoryNonceStore::new();
    let good = issued.tokens[0].clone();
    let mut short_auth = good.clone();
    short_auth.authenticator.pop();
    let mut short_nonce = good.clone();
    short_nonce.nonce.pop();
    let mut wrong_type = good.clone();
    wrong_type.token_type = TokenType::Public;
    for t in [short_auth, short_nonce, wrong_type] {
        assert_eq!(issued.server.redeem_token(&mut issued.keys, &mut nonces, t), Err(RedeemTokenError::InvalidToken));
    }
    assert_eq!(issued.server.redeem_token(&mut issued.keys, &mut nonces, good), Ok(()));
}

#[test]
fn seeded_keypair_is_deterministic_and_replaces() {
    let mut server = Server::new();
    let mut a = MemoryKeyStore::new();
    let mut b = MemoryKeyStore::new();
    let pk1 = server.create_keypair_with_seed(&mut a, 4, &[3u8; 32]).unwrap();
    let pk2 = server.create_keypair_with_seed(&mut b, 4, &[3u8; 32]).unwrap();
    assert_eq!(pk1, pk2);
    let stored = a.get(4).unwrap();
    assert_eq!(&stored[32..], &pk1[..]);
    let pk3 = server.create_keypair_with_seed(&mut a, 4, &[4u8; 32]).unwrap();
    assert_ne!(pk3, pk1);
    assert_eq!(&a.get(4).unwrap()[32..], &pk3[..]);
    assert!(a.get(5).is_none());
    let _ = CreateKeypairError::SeedError;
}

#[test]
fn token_input_layout() {
    let bytes = token_input([1u8; 32], 0x42).serialize();
    assert_eq!(bytes.len(), 2 + 32 + 32 + 1);
    assert_eq!(&bytes[..2], &[0xF9, 0x1A]);
    assert_eq!(&bytes[2..34], &[1u8; 32]);
    assert_eq!(&bytes[34..66], &[5u8; 32]);
    assert_eq!(bytes[66], 0x42);
}

#[test]
fn evaluation_result_maps_to_response() {
    let r = response_from_evaluation(Some((vec![[1u8; 32], [2u8; 32]], [3u8; 64]))).unwrap();
    assert_eq!(r.evaluated_elements.len(), 2);
    assert_eq!(r.evaluated_elements[1].evaluated_element, [2u8; 32]);
    assert_eq!(r.evaluated_proof, [3u8; 64]);
    let e: Result<TokenResponse, _> = response_from_evaluation(None);
    assert_eq!(e.unwrap_err(), IssueTokenResponseError::InvalidTokenRequest);
}

#[test]
fn nonce_store_check_and_insert() {
    let mut nonces = MemoryNonceStore::new();
    assert!(!nonces.contains(&[1u8; 32]));
    assert!(nonces.insert([1u8; 32]));
    assert!(!nonces.insert([1u8; 32]));
    assert!(nonces.contains(&[1u8; 32]));
    assert!(!nonces.contains(&[2u8; 32]));
}
