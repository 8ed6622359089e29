use privacypass::{BlindedElement, EvaluatedElement, SerializationError, TokenRequest, TokenResponse, TokenType};
use tls_codec::Serialize;
use tls_codec::TlsVecU16;

fn request(token_type: TokenType, n: usize) -> TokenRequest {
    let mut blinded_elements = Vec::new();
    for i in 0..n {
        blinded_elements.push(BlindedElement { blinded_element: [i as u8 + 1; 32] });
    }
    TokenRequest { token_type, token_key_id: 7, blinded_elements }
}

fn response(n: usize) -> TokenResponse {
    let mut evaluated_elements = Vec::new();
    for i in 0..n {
        evaluated_elements.push(EvaluatedElement { evaluated_element: [0x40 + i as u8; 32] });
    }
    TokenResponse { evaluated_elements, evaluated_proof: [9; 64] }
}

fn encode_request(r: &TokenRequest) -> Vec<u8> {
    let mut out = Vec::new();
    r.tls_serialize(&mut out).unwrap();
    out
}

fn encode_response(r: &TokenResponse) -> Vec<u8> {
    let mut out = Vec::new();
    r.tls_serialize(&mut out).unwrap();
    out
}

#[test]
fn request_layout_is_exact() {
    let r = request(TokenType::Batched, 2);
    let bytes = encode_request(&r);
    assert_eq!(bytes.len(), 5 + 64);
    assert_eq!(r.tls_serialized_len(), 69);
    assert_eq!(&bytes[..5], &[0xF9, 0x1A, 7, 0x00, 0x40]);
    assert_eq!(&bytes[5..37], &[1u8; 32]);
    assert_eq!(&bytes[37..69], &[2u8; 32]);
    assert_eq!(r.nr(), 2);
}

#[test]
fn request_round_trip() {
    for n in [0usize, 1, 3, 17] {
        let r = request(TokenType::Batched, n);
        let mut bytes = encode_request(&r);
        let len = bytes.len();
        bytes.extend_from_slice(&[0xAA, 0xBB]);
        let (back, used) = TokenRequest::tls_deserialize(&bytes).unwrap();
        assert_eq!(back, r);
        assert_eq!(used, len);
    }
}

#[test]
fn response_round_trip() {
    for n in [0usize, 1, 5] {
        let r = response(n);
        let bytes = encode_response(&r);
        assert_eq!(bytes.len(), 2 + 32 * n + 64);
        assert_eq!(r.tls_serialized_len(), bytes.len());
        let back = TokenResponse::try_from_bytes(&bytes).unwrap();
        assert_eq!(back, r);
        assert_eq!(back.evaluated_proof.len(), 64);
    }
}

#[test]
fn length_prefix_matches_tls_vec() {
    let r = response(3);
    let bytes = encode_response(&r);
    let mut flat = Vec::new();
    for e in &r.evaluated_elements {
        flat.extend_from_slice(&e.evaluated_element);
    }
    let framed = TlsVecU16::<u8>::new(flat).tls_serialize_detached().unwrap();
    assert_eq!(&bytes[..framed.len()], &framed[..]);
    assert_eq!(&bytes[framed.len()..], &[9u8; 64]);
}

#[test]
fn truncated_request_fails() {
    let bytes = encode_request(&request(TokenType::Batched, 2));
    for k in 0..bytes.len() {
        assert_eq!(TokenRequest::tls_deserialize(&bytes[..k]).unwrap_err(), SerializationError::InvalidData);
    }
}

#[test]
fn truncated_response_fails() {
    let bytes = encode_response(&response(2));
    for k in 0..bytes.len() {
        assert!(TokenResponse::tls_deserialize(&bytes[..k]).is_err());
        assert!(TokenResponse::try_from_bytes(&bytes[..k]).is_err());
    }
}

#[test]
fn trailing_bytes_rejected_by_try_from_bytes() {
    let mut bytes = encode_response(&response(1));
    bytes.push(0);
    assert_eq!(TokenResponse::try_from_bytes(&bytes).unwrap_err(), SerializationError::InvalidData);
    let (_, used) = TokenResponse::tls_deserialize(&bytes).unwrap();
    assert_eq!(used, bytes.len() - 1);
}

#[test]
fn inconsistent_length_prefix_rejected() {
    let mut bytes = encode_request(&request(TokenType::Batched, 1));
    bytes[4] = 31;
    assert!(TokenRequest::tls_deserialize(&bytes).is_err());
}

#[test]
fn unknown_token_type_code_rejected() {
    let mut bytes = encode_request(&request(TokenType::Batched, 1));
    bytes[0] = 0x12;
    assert!(TokenRequest::tls_deserialize(&bytes).is_err());
}

#[test]
fn other_token_types_encode_their_codes() {
    assert_eq!(&encode_request(&request(TokenType::Private, 0))[..2], &[0x00, 0x01]);
    assert_eq!(&encode_request(&request(TokenType::Public, 0))[..2], &[0x00, 0x02]);
    assert_eq!(TokenType::Batched.code(), 0xF91A);
    assert_eq!(TokenType::from_code(0xF91A), Some(TokenType::Batched));
    assert_eq!(TokenType::from_code(3), None);
}

#[test]
fn oversized_batch_cannot_be_encoded() {
    let r = request(TokenType::Batched, 2048);
    let mut out = vec![1u8];
    assert_eq!(r.tls_serialize(&mut out), Err(SerializationError::InvalidData));
    assert_eq!(out, vec![1u8]);
    let fits = request(TokenType::Batched, 2047);
    assert_eq!(encode_request(&fits).len(), 5 + 32 * 2047);
}

fn sample_token() -> privacypass::Token {
    privacypass::Token {
        token_type: TokenType::Batched,
        nonce: vec![0x11; 32],
        challenge_digest: [0x22; 32],
        token_key_id: 0x33,
        authenticator: vec![0x44; 64],
    }
}

#[test]
fn token_layout_and_round_trip() {
    let t = sample_token();
    let mut out = Vec::new();
    assert_eq!(t.tls_serialize(&mut out), Ok(131));
    assert_eq!(&out[..2], &[0xF9, 0x1A]);
    assert_eq!(&out[2..34], &[0x11u8; 32]);
    assert_eq!(&out[34..66], &[0x22u8; 32]);
    assert_eq!(out[66], 0x33);
    assert_eq!(&out[67..], &[0x44u8; 64]);
    out.push(0xEE);
    let (back, used) = privacypass::Token::tls_deserialize(&out).unwrap();
    assert_eq!(back, t);
    assert_eq!(used, 131);
}

#[test]
fn truncated_token_fails() {
    let mut out = Vec::new();
    sample_token().tls_serialize(&mut out).unwrap();
    for k in 0..out.len() {
        assert_eq!(privacypass::Token::tls_deserialize(&out[..k]).unwrap_err(), SerializationError::InvalidData);
    }
}

#[test]
fn token_with_short_authenticator_cannot_be_encoded() {
    let mut t = sample_token();
    t.authenticator.pop();
    let mut out = Vec::new();
    assert_eq!(t.tls_serialize(&mut out), Err(SerializationError::InvalidData));
    assert!(out.is_empty());
}
