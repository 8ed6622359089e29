//! The token presented at redemption, and the input its authenticator is
//! computed over.

use vstd::prelude::*;

use crate::codec::{get_array32, get_u16, lemma_u16_bytes_read, push_u16, read_u16, u16_bytes, SerializationError};
use crate::token_type::{lemma_type_code_inverse, type_code, type_of_code, TokenType};

verus! {

/// A token presented for redemption.
#[derive(Clone, Debug, PartialEq, Eq)]
pub struct Token {
    pub token_type: TokenType,
    pub nonce: Vec<u8>,
    pub challenge_digest: [u8; 32],
    pub token_key_id: u8,
    pub authenticator: Vec<u8>,
}

/// What a token says, as plain values.
pub ghost struct TokenModel {
    pub token_type: TokenType,
    pub nonce: Seq<u8>,
    pub challenge_digest: Seq<u8>,
    pub key_id: u8,
    pub authenticator: Seq<u8>,
}

impl View for Token {
    type V = TokenModel;

    open spec fn view(&self) -> TokenModel {
        TokenModel {
            token_type: self.token_type,
            nonce: self.nonce@,
            challenge_digest: self.challenge_digest@,
            key_id: self.token_key_id,
            authenticator: self.authenticator@,
        }
    }
}

/// The input that client and server both evaluate for a token.
#[derive(Clone, Copy, Debug, PartialEq, Eq)]
pub struct TokenInput {
    pub token_type: TokenType,
    pub nonce: [u8; 32],
    pub context: [u8; 32],
    pub key_id: u8,
}

/// Serialization of a token input: the type code, the nonce, the context
/// and the key id.
pub open spec fn token_input_bytes(t: TokenType, nonce: Seq<u8>, context: Seq<u8>, key_id: u8) -> Seq<u8> {
    u16_bytes(type_code(t)) + nonce + context + seq![key_id]
}

impl TokenInput {
    pub fn serialize(&self) -> (r: Vec<u8>)
        ensures
            r@ == token_input_bytes(self.token_type, self.nonce@, self.context@, self.key_id),
    {
        let mut out: Vec<u8> = Vec::new();
        push_u16(&mut out, self.token_type.code());
        out.extend_from_slice(&self.nonce);
        out.extend_from_slice(&self.context);
        out.push(self.key_id);
        assert(out@ =~= token_input_bytes(self.token_type, self.nonce@, self.context@, self.key_id));
        out
    }
}

/// Length in bytes of an encoded token.
pub const TOKEN_LEN: usize = 131;

/// A token model that the fixed layout can carry.
pub open spec fn token_fits(t: TokenModel) -> bool {
    t.nonce.len() == 32 && t.challenge_digest.len() == 32 && t.authenticator.len() == 64
}

/// The encoding of a token: type code, nonce, challenge digest, key id and
/// authenticator, each at a fixed width.
pub open spec fn token_bytes(t: TokenModel) -> Seq<u8> {
    u16_bytes(type_code(t.token_type)) + t.nonce + t.challenge_digest + seq![t.key_id]
        + t.authenticator
}

/// A token read from the front of `s`, and the number of bytes it takes.
pub open spec fn parse_token(s: Seq<u8>) -> Option<(TokenModel, nat)> {
    if s.len() < TOKEN_LEN {
        None
    } else {
        match type_of_code(read_u16(s, 0)) {
            None => None,
            Some(t) => Some(
                (
                    TokenModel {
                        token_type: t,
                        nonce: s.subrange(2, 34),
                        challenge_digest: s.subrange(34, 66),
                        key_id: s[66],
                        authenticator: s.subrange(67, 131),
                    },
                    TOKEN_LEN as nat,
                ),
            ),
        }
    }
}

/// Decoding the encoding of a token gives the token back and takes exactly
/// its encoding, whatever bytes follow it.
pub proof fn lemma_token_round_trip(t: TokenModel, rest: Seq<u8>)
    requires
        token_fits(t),
    ensures
        parse_token(token_bytes(t) + rest) == Some((t, token_bytes(t).len())),
{
    let s = token_bytes(t) + rest;
    lemma_u16_bytes_read(type_code(t.token_type), s, 0);
    lemma_type_code_inverse(t.token_type);
    assert(s.subrange(2, 34) =~= t.nonce);
    assert(s.subrange(34, 66) =~= t.challenge_digest);
    assert(s.subrange(67, 131) =~= t.authenticator);
}

/// No strict prefix of the encoding of a token decodes.
pub proof fn lemma_token_truncated(t: TokenModel, k: int)
    requires
        token_fits(t),
        0 <= k < token_bytes(t).len(),
    ensures
        parse_token(token_bytes(t).take(k)) is None,
{
}

fn copy_range(bytes: &[u8], off: usize, n: usize) -> (r: Vec<u8>)
    requires
        off + n <= bytes@.len(),
    ensures
        r@ == bytes@.subrange(off as int, off + n),
{
    let len = bytes.len();
    let mut r: Vec<u8> = Vec::new();
    let mut k: usize = 0;
    while k < n
        invariant
            off + n <= bytes@.len(),
            len == bytes@.len(),
            k <= n,
            r@ == bytes@.subrange(off as int, off + k),
        decreases n - k,
    {
        r.push(bytes[off + k]);
        k += 1;
        assert(r@ =~= bytes@.subrange(off as int, off + k));
    }
    r
}

impl Token {
    /// Appends the encoding to `out`; fails, writing nothing, where the
    /// nonce or the authenticator does not have its fixed width.
    pub fn tls_serialize(&self, out: &mut Vec<u8>) -> (r: Result<usize, SerializationError>)
        ensures
            match r {
                Ok(n) => token_fits(self@) && final(out)@ == old(out)@ + token_bytes(self@) && n
                    == TOKEN_LEN,
                Err(e) => !token_fits(self@) && e == SerializationError::InvalidData
                    && final(out)@ == old(out)@,
            },
    {
        if self.nonce.len() != 32 || self.authenticator.len() != 64 {
            return Err(SerializationError::InvalidData);
        }
        let ghost start = out@;
        push_u16(out, self.token_type.code());
        out.extend_from_slice(self.nonce.as_slice());
        out.extend_from_slice(&self.challenge_digest);
        out.push(self.token_key_id);
        out.extend_from_slice(self.authenticator.as_slice());
        assert(out@ =~= start + token_bytes(self@));
        Ok(TOKEN_LEN)
    }

    /// Reads a token from the front of `bytes`; gives it and the number of
    /// bytes it takes.
    pub fn tls_deserialize(bytes: &[u8]) -> (r: Result<(Token, usize), SerializationError>)
        ensures
            match r {
                Ok((t, n)) => parse_token(bytes@) == Some((t@, n as nat)),
                Err(e) => parse_token(bytes@) is None && e == SerializationError::InvalidData,
            },
    {
        if bytes.len() < TOKEN_LEN {
            return Err(SerializationError::InvalidData);
        }
        let token_type = match TokenType::from_code(get_u16(bytes, 0)) {
            Some(t) => t,
            None => {
                return Err(SerializationError::InvalidData);
            },
        };
        let nonce = copy_range(bytes, 2, 32);
        let challenge_digest = get_array32(bytes, 34);
        let token_key_id = bytes[66];
        let authenticator = copy_range(bytes, 67, 64);
        Ok((Token { token_type, nonce, challenge_digest, token_key_id, authenticator }, TOKEN_LEN))
    }
}

} // verus!
