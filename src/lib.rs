//! Server side of a batched anonymous-token protocol: wire codec, key and
//! nonce stores, batched issuance and single-use redemption.

pub mod codec;
pub mod oprf;
pub mod server;
pub mod store;
pub mod token;
pub mod token_type;

pub use codec::{BlindedElement, EvaluatedElement, SerializationError, TokenRequest, TokenResponse};
pub use server::{
    response_from_evaluation, CreateKeypairError, IssueTokenResponseError, RedeemTokenError, Server,
};
pub use store::{KeyStore, MemoryKeyStore, MemoryNonceStore, NonceStore};
pub use token::{Token, TokenInput};
pub use token_type::TokenType;
