use vstd::prelude::*;

verus! {

/// The protocol variants, each tagged on the wire by a 16-bit code.
#[derive(Clone, Copy, Debug, PartialEq, Eq, Structural)]
pub enum TokenType {
    Private,
    Public,
    Batched,
}

/// Wire code of the batched variant.
pub const BATCHED_CODE: u16 = 0xF91A;

/// The 16-bit code that stands for `t` on the wire.
pub open spec fn type_code(t: TokenType) -> u16 {
    match t {
        TokenType::Private => 0x0001,
        TokenType::Public => 0x0002,
        TokenType::Batched => BATCHED_CODE,
    }
}

/// The variant a 16-bit code stands for, if any.
pub open spec fn type_of_code(c: u16) -> Option<TokenType> {
    if c == 0x0001 {
        Some(TokenType::Private)
    } else if c == 0x0002 {
        Some(TokenType::Public)
    } else if c == BATCHED_CODE {
        Some(TokenType::Batched)
    } else {
        None
    }
}

/// Every variant is recovered from its code.
pub proof fn lemma_type_code_inverse(t: TokenType)
    ensures
        type_of_code(type_code(t)) == Some(t),
{
}

impl TokenType {
    pub fn code(&self) -> (r: u16)
        ensures
            r == type_code(*self),
    {
        match self {
            TokenType::Private => 0x0001,
            TokenType::Public => 0x0002,
            TokenType::Batched => BATCHED_CODE,
        }
    }

    pub fn from_code(c: u16) -> (r: Option<TokenType>)
        ensures
            r == type_of_code(c),
    {
        if c == 0x0001 {
            Some(TokenType::Private)
        } else if c == 0x0002 {
            Some(TokenType::Public)
        } else if c == BATCHED_CODE {
            Some(TokenType::Batched)
        } else {
            None
        }
    }
}

} // verus!
