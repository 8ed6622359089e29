use vstd::prelude::*;

use crate::token_type::{type_code, type_of_code, TokenType};

verus! {

/// Largest number of content bytes a 16-bit length prefix can announce.
pub const MAX_VEC_BYTES: usize = 65535;

/// Malformed, truncated or unencodable data.
#[derive(Clone, Copy, Debug, PartialEq, Eq, Structural)]
pub enum SerializationError {
    InvalidData,
}

/// A blinded group element submitted by a client.
#[derive(Clone, Copy, Debug, PartialEq, Eq)]
pub struct BlindedElement {
    pub blinded_element: [u8; 32],
}

/// A group element evaluated by the server.
#[derive(Clone, Copy, Debug, PartialEq, Eq)]
pub struct EvaluatedElement {
    pub evaluated_element: [u8; 32],
}

/// An issuance request: the token type, the key to use and the batch.
#[derive(Clone, Debug, PartialEq, Eq)]
pub struct TokenRequest {
    pub token_type: TokenType,
    pub token_key_id: u8,
    pub blinded_elements: Vec<BlindedElement>,
}

/// An issuance response: one evaluated element per blinded element, in the
/// order of the request, and one proof for the whole batch.
#[derive(Clone, Debug, PartialEq, Eq)]
pub struct TokenResponse {
    pub evaluated_elements: Vec<EvaluatedElement>,
    pub evaluated_proof: [u8; 64],
}

/// What a request says, as plain values.
pub ghost struct RequestModel {
    pub token_type: TokenType,
    pub key_id: u8,
    pub elements: Seq<Seq<u8>>,
}

/// What a response says, as plain values.
pub ghost struct ResponseModel {
    pub elements: Seq<Seq<u8>>,
    pub proof: Seq<u8>,
}

pub open spec fn blinded_view(v: Seq<BlindedElement>) -> Seq<Seq<u8>> {
    v.map_values(|e: BlindedElement| e.blinded_element@)
}

pub open spec fn evaluated_view(v: Seq<EvaluatedElement>) -> Seq<Seq<u8>> {
    v.map_values(|e: EvaluatedElement| e.evaluated_element@)
}

impl View for TokenRequest {
    type V = RequestModel;

    open spec fn view(&self) -> RequestModel {
        RequestModel {
            token_type: self.token_type,
            key_id: self.token_key_id,
            elements: blinded_view(self.blinded_elements@),
        }
    }
}

impl View for TokenResponse {
    type V = ResponseModel;

    open spec fn view(&self) -> ResponseModel {
        ResponseModel {
            elements: evaluated_view(self.evaluated_elements@),
            proof: self.evaluated_proof@,
        }
    }
}

/// Every element of `es` is `len` bytes long.
pub open spec fn all_len(es: Seq<Seq<u8>>, len: nat) -> bool {
    forall|i: int| 0 <= i < es.len() ==> (#[trigger] es[i]).len() == len
}

/// A request model that the wire format can carry.
pub open spec fn request_fits(m: RequestModel) -> bool {
    all_len(m.elements, 32) && 32 * m.elements.len() <= MAX_VEC_BYTES
}

/// A response model that the wire format can carry.
pub open spec fn response_fits(m: ResponseModel) -> bool {
    all_len(m.elements, 32) && 32 * m.elements.len() <= MAX_VEC_BYTES && m.proof.len() == 64
}

/// Big-endian bytes of a 16-bit value.
pub open spec fn u16_bytes(v: u16) -> Seq<u8> {
    seq![(v / 256) as u8, (v % 256) as u8]
}

/// The 16-bit big-endian value at `s[i]`, `s[i + 1]`.
pub open spec fn read_u16(s: Seq<u8>, i: int) -> u16 {
    (s[i] as int * 256 + s[i + 1] as int) as u16
}

/// The elements of `es` one after another.
pub open spec fn flatten(es: Seq<Seq<u8>>) -> Seq<u8>
    decreases es.len(),
{
    if es.len() == 0 {
        Seq::empty()
    } else {
        flatten(es.drop_last()) + es.last()
    }
}

/// `s` cut into consecutive 32-byte pieces.
pub open spec fn chunks(s: Seq<u8>) -> Seq<Seq<u8>> {
    Seq::new(s.len() / 32, |j: int| s.subrange(32 * j, 32 * j + 32))
}

/// A length-prefixed sequence of 32-byte elements.
pub open spec fn element_vec_bytes(es: Seq<Seq<u8>>) -> Seq<u8> {
    u16_bytes((32 * es.len()) as u16) + flatten(es)
}

/// The encoding of a request.
pub open spec fn request_bytes(m: RequestModel) -> Seq<u8> {
    u16_bytes(type_code(m.token_type)) + seq![m.key_id] + element_vec_bytes(m.elements)
}

/// The encoding of a response.
pub open spec fn response_bytes(m: ResponseModel) -> Seq<u8> {
    element_vec_bytes(m.elements) + m.proof
}

/// A request read from the front of `s`, and the number of bytes it takes.
pub open spec fn parse_request(s: Seq<u8>) -> Option<(RequestModel, nat)> {
    if s.len() < 5 {
        None
    } else {
        let n = read_u16(s, 3) as nat;
        match type_of_code(read_u16(s, 0)) {
            None => None,
            Some(t) => if n % 32 != 0 || s.len() < 5 + n {
                None
            } else {
                Some(
                    (
                        RequestModel {
                            token_type: t,
                            key_id: s[2],
                            elements: chunks(s.subrange(5, 5 + n as int)),
                        },
                        5 + n,
                    ),
                )
            },
        }
    }
}

/// A response read from the front of `s`, and the number of bytes it takes.
pub open spec fn parse_response(s: Seq<u8>) -> Option<(ResponseModel, nat)> {
    if s.len() < 2 {
        None
    } else {
        let n = read_u16(s, 0) as nat;
        if n % 32 != 0 || s.len() < 2 + n + 64 {
            None
        } else {
            Some(
                (
                    ResponseModel {
                        elements: chunks(s.subrange(2, 2 + n as int)),
                        proof: s.subrange(2 + n as int, 2 + n as int + 64),
                    },
                    2 + n + 64,
                ),
            )
        }
    }
}

pub proof fn lemma_flatten_len(es: Seq<Seq<u8>>)
    requires
        all_len(es, 32),
    ensures
        flatten(es).len() == 32 * es.len(),
    decreases es.len(),
{
    if es.len() > 0 {
        lemma_flatten_len(es.drop_last());
    }
}

pub proof fn lemma_flatten_piece(es: Seq<Seq<u8>>, j: int)
    requires
        all_len(es, 32),
        0 <= j < es.len(),
    ensures
        flatten(es).subrange(32 * j, 32 * j + 32) == es[j],
    decreases es.len(),
{
    let init = es.drop_last();
    lemma_flatten_len(init);
    if j < es.len() - 1 {
        lemma_flatten_piece(init, j);
        assert(flatten(es).subrange(32 * j, 32 * j + 32) =~= flatten(init).subrange(
            32 * j,
            32 * j + 32,
        ));
    } else {
        assert(flatten(es).subrange(32 * j, 32 * j + 32) =~= es.last());
    }
}

/// Cutting the concatenation of 32-byte elements gives the elements back.
pub proof fn lemma_chunks_flatten(es: Seq<Seq<u8>>)
    requires
        all_len(es, 32),
    ensures
        chunks(flatten(es)) == es,
{
    lemma_flatten_len(es);
    assert forall|j: int| 0 <= j < es.len() implies chunks(flatten(es))[j] == es[j] by {
        lemma_flatten_piece(es, j);
    }
    assert(chunks(flatten(es)) =~= es);
}

pub proof fn lemma_u16_bytes_read(v: u16, s: Seq<u8>, i: int)
    requires
        0 <= i,
        i + 2 <= s.len(),
        s[i] == u16_bytes(v)[0],
        s[i + 1] == u16_bytes(v)[1],
    ensures
        read_u16(s, i) == v,
{
    assert((v / 256) as u8 as int * 256 + (v % 256) as u8 as int == v as int) by (nonlinear_arith);
}

/// Decoding the encoding of a request gives the request back and takes
/// exactly its encoding, whatever bytes follow it.
pub proof fn lemma_request_round_trip(m: RequestModel, rest: Seq<u8>)
    requires
        request_fits(m),
    ensures
        parse_request(request_bytes(m) + rest) == Some((m, request_bytes(m).len())),
{
    let es = m.elements;
    let s = request_bytes(m) + rest;
    let n = 32 * es.len();
    lemma_flatten_len(es);
    lemma_u16_bytes_read(type_code(m.token_type), s, 0);
    lemma_u16_bytes_read(n as u16, s, 3);
    crate::token_type::lemma_type_code_inverse(m.token_type);
    assert(s.subrange(5, 5 + n as int) =~= flatten(es));
    lemma_chunks_flatten(es);
    assert(n % 32 == 0);
}

/// Decoding the encoding of a response gives the response back and takes
/// exactly its encoding, whatever bytes follow it.
pub proof fn lemma_response_round_trip(m: ResponseModel, rest: Seq<u8>)
    requires
        response_fits(m),
    ensures
        parse_response(response_bytes(m) + rest) == Some((m, response_bytes(m).len())),
{
    let es = m.elements;
    let s = response_bytes(m) + rest;
    let n = 32 * es.len();
    lemma_flatten_len(es);
    lemma_u16_bytes_read(n as u16, s, 0);
    assert(s.subrange(2, 2 + n as int) =~= flatten(es));
    assert(s.subrange(2 + n as int, 2 + n as int + 64) =~= m.proof);
    lemma_chunks_flatten(es);
    assert(n % 32 == 0);
}

/// No strict prefix of the encoding of a request decodes.
pub proof fn lemma_request_truncated(m: RequestModel, k: int)
    requires
        request_fits(m),
        0 <= k < request_bytes(m).len(),
    ensures
        parse_request(request_bytes(m).take(k)) is None,
{
    let s = request_bytes(m).take(k);
    lemma_flatten_len(m.elements);
    if k >= 5 {
        lemma_u16_bytes_read((32 * m.elements.len()) as u16, s, 3);
    }
}

/// No strict prefix of the encoding of a response decodes.
pub proof fn lemma_response_truncated(m: ResponseModel, k: int)
    requires
        response_fits(m),
        0 <= k < response_bytes(m).len(),
    ensures
        parse_response(response_bytes(m).take(k)) is None,
{
    let s = response_bytes(m).take(k);
    lemma_flatten_len(m.elements);
    if k >= 2 {
        lemma_u16_bytes_read((32 * m.elements.len()) as u16, s, 0);
    }
}

pub(crate) fn push_u16(out: &mut Vec<u8>, v: u16)
    ensures
        final(out)@ == old(out)@ + u16_bytes(v),
{
    out.push((v / 256) as u8);
    out.push((v % 256) as u8);
    assert(final(out)@ =~= old(out)@ + u16_bytes(v));
}

pub(crate) fn get_u16(bytes: &[u8], i: usize) -> (r: u16)
    requires
        i + 2 <= bytes@.len(),
    ensures
        r == read_u16(bytes@, i as int),
{
    (bytes[i] as u16) * 256 + (bytes[i + 1] as u16)
}

pub(crate) fn get_array32(bytes: &[u8], off: usize) -> (r: [u8; 32])
    requires
        off + 32 <= bytes@.len(),
    ensures
        r@ == bytes@.subrange(off as int, off + 32),
{
    let len = bytes.len();
    let mut a = [0u8; 32];
    let mut k: usize = 0;
    while k < 32
        invariant
            off + 32 <= bytes@.len(),
            len == bytes@.len(),
            k <= 32,
            a@.len() == 32,
            forall|j: int| 0 <= j < k ==> a@[j] == bytes@[off + j],
        decreases 32 - k,
    {
        a[k] = bytes[off + k];
        k += 1;
    }
    assert(a@ =~= bytes@.subrange(off as int, off + 32));
    a
}

fn get_array64(bytes: &[u8], off: usize) -> (r: [u8; 64])
    requires
        off + 64 <= bytes@.len(),
    ensures
        r@ == bytes@.subrange(off as int, off + 64),
{
    let len = bytes.len();
    let mut a = [0u8; 64];
    let mut k: usize = 0;
    while k < 64
        invariant
            off + 64 <= bytes@.len(),
            len == bytes@.len(),
            k <= 64,
            a@.len() == 64,
            forall|j: int| 0 <= j < k ==> a@[j] == bytes@[off + j],
        decreases 64 - k,
    {
        a[k] = bytes[off + k];
        k += 1;
    }
    assert(a@ =~= bytes@.subrange(off as int, off + 64));
    a
}

/// Reads a 16-bit byte length and the 32-byte elements it announces,
/// starting at `off`; gives the elements and where they end.
fn get_element_vec(bytes: &[u8], off: usize) -> (r: Option<(Vec<[u8; 32]>, usize)>)
    requires
        off + 2 <= bytes@.len(),
    ensures
        ({
            let n = read_u16(bytes@, off as int) as int;
            match r {
                Some((es, end)) => n % 32 == 0 && end == off + 2 + n && end <= bytes@.len()
                    && es@.map_values(|a: [u8; 32]| a@) == chunks(
                    bytes@.subrange(off + 2, off + 2 + n),
                ),
                None => n % 32 != 0 || bytes@.len() < off + 2 + n,
            }
        }),
{
    let len = bytes.len();
    let n = get_u16(bytes, off) as usize;
    if n % 32 != 0 || len - (off + 2) < n {
        return None;
    }
    let start = off + 2;
    let count = n / 32;
    let ghost body = bytes@.subrange(start as int, start + n);
    let mut es: Vec<[u8; 32]> = Vec::new();
    let mut i: usize = 0;
    while i < count
        invariant
            start + n <= bytes@.len(),
            len == bytes@.len(),
            count == n / 32,
            n % 32 == 0,
            i <= count,
            body == bytes@.subrange(start as int, start + n),
            es@.len() == i,
            forall|j: int| 0 <= j < i ==> (#[trigger] es@[j])@ == body.subrange(32 * j, 32 * j + 32),
        decreases count - i,
    {
        proof {
            assert(32 * i + 32 <= n) by (nonlinear_arith)
                requires
                    i < count,
                    count == n / 32,
                    n % 32 == 0,
            ;
        }
        let a = get_array32(bytes, start + 32 * i);
        proof {
            assert(a@ =~= body.subrange(32 * i, 32 * i + 32));
        }
        es.push(a);
        i += 1;
    }
    assert(es@.map_values(|a: [u8; 32]| a@) =~= chunks(body));
    Some((es, start + n))
}

pub proof fn lemma_blinded_len(v: Seq<BlindedElement>)
    ensures
        all_len(blinded_view(v), 32),
        blinded_view(v).len() == v.len(),
{
    assert forall|i: int| 0 <= i < blinded_view(v).len() implies (#[trigger] blinded_view(
        v,
    )[i]).len() == 32 by {
        assert(blinded_view(v)[i] == v[i].blinded_element@);
    }
}

pub proof fn lemma_evaluated_len(v: Seq<EvaluatedElement>)
    ensures
        all_len(evaluated_view(v), 32),
        evaluated_view(v).len() == v.len(),
{
    assert forall|i: int| 0 <= i < evaluated_view(v).len() implies (#[trigger] evaluated_view(
        v,
    )[i]).len() == 32 by {
        assert(evaluated_view(v)[i] == v[i].evaluated_element@);
    }
}

fn put_blinded(out: &mut Vec<u8>, es: &Vec<BlindedElement>)
    ensures
        final(out)@ == old(out)@ + flatten(blinded_view(es@)),
{
    let ghost vs = blinded_view(es@);
    let mut i: usize = 0;
    while i < es.len()
        invariant
            i <= es@.len(),
            vs == blinded_view(es@),
            out@ == old(out)@ + flatten(vs.take(i as int)),
        decreases es@.len() - i,
    {
        out.extend_from_slice(&es[i].blinded_element);
        proof {
            assert(vs.take(i + 1).drop_last() =~= vs.take(i as int));
            assert(out@ =~= old(out)@ + flatten(vs.take(i + 1)));
        }
        i += 1;
    }
    assert(vs.take(es@.len() as int) =~= vs);
}

fn put_evaluated(out: &mut Vec<u8>, es: &Vec<EvaluatedElement>)
    ensures
        final(out)@ == old(out)@ + flatten(evaluated_view(es@)),
{
    let ghost vs = evaluated_view(es@);
    let mut i: usize = 0;
    while i < es.len()
        invariant
            i <= es@.len(),
            vs == evaluated_view(es@),
            out@ == old(out)@ + flatten(vs.take(i as int)),
        decreases es@.len() - i,
    {
        out.extend_from_slice(&es[i].evaluated_element);
        proof {
            assert(vs.take(i + 1).drop_last() =~= vs.take(i as int));
            assert(out@ =~= old(out)@ + flatten(vs.take(i + 1)));
        }
        i += 1;
    }
    assert(vs.take(es@.len() as int) =~= vs);
}

fn wrap_blinded(raw: Vec<[u8; 32]>) -> (r: Vec<BlindedElement>)
    ensures
        blinded_view(r@) == raw@.map_values(|a: [u8; 32]| a@),
{
    let mut r: Vec<BlindedElement> = Vec::new();
    let mut i: usize = 0;
    while i < raw.len()
        invariant
            i <= raw@.len(),
            r@.len() == i,
            forall|j: int| 0 <= j < i ==> (#[trigger] r@[j]).blinded_element == raw@[j],
        decreases raw@.len() - i,
    {
        r.push(BlindedElement { blinded_element: raw[i] });
        i += 1;
    }
    assert(blinded_view(r@) =~= raw@.map_values(|a: [u8; 32]| a@));
    r
}

pub(crate) fn wrap_evaluated(raw: Vec<[u8; 32]>) -> (r: Vec<EvaluatedElement>)
    ensures
        evaluated_view(r@) == raw@.map_values(|a: [u8; 32]| a@),
{
    let mut r: Vec<EvaluatedElement> = Vec::new();
    let mut i: usize = 0;
    while i < raw.len()
        invariant
            i <= raw@.len(),
            r@.len() == i,
            forall|j: int| 0 <= j < i ==> (#[trigger] r@[j]).evaluated_element == raw@[j],
        decreases raw@.len() - i,
    {
        r.push(EvaluatedElement { evaluated_element: raw[i] });
        i += 1;
    }
    assert(evaluated_view(r@) =~= raw@.map_values(|a: [u8; 32]| a@));
    r
}

impl TokenRequest {
    /// The number of blinded elements.
    pub fn nr(&self) -> (r: usize)
        ensures
            r == self.blinded_elements@.len(),
    {
        self.blinded_elements.len()
    }

    /// Length of the encoding.
    pub fn tls_serialized_len(&self) -> (r: usize)
        requires
            5 + 32 * self.blinded_elements@.len() <= usize::MAX,
        ensures
            r == request_bytes(self@).len(),
    {
        proof {
            lemma_blinded_len(self.blinded_elements@);
            lemma_flatten_len(blinded_view(self.blinded_elements@));
        }
        5 + 32 * self.blinded_elements.len()
    }

    /// Appends the encoding to `out`; fails, writing nothing, where the
    /// elements take more bytes than a 16-bit length can announce.
    pub fn tls_serialize(&self, out: &mut Vec<u8>) -> (r: Result<usize, SerializationError>)
        ensures
            match r {
                Ok(n) => request_fits(self@) && final(out)@ == old(out)@ + request_bytes(self@)
                    && n == request_bytes(self@).len(),
                Err(e) => !request_fits(self@) && e == SerializationError::InvalidData
                    && final(out)@ == old(out)@,
            },
    {
        proof {
            lemma_blinded_len(self.blinded_elements@);
            lemma_flatten_len(blinded_view(self.blinded_elements@));
        }
        let count = self.blinded_elements.len();
        if count > MAX_VEC_BYTES / 32 {
            return Err(SerializationError::InvalidData);
        }
        let ghost start = out@;
        push_u16(out, self.token_type.code());
        out.push(self.token_key_id);
        push_u16(out, (32 * count) as u16);
        put_blinded(out, &self.blinded_elements);
        assert(out@ =~= start + request_bytes(self@));
        Ok(5 + 32 * count)
    }

    /// Reads a request from the front of `bytes`; gives it and the number
    /// of bytes it takes.
    pub fn tls_deserialize(bytes: &[u8]) -> (r: Result<(TokenRequest, usize), SerializationError>)
        ensures
            match r {
                Ok((req, n)) => parse_request(bytes@) == Some((req@, n as nat)),
                Err(e) => parse_request(bytes@) is None && e == SerializationError::InvalidData,
            },
    {
        if bytes.len() < 5 {
            return Err(SerializationError::InvalidData);
        }
        let token_type = match TokenType::from_code(get_u16(bytes, 0)) {
            Some(t) => t,
            None => {
                return Err(SerializationError::InvalidData);
            },
        };
        let token_key_id = bytes[2];
        match get_element_vec(bytes, 3) {
            None => Err(SerializationError::InvalidData),
            Some((raw, end)) => {
                let blinded_elements = wrap_blinded(raw);
                let req = TokenRequest { token_type, token_key_id, blinded_elements };
                Ok((req, end))
            },
        }
    }
}

impl TokenResponse {
    /// Length of the encoding.
    pub fn tls_serialized_len(&self) -> (r: usize)
        requires
            66 + 32 * self.evaluated_elements@.len() <= usize::MAX,
        ensures
            r == response_bytes(self@).len(),
    {
        proof {
            lemma_evaluated_len(self.evaluated_elements@);
            lemma_flatten_len(evaluated_view(self.evaluated_elements@));
        }
        66 + 32 * self.evaluated_elements.len()
    }

    /// Appends the encoding to `out`; fails, writing nothing, where the
    /// elements take more bytes than a 16-bit length can announce.
    pub fn tls_serialize(&self, out: &mut Vec<u8>) -> (r: Result<usize, SerializationError>)
        ensures
            match r {
                Ok(n) => response_fits(self@) && final(out)@ == old(out)@ + response_bytes(self@)
                    && n == response_bytes(self@).len(),
                Err(e) => !response_fits(self@) && e == SerializationError::InvalidData
                    && final(out)@ == old(out)@,
            },
    {
        proof {
            lemma_evaluated_len(self.evaluated_elements@);
            lemma_flatten_len(evaluated_view(self.evaluated_elements@));
        }
        let count = self.evaluated_elements.len();
        if count > MAX_VEC_BYTES / 32 {
            return Err(SerializationError::InvalidData);
        }
        let ghost start = out@;
        push_u16(out, (32 * count) as u16);
        put_evaluated(out, &self.evaluated_elements);
        out.extend_from_slice(&self.evaluated_proof);
        assert(out@ =~= start + response_bytes(self@));
        Ok(66 + 32 * count)
    }

    /// Reads a response from the front of `bytes`; gives it and the number
    /// of bytes it takes.
    pub fn tls_deserialize(bytes: &[u8]) -> (r: Result<(TokenResponse, usize), SerializationError>)
        ensures
            match r {
                Ok((resp, n)) => parse_response(bytes@) == Some((resp@, n as nat)),
                Err(e) => parse_response(bytes@) is None && e == SerializationError::InvalidData,
            },
    {
        if bytes.len() < 2 {
            return Err(SerializationError::InvalidData);
        }
        match get_element_vec(bytes, 0) {
            None => Err(SerializationError::InvalidData),
            Some((raw, end)) => {
                if bytes.len() - end < 64 {
                    return Err(SerializationError::InvalidData);
                }
                let evaluated_proof = get_array64(bytes, end);
                let evaluated_elements = wrap_evaluated(raw);
                Ok((TokenResponse { evaluated_elements, evaluated_proof }, end + 64))
            },
        }
    }

    /// Reads a response that takes all of `bytes`, nothing left over.
    pub fn try_from_bytes(bytes: &[u8]) -> (r: Result<TokenResponse, SerializationError>)
        ensures
            match r {
                Ok(resp) => parse_response(bytes@) == Some((resp@, bytes@.len())),
                Err(e) => e == SerializationError::InvalidData && !(exists|m: ResponseModel|
                    parse_response(bytes@) == Some((m, bytes@.len()))),
            },
    {
        match TokenResponse::tls_deserialize(bytes) {
            Ok((resp, n)) => {
                if n == bytes.len() {
                    Ok(resp)
                } else {
                    Err(SerializationError::InvalidData)
                }
            },
            Err(e) => Err(e),
        }
    }
}

} // verus!
