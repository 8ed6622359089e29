//! The calls into the oblivious-PRF primitive library and the random source.
//! A server key travels as voprf's 64-byte serialization of `VoprfServer`:
//! the secret scalar, then the public element.

use rand::rngs::OsRng;
use rand::RngCore;
use voprf::BlindedElement as Blinded;
use voprf::Ristretto255;
use voprf::VoprfServer;
use vstd::prelude::*;

verus! {

/// The serialized key pair that DeriveKeyPair makes from a seed and a label.
pub uninterp spec fn derived_key(seed: Seq<u8>, info: Seq<u8>) -> Option<Seq<u8>>;

/// Whether 32 bytes encode a group element other than the identity.
pub uninterp spec fn is_group_element(b: Seq<u8>) -> bool;

/// The evaluated element that a key gives for one blinded element.
pub uninterp spec fn blind_evaluation(key: Seq<u8>, blinded: Seq<u8>) -> Seq<u8>;

/// The PRF output that a key gives, without blinding, for an input.
pub uninterp spec fn direct_evaluation(key: Seq<u8>, input: Seq<u8>) -> Option<Seq<u8>>;

/// Relies on rand's `OsRng::fill_bytes`: 32 bytes from the operating
/// system's source; nothing is known of them.
#[verifier::external_body]
pub(crate) fn random_seed() -> (r: [u8; 32]) {
    let mut seed = [0u8; 32];
    OsRng.fill_bytes(&mut seed);
    seed
}

/// Relies on voprf's `VoprfServer::new_from_seed` (DeriveKeyPair): the key
/// pair depends on the seed and the label alone; it is handed back as
/// `VoprfServer::serialize` writes it.
#[verifier::external_body]
pub(crate) fn derive_key(seed: &[u8], info: &[u8]) -> (r: Option<[u8; 64]>)
    ensures
        match r {
            Some(k) => derived_key(seed@, info@) == Some(k@),
            None => derived_key(seed@, info@) is None,
        },
{
    let server = VoprfServer::<Ristretto255>::new_from_seed(seed, info).ok()?;
    <[u8; 64]>::try_from(&server.serialize()[..]).ok()
}

/// Relies on voprf's `BlindedElement::deserialize`: it accepts exactly the
/// encodings of group elements other than the identity.
#[verifier::external_body]
pub(crate) fn check_blinded(b: &[u8; 32]) -> (r: bool)
    ensures
        r == is_group_element(b@),
{
    Blinded::<Ristretto255>::deserialize(b).is_ok()
}

/// Relies on voprf's `VoprfServer::batch_blind_evaluate_prepare` and
/// `batch_blind_evaluate_finish`, which make one evaluated element per
/// blinded element, in order, and one proof for the batch (its randomness
/// from `OsRng`).
#[verifier::external_body]
pub(crate) fn evaluate_batch(key: &[u8; 64], blinded: &Vec<[u8; 32]>) -> (r: Option<(Vec<[u8; 32]>, [u8; 64])>)
    requires
        forall|i: int| 0 <= i < blinded@.len() ==> is_group_element((#[trigger] blinded@[i])@),
    ensures
        r matches Some((es, _)) ==> es@.len() == blinded@.len() && forall|i: int|
            0 <= i < es@.len() ==> (#[trigger] es@[i])@ == blind_evaluation(key@, blinded@[i]@),
{
    let server = VoprfServer::<Ristretto255>::deserialize(key).ok()?;
    let elems = blinded.iter().map(|b| Blinded::deserialize(b)).collect::<Result<Vec<_>, _>>().ok()?;
    let prepared: Vec<_> = server.batch_blind_evaluate_prepare(elems.iter()).collect();
    let done = server.batch_blind_evaluate_finish(&mut OsRng, elems.iter(), &prepared).ok()?;
    let evaluated = done.messages.map(|m| m.serialize().into()).collect();
    Some((evaluated, done.proof.serialize().into()))
}

/// Relies on voprf's `VoprfServer::evaluate`: the PRF output for `input`
/// depends on the key and the input alone.
#[verifier::external_body]
pub(crate) fn evaluate_direct(key: &[u8; 64], input: &[u8]) -> (r: Option<Vec<u8>>)
    ensures
        match r {
            Some(o) => direct_evaluation(key@, input@) == Some(o@),
            None => direct_evaluation(key@, input@) is None,
        },
{
    let server = VoprfServer::<Ristretto255>::deserialize(key).ok()?;
    Some(server.evaluate(input).ok()?.to_vec())
}

} // verus!
