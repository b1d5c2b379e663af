use crate::text::bytes_eq;
use vstd::prelude::*;
use vstd::utf8::encode_utf8;

verus! {

// ===========================================================================
// The authentication primitives: the HMAC-SHA256 tag used by the modern
// forwarding handshake, and the offline-mode identity derived from a
// username.
// ===========================================================================

/// The HMAC-SHA256 tag of a message under a key.
pub uninterp spec fn hmac_sha256_of(key: Seq<u8>, data: Seq<u8>) -> Seq<u8>;

/// Relies on hmac's `Hmac<Sha256>`: the tag depends on the key and the
/// message alone, and is 32 bytes long. Any key length is accepted.
#[verifier::external_body]
fn hmac_sha256(key: &[u8], data: &[u8]) -> (r: Vec<u8>)
    ensures
        r@ == hmac_sha256_of(key@, data@),
        r@.len() == 32,
{
    let mut mac = <hmac::Hmac<sha2::Sha256> as hmac::KeyInit>::new_from_slice(key).expect(
        "any key length is accepted",
    );
    hmac::Mac::update(&mut mac, data);
    hmac::Mac::finalize(mac).into_bytes().to_vec()
}

/// Accepts exactly the signatures that equal the tag of the payload under
/// the key.
pub fn check_signature(key: &[u8], sig: &[u8], payload: &[u8]) -> (r: bool)
    ensures
        r == (sig@ == hmac_sha256_of(key@, payload@)),
{
    let mac = hmac_sha256(key, payload);
    bytes_eq(mac.as_slice(), sig)
}

/// The version-3 UUID of a name under the OID namespace.
pub uninterp spec fn offline_uuid_of(name: Seq<u8>) -> u128;

/// Relies on uuid's `Uuid::new_v3`: a version-3 UUID is a digest of the
/// namespace and the name bytes alone.
#[verifier::external_body]
fn uuid_v3_oid(name: &[u8]) -> (r: u128)
    ensures
        r == offline_uuid_of(name@),
{
    uuid::Uuid::new_v3(&uuid::Uuid::NAMESPACE_OID, name).as_u128()
}

/// The offline-mode identity of a player: a v3 UUID over the username's
/// UTF-8 bytes.
pub fn offline_mode_uuid(username: &str) -> (r: u128)
    ensures
        r == offline_uuid_of(encode_utf8(username@)),
{
    uuid_v3_oid(username.as_bytes())
}

// ===========================================================================
// What should hold of forwarding verification: the genuine tag in front of
// a payload is accepted, and any other 32-byte signature is rejected.
// ===========================================================================

/// A forwarding answer is accepted when its first 32 bytes are the tag of
/// the rest under the configured key.
pub open spec fn forwarding_data_accepted(key: Seq<u8>, data: Seq<u8>) -> bool {
    data.len() >= 32 && data.take(32) == hmac_sha256_of(key, data.skip(32))
}

/// Law: prefixing a payload with its genuine tag is accepted; prefixing it
/// with any other 32-byte signature is rejected.
pub proof fn lemma_forwarding_acceptance(
    key: Seq<u8>,
    payload: Seq<u8>,
    sig: Seq<u8>,
    forged: Seq<u8>,
)
    requires
        sig == hmac_sha256_of(key, payload),
        sig.len() == 32,
        forged.len() == 32,
        forged != sig,
    ensures
        forwarding_data_accepted(key, sig + payload),
        !forwarding_data_accepted(key, forged + payload),
{
    assert((sig + payload).take(32) =~= sig);
    assert((sig + payload).skip(32) =~= payload);
    assert((forged + payload).take(32) =~= forged);
    assert((forged + payload).skip(32) =~= payload);
}

} // verus!
