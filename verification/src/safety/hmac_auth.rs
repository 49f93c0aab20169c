//! Message authentication with HMAC-SHA256.
use vstd::prelude::*;

use super::MessageAuthenticator;

verus! {

/// The HMAC-SHA256 tag of `data` under `key`.
pub uninterp spec fn hmac_sha256(key: Seq<u8>, data: Seq<u8>) -> Seq<u8>;

/// Calls `hmac::Mac::finalize` on an HMAC-SHA256 instance that was fed `data` under `key`.
/// The contract names the tag, which depends on key and data alone, and says that it has
/// 32 bytes. Setting up the instance cannot fail: any key length is accepted.
#[verifier::external_body]
fn hmac_finalize(key: &[u8], data: &[u8]) -> (r: Vec<u8>)
    ensures
        r@ == hmac_sha256(key@, data@),
        r@.len() == 32,
{
    let mut mac = <hmac::Hmac<sha2::Sha256> as hmac::Mac>::new_from_slice(key).expect(
        "HMAC-SHA256 accepts any key length",
    );
    hmac::Mac::update(&mut mac, data);
    hmac::Mac::finalize(mac).into_bytes().to_vec()
}

/// Calls `hmac::Mac::verify_slice` on an HMAC-SHA256 instance that was fed `data` under
/// `key`. The contract says that it succeeds exactly on the whole tag, length included.
#[verifier::external_body]
fn hmac_verify_slice(key: &[u8], data: &[u8], tag: &[u8]) -> (r: bool)
    ensures
        r == (tag@ == hmac_sha256(key@, data@)),
{
    let mut mac = <hmac::Hmac<sha2::Sha256> as hmac::Mac>::new_from_slice(key).expect(
        "HMAC-SHA256 accepts any key length",
    );
    hmac::Mac::update(&mut mac, data);
    hmac::Mac::verify_slice(mac, tag).is_ok()
}

/// HMAC-SHA256. A key of any length is accepted; 32 random bytes or more are advisable.
#[derive(Debug, Clone, Copy)]
pub struct HmacSha256Auth;

impl MessageAuthenticator for HmacSha256Auth {
    open spec fn mac(&self, key: Seq<u8>, data: Seq<u8>) -> Seq<u8> {
        hmac_sha256(key, data)
    }

    open spec fn tag_size(&self) -> nat {
        32
    }

    fn sign(&self, key: &[u8], data: &[u8]) -> (r: Vec<u8>) {
        hmac_finalize(key, data)
    }

    fn verify(&self, key: &[u8], data: &[u8], tag: &[u8]) -> (r: bool) {
        hmac_verify_slice(key, data, tag)
    }

    fn tag_len(&self) -> (r: usize) {
        32
    }
}

/// A tag is the HMAC of the whole data under the whole key, and has 32 bytes.
pub proof fn tags_cover_key_and_data(auth: HmacSha256Auth, key: Seq<u8>, data: Seq<u8>)
    ensures
        auth.mac(key, data) == hmac_sha256(key, data),
        auth.tag_size() == 32,
{
}

} // verus!
