use vstd::prelude::*;
use sha1::{Digest, Sha1};
use crate::hexrep::{hex_bytes_of, hex_encode, lemma_hex_bytes_shape};
use crate::strconv::{ascii_chars_of, ascii_to_string};

verus! {

/// The SHA-1 digest of a byte string: 20 bytes, a function of the input
/// alone.
pub uninterp spec fn sha1_of(data: Seq<u8>) -> Seq<u8>;

/// The 40 lower-case hex characters naming an object whose wrapped payload
/// is `data`.
pub open spec fn sha1_hex_chars(data: Seq<u8>) -> Seq<char> {
    ascii_chars_of(hex_bytes_of(sha1_of(data)))
}

/// Relies on the `sha1` crate's `Digest` implementation: the digest is a
/// function of the input bytes alone and is 20 bytes long.
#[verifier::external_body]
pub(crate) fn sha1_bytes(data: &[u8]) -> (r: Vec<u8>)
    ensures
        r@ == sha1_of(data@),
        r@.len() == 20,
{
    Sha1::new().chain_update(data).finalize().to_vec()
}

/// The 40-hex-digit SHA-1 of `data`, as text.
pub fn get_hash_from_data(data: &[u8]) -> (r: String)
    ensures
        r@ == sha1_hex_chars(data@),
        r@.len() == 40,
{
    let raw = sha1_bytes(data);
    let hex = hex_encode(&raw);
    proof {
        lemma_hex_bytes_shape(raw@);
    }
    ascii_to_string(hex)
}

/// The 40-hex-digit SHA-1 of `data`, as ASCII bytes.
pub fn hash_hex_bytes(data: &[u8]) -> (r: Vec<u8>)
    ensures
        r@ == hex_bytes_of(sha1_of(data@)),
        r@.len() == 40,
{
    let raw = sha1_bytes(data);
    proof {
        lemma_hex_bytes_shape(raw@);
    }
    hex_encode(&raw)
}

} // verus!
