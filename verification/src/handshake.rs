//! The WebSocket opening handshake: computing the `Sec-WebSocket-Accept`
//! value that answers a client's `Sec-WebSocket-Key`.
//!
//! The accept value is the base64 encoding of the SHA-1 digest of the client
//! key with the fixed protocol GUID appended.  Hashing and encoding are done
//! by outside crates; each is named by an uninterpreted function, and the
//! computation around them is verified against those names.

use vstd::prelude::*;

use rustc_serialize::base64::ToBase64;
use sha1::Digest;

verus! {

/// The SHA-1 digest of a byte sequence, as computed by the `sha1` crate.  The
/// digest is a function of the input bytes alone; its 160 bits are not spelled
/// out here.
pub uninterp spec fn sha1_of(data: Seq<u8>) -> Seq<u8>;

/// The padded standard base64 encoding of a byte sequence, as computed by
/// `rustc_serialize`.  A function of the input bytes alone.
pub uninterp spec fn base64_of(data: Seq<u8>) -> Seq<u8>;

/// The fixed GUID `258EAFA5-E914-47DA-95CA-C5AB0DC85B11` that the protocol
/// appends to the client key before hashing, as ASCII bytes.
pub open spec fn ws_guid() -> Seq<u8> {
    seq![
        50u8, 53, 56, 69, 65, 70, 65, 53, 45, 69, 57, 49, 52, 45, 52, 55, 68, 65, 45, 57, 53, 67,
        65, 45, 67, 53, 65, 66, 48, 68, 67, 56, 53, 66, 49, 49,
    ]
}

/// What the handshake owes the client for a given key.
pub open spec fn accept_of(key: Seq<u8>) -> Seq<u8> {
    base64_of(sha1_of(key + ws_guid()))
}

/// Relies on `sha1::Sha1` (through `digest::Digest::digest`): the SHA-1
/// digest of the input, 20 bytes, a function of the input bytes alone.
#[verifier::external_body]
fn sha1_digest(data: &Vec<u8>) -> (r: Vec<u8>)
    ensures
        r@ == sha1_of(data@),
        r@.len() == 20,
{
    sha1::Sha1::digest(data.as_slice()).to_vec()
}

/// Relies on `rustc_serialize::base64::ToBase64` with the `STANDARD`
/// configuration: padded RFC 4648 base64 without line wrapping, a function of
/// the input bytes alone, four output bytes for every started group of three
/// input bytes.
#[verifier::external_body]
fn base64_bytes(data: &Vec<u8>) -> (r: Vec<u8>)
    ensures
        r@ == base64_of(data@),
        r@.len() == 4 * ((data@.len() + 2) / 3),
{
    data.as_slice().to_base64(rustc_serialize::base64::STANDARD).into_bytes()
}

/// The protocol GUID as a byte vector.
fn guid_vec() -> (r: Vec<u8>)
    ensures
        r@ == ws_guid(),
{
    let r: Vec<u8> = vec![
        50u8, 53, 56, 69, 65, 70, 65, 53, 45, 69, 57, 49, 52, 45, 52, 55, 68, 65, 45, 57, 53, 67,
        65, 45, 67, 53, 65, 66, 48, 68, 67, 56, 53, 66, 49, 49,
    ];
    proof {
        assert(r@ =~= ws_guid());
    }
    r
}

/// Compute the `Sec-WebSocket-Accept` value for a client key: base64 of the
/// SHA-1 digest of the key with the protocol GUID appended.  Always 28 bytes.
pub fn compute_accept(key: &Vec<u8>) -> (r: Vec<u8>)
    ensures
        r@ == accept_of(key@),
        r@.len() == 28,
{
    let mut buf: Vec<u8> = Vec::new();
    let n = key.len();
    let mut i: usize = 0;
    while i < n
        invariant
            i <= n,
            n == key@.len(),
            buf@ == key@.take(i as int),
        decreases n - i,
    {
        buf.push(key[i]);
        proof {
            assert(buf@ =~= key@.take(i + 1));
        }
        i = i + 1;
    }
    let mut g = guid_vec();
    buf.append(&mut g);
    proof {
        assert(key@.take(n as int) =~= key@);
    }
    let h = sha1_digest(&buf);
    base64_bytes(&h)
}

} // verus!
