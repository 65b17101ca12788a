//! Base64 image payloads.
//!
//! Callers may hand the pipeline an image as a base64 payload,
//! optionally prefixed with a data-URI header.  This module strips the
//! header and decodes the payload to raw image bytes; turning those
//! bytes into a raster stays with the embedding, next to its other
//! image codecs.

use base64::Engine;
use vstd::prelude::*;

use crate::error::{Exception, CODE_ACQUISITION};

verus! {

/// What base64's standard-alphabet engine makes of a byte sequence:
/// the decoded payload, or nothing for malformed input.
pub uninterp spec fn base64_decoded(s: Seq<u8>) -> Option<Seq<u8>>;

/// The position of the first comma in `s` at or after `i`, or the
/// length when there is none.
pub open spec fn first_comma_from(s: Seq<u8>, i: int) -> int
    decreases s.len() - i,
{
    if i < 0 || i >= s.len() {
        s.len() as int
    } else if s[i] == 44 {
        i
    } else {
        first_comma_from(s, i + 1)
    }
}

/// The payload with an optional data-URI header removed: everything
/// after the first comma, or the whole input when there is no comma.
pub open spec fn payload_body(s: Seq<u8>) -> Seq<u8> {
    let c = first_comma_from(s, 0);
    if c < s.len() {
        s.subrange(c + 1, s.len() as int)
    } else {
        s
    }
}

/// Relies on base64's general-purpose `STANDARD` engine: decoding
/// depends on the input bytes alone, yielding the decoded payload or
/// failing on malformed input.
#[verifier::external_body]
fn base64_decode(input: &Vec<u8>) -> (r: Option<Vec<u8>>)
    ensures
        r is Some <==> base64_decoded(input@) is Some,
        r matches Some(v) ==> Some(v@) == base64_decoded(input@),
{
    match base64::engine::general_purpose::STANDARD.decode(input) {
        Ok(v) => Some(v),
        Err(_) => None,
    }
}

/// Strips an optional data-URI header and decodes the remaining
/// standard base64 payload to raw bytes.
///
/// Succeeds exactly when the stripped payload is well-formed base64;
/// malformed payloads are reported as acquisition failures.
pub fn decode_base64_payload(payload: &Vec<u8>) -> (r: Result<Vec<u8>, Exception>)
    ensures
        r is Ok <==> base64_decoded(payload_body(payload@)) is Some,
        r matches Ok(v) ==> Some(v@) == base64_decoded(payload_body(payload@)),
        r matches Err(e) ==> e.code == CODE_ACQUISITION,
{
    let ghost s = payload@;
    let n = payload.len();
    let mut i: usize = 0;
    while i < n && payload[i] != 44
        invariant
            s == payload@,
            n == s.len(),
            i <= n,
            first_comma_from(s, 0) == first_comma_from(s, i as int),
        decreases n - i,
    {
        i = i + 1;
    }
    proof {
        assert(first_comma_from(s, 0) == if i < n {
            i as int
        } else {
            s.len() as int
        });
    }
    let start: usize = if i < n {
        i + 1
    } else {
        0
    };
    let mut body: Vec<u8> = Vec::new();
    let mut k: usize = start;
    while k < n
        invariant
            s == payload@,
            n == s.len(),
            start <= n,
            start <= k <= n,
            body@ =~= s.subrange(start as int, k as int),
        decreases n - k,
    {
        body.push(payload[k]);
        proof {
            assert(body@ =~= s.subrange(start as int, k + 1));
        }
        k = k + 1;
    }
    proof {
        if i < n {
            assert(body@ =~= payload_body(s));
        } else {
            assert(s.subrange(0, n as int) =~= s);
            assert(body@ =~= payload_body(s));
        }
    }
    match base64_decode(&body) {
        Option::Some(v) => Ok(v),
        Option::None => Err(
            Exception::new(CODE_ACQUISITION, "base64 payload could not be decoded"),
        ),
    }
}

} // verus!
