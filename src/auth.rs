//! Comparison of a presented secret against the configured one.

use subtle::ConstantTimeEq;
use vstd::prelude::*;
use vstd::string::StringSliceAdditionalSpecFns;
use vstd::utf8::encode_utf8_decode_utf8;

verus! {

/// Relies on subtle's `ConstantTimeEq` for `[u8]`: it yields a true choice exactly
/// when both slices have the same length and the same bytes, and compares the
/// contents without stopping at the first difference.
#[verifier::external_body]
fn bytes_ct_eq(a: &[u8], b: &[u8]) -> (r: bool)
    ensures
        r == (a@ == b@),
{
    a.ct_eq(b).into()
}

/// Two strings are equal exactly when their UTF-8 encodings are.
proof fn lemma_same_bytes_same_text(a: &str, b: &str)
    ensures
        (a.spec_bytes() == b.spec_bytes()) == (a@ == b@),
{
    broadcast use encode_utf8_decode_utf8;

    if a.spec_bytes() == b.spec_bytes() {
        assert(vstd::utf8::decode_utf8(a.spec_bytes()) == a@);
        assert(vstd::utf8::decode_utf8(b.spec_bytes()) == b@);
    }
}

/// Compares a presented key with the expected one in time that does not depend
/// on where they first differ.
fn verify_key(provided: &str, expected: &str) -> (r: bool)
    ensures
        r == (provided@ == expected@),
{
    let r = bytes_ct_eq(provided.as_bytes(), expected.as_bytes());
    proof {
        lemma_same_bytes_same_text(provided, expected);
    }
    r
}

/// Checks a key typed into the login form.
pub fn verify_user_sent_key(provided: &str, expected: &str) -> (r: bool)
    ensures
        r == (provided@ == expected@),
{
    verify_key(provided, expected)
}

/// Checks the value of the session cookie, if the request carried one.
pub fn verify_cookie_key(cookie: Option<&str>, expected: &str) -> (r: bool)
    ensures
        r == (cookie.is_some() && cookie.unwrap()@ == expected@),
{
    match cookie {
        Some(value) => verify_key(value, expected),
        None => false,
    }
}

} // verus!
