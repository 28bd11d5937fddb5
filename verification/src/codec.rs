use vstd::prelude::*;

use base64::Engine;

verus! {

/// What base64's standard-alphabet encoder returns for a byte sequence.
pub uninterp spec fn base64_encoding_of(bytes: Seq<u8>) -> Seq<char>;

/// What base64's standard-alphabet decoder returns for a string: the
/// decoded bytes, or nothing when the string is not valid base64.
pub uninterp spec fn base64_decoding_of(s: Seq<char>) -> Option<Seq<u8>>;

/// Relies on base64's `BASE64_STANDARD.encode`: the encoding is a
/// function of the input bytes alone.
#[verifier::external_body]
pub(crate) fn b64_encode(bytes: &Vec<u8>) -> (r: String)
    ensures
        r@ == base64_encoding_of(bytes@),
{
    base64::prelude::BASE64_STANDARD.encode(bytes)
}

/// Relies on base64's `BASE64_STANDARD.decode`: whether a string decodes,
/// and to which bytes, is a function of its characters alone.
#[verifier::external_body]
pub(crate) fn b64_decode(s: &str) -> (r: Option<Vec<u8>>)
    ensures
        r is Some <==> base64_decoding_of(s@) is Some,
        r is Some ==> r->0@ == base64_decoding_of(s@)->0,
{
    base64::prelude::BASE64_STANDARD.decode(s).ok()
}

/// Relies on std's `FromIterator` for `String`: collects the characters
/// into a string whose view is exactly the input sequence.
#[verifier::external_body]
pub(crate) fn string_from_chars(v: &Vec<char>) -> (s: String)
    ensures
        s@ == v@,
{
    v.iter().collect()
}

} // verus!
