//! Turning received bytes into text.

use vstd::prelude::*;
use vstd::utf8::*;
use vstd::string::*;

verus! {

/// What `String::from_utf8_lossy` makes of `bytes`.
pub uninterp spec fn utf8_lossy(bytes: Seq<u8>) -> Seq<char>;

/// The text a peer meant by `bytes`: the decoded characters where the bytes
/// are valid UTF-8, and otherwise the lossy decoding, in which each invalid
/// sequence stands as U+FFFD.
pub open spec fn received_text(bytes: Seq<u8>) -> Seq<char> {
    if valid_utf8(bytes) {
        decode_utf8(bytes)
    } else {
        utf8_lossy(bytes)
    }
}

/// Calls `String::from_utf8_lossy` and takes the owned string. Its
/// documentation states that valid UTF-8 is taken over unchanged, which the
/// second clause says with vstd's model of UTF-8; what it makes of invalid
/// input is left to the name `utf8_lossy`.
#[verifier::external_body]
fn from_utf8_lossy(bytes: &[u8]) -> (s: String)
    ensures
        s@ == utf8_lossy(bytes@),
        valid_utf8(bytes@) ==> s@ == decode_utf8(bytes@),
{
    String::from_utf8_lossy(bytes).into_owned()
}

/// Decodes received bytes into text.
pub fn decode_text(bytes: &[u8]) -> (s: String)
    ensures
        s@ == received_text(bytes@),
{
    from_utf8_lossy(bytes)
}

/// The bytes that carry `s` on the wire: its UTF-8 encoding.
pub fn encode_text(s: &String) -> (b: Vec<u8>)
    ensures
        b@ == encode_utf8(s@),
{
    s.as_str().as_bytes_vec()
}

/// Text sent as its UTF-8 encoding is read back unchanged.
pub proof fn lemma_text_roundtrip(t: Seq<char>)
    ensures
        received_text(encode_utf8(t)) == t,
{
    encode_utf8_valid_utf8(t);
    encode_utf8_decode_utf8(t);
}

} // verus!
