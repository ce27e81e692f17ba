//! Node identities: key pairs, their storable encoding and their text form.

use vstd::prelude::*;
use base64::Engine;
use libp2p::identity::{DecodingError, Keypair};

verus! {

/// An identity key pair; the library only carries it.
#[verifier::external_type_specification]
#[verifier::external_body]
pub struct ExKeypair(Keypair);

/// An error from encoding or decoding key material.
#[verifier::external_type_specification]
#[verifier::external_body]
pub struct ExDecodingError(DecodingError);

/// The character of the standard base64 alphabet for the 6-bit value `v`.
pub open spec fn base64_digit(v: int) -> char {
    if v < 26 {
        ('A' as int + v) as char
    } else if v < 52 {
        ('a' as int + v - 26) as char
    } else if v < 62 {
        ('0' as int + v - 52) as char
    } else if v == 62 {
        '+'
    } else {
        '/'
    }
}

/// Standard base64 with padding (RFC 4648, section 4): each group of three
/// bytes becomes four characters; a final group of one or two bytes is
/// padded with `=`.
pub open spec fn base64_standard(b: Seq<u8>) -> Seq<char>
    decreases b.len(),
{
    if b.len() == 0 {
        Seq::empty()
    } else if b.len() == 1 {
        seq![base64_digit(b[0] as int / 4), base64_digit((b[0] % 4) * 16), '=', '=']
    } else if b.len() == 2 {
        seq![
            base64_digit(b[0] as int / 4),
            base64_digit((b[0] % 4) * 16 + b[1] / 16),
            base64_digit((b[1] % 16) * 4),
            '=',
        ]
    } else {
        seq![
            base64_digit(b[0] as int / 4),
            base64_digit((b[0] % 4) * 16 + b[1] / 16),
            base64_digit((b[1] % 16) * 4 + b[2] / 64),
            base64_digit(b[2] as int % 64),
        ] + base64_standard(b.subrange(3, b.len() as int))
    }
}

/// What standard base64 decoding with padding makes of `text`. The engine
/// requires canonical padding and zero trailing bits, so it accepts exactly
/// the texts that `base64_standard` gives, and gives back the bytes encoded.
pub open spec fn base64_decoded(text: Seq<char>) -> Option<Seq<u8>> {
    if exists|b: Seq<u8>| base64_standard(b) == text {
        Some(choose|b: Seq<u8>| base64_standard(b) == text)
    } else {
        None
    }
}

proof fn lemma_group(x0: u8, x1: u8, x2: u8, y0: u8, y1: u8, y2: u8)
    requires
        x0 as int / 4 == y0 as int / 4,
        (x0 as int % 4) * 16 + x1 as int / 16 == (y0 as int % 4) * 16 + y1 as int / 16,
        (x1 as int % 16) * 4 + x2 as int / 64 == (y1 as int % 16) * 4 + y2 as int / 64,
        x2 as int % 64 == y2 as int % 64,
    ensures
        x0 == y0,
        x1 == y1,
        x2 == y2,
{
    assert(x0 == y0 && x1 == y1 && x2 == y2) by (nonlinear_arith)
        requires
            x0 as int / 4 == y0 as int / 4,
            (x0 as int % 4) * 16 + x1 as int / 16 == (y0 as int % 4) * 16 + y1 as int / 16,
            (x1 as int % 16) * 4 + x2 as int / 64 == (y1 as int % 16) * 4 + y2 as int / 64,
            x2 as int % 64 == y2 as int % 64,
            0 <= x0 < 256,
            0 <= x1 < 256,
            0 <= x2 < 256,
            0 <= y0 < 256,
            0 <= y1 < 256,
            0 <= y2 < 256,
    ;
}

proof fn lemma_digit(v: int, w: int)
    requires
        0 <= v < 64,
        0 <= w < 64,
    ensures
        base64_digit(v) != '=',
        base64_digit(v) == base64_digit(w) ==> v == w,
{
}

/// Standard base64 never gives one text for two byte strings.
pub proof fn lemma_base64_injective(a: Seq<u8>, b: Seq<u8>)
    requires
        base64_standard(a) == base64_standard(b),
    ensures
        a == b,
    decreases a.len(),
{
    let ea = base64_standard(a);
    let eb = base64_standard(b);
    if a.len() == 0 || b.len() == 0 {
        if a.len() != 0 {
            assert(ea.len() >= 4);
        }
        if b.len() != 0 {
            assert(eb.len() >= 4);
        }
        assert(a =~= b);
        return;
    }
    assert(ea[0] == eb[0] && ea[1] == eb[1] && ea[2] == eb[2] && ea[3] == eb[3]);
    let a0 = a[0] as int;
    let b0 = b[0] as int;
    lemma_digit(a0 / 4, b0 / 4);
    if a.len() == 1 || b.len() == 1 {
        if a.len() == 1 && b.len() >= 2 {
            lemma_digit((b[1] as int % 16) * 4 + (if b.len() >= 3 { b[2] as int / 64 } else { 0 }), 0);
            assert(false);
        }
        if b.len() == 1 && a.len() >= 2 {
            lemma_digit((a[1] as int % 16) * 4 + (if a.len() >= 3 { a[2] as int / 64 } else { 0 }), 0);
            assert(false);
        }
        lemma_digit((a0 % 4) * 16, (b0 % 4) * 16);
        assert(a0 == b0) by (nonlinear_arith)
            requires
                a0 / 4 == b0 / 4,
                (a0 % 4) * 16 == (b0 % 4) * 16,
        ;
        assert(a =~= b);
        return;
    }
    lemma_digit((a0 % 4) * 16 + a[1] as int / 16, (b0 % 4) * 16 + b[1] as int / 16);
    if a.len() == 2 || b.len() == 2 {
        if a.len() == 2 && b.len() >= 3 {
            lemma_digit(b[2] as int % 64, 0);
            assert(false);
        }
        if b.len() == 2 && a.len() >= 3 {
            lemma_digit(a[2] as int % 64, 0);
            assert(false);
        }
        lemma_digit((a[1] as int % 16) * 4, (b[1] as int % 16) * 4);
        lemma_group(a[0], a[1], 0, b[0], b[1], 0);
        assert(a =~= b);
        return;
    }
    lemma_digit((a[1] as int % 16) * 4 + a[2] as int / 64, (b[1] as int % 16) * 4 + b[2] as int / 64);
    lemma_digit(a[2] as int % 64, b[2] as int % 64);
    lemma_group(a[0], a[1], a[2], b[0], b[1], b[2]);
    let ra = a.subrange(3, a.len() as int);
    let rb = b.subrange(3, b.len() as int);
    assert(base64_standard(ra) =~= ea.subrange(4, ea.len() as int));
    assert(base64_standard(rb) =~= eb.subrange(4, eb.len() as int));
    lemma_base64_injective(ra, rb);
    assert(a =~= seq![a[0], a[1], a[2]] + ra);
    assert(b =~= seq![b[0], b[1], b[2]] + rb);
}

/// Decoding the standard base64 of bytes gives those bytes back.
pub proof fn lemma_base64_roundtrip(bytes: Seq<u8>)
    ensures
        base64_decoded(base64_standard(bytes)) == Some(bytes),
{
    let t = base64_standard(bytes);
    assert(base64_standard(bytes) == t);
    let c = choose|b: Seq<u8>| base64_standard(b) == t;
    lemma_base64_injective(c, bytes);
}

/// Whether `Keypair::from_protobuf_encoding` accepts `bytes`.
pub uninterp spec fn keypair_decodes(bytes: Seq<u8>) -> bool;

/// What `key.to_protobuf_encoding()` gives: the key's type and its key
/// bytes in protobuf form.
pub uninterp spec fn key_encoding(key: Keypair) -> Seq<u8>;

/// The encoding (`to_protobuf_encoding`) of the key pair that
/// `Keypair::from_protobuf_encoding` makes of `bytes`.
pub uninterp spec fn reencoded(bytes: Seq<u8>) -> Seq<u8>;

/// What `key.public().to_peer_id().to_string()` gives: the base-58 text of
/// the key's peer identity.
pub uninterp spec fn key_peer_id_text(key: Keypair) -> Seq<char>;

/// The base-58 peer identity text of the key pair that the key-pair
/// encoding `bytes` holds.
pub uninterp spec fn encoding_peer_id_text(bytes: Seq<u8>) -> Seq<char>;

/// `bytes` is the stored form of `key`: its encoding, which decodes again,
/// is re-encoded unchanged, and holds the key's peer identity.
pub open spec fn is_encoding_of(bytes: Seq<u8>, key: Keypair) -> bool {
    &&& bytes == key_encoding(key)
    &&& keypair_decodes(bytes)
    &&& reencoded(bytes) == bytes
    &&& encoding_peer_id_text(bytes) == key_peer_id_text(key)
}

/// `key` is the key pair that the encoding `bytes` holds: the bytes decode,
/// and to it, so that it has their re-encoding and their peer identity.
pub open spec fn is_decoding_of(key: Keypair, bytes: Seq<u8>) -> bool {
    &&& keypair_decodes(bytes)
    &&& key_encoding(key) == reencoded(bytes)
    &&& key_peer_id_text(key) == encoding_peer_id_text(bytes)
}

/// `key` is the key pair that the key text `text` holds: the text is
/// base64 of an encoding, and `key` is what that encoding decodes to.
pub open spec fn is_key_of_text(key: Keypair, text: Seq<char>) -> bool {
    base64_decoded(text) matches Some(b) && is_decoding_of(key, b)
}

/// Calls `Keypair::generate_ed25519`; the key is random, so nothing is
/// stated of it.
#[verifier::external_body]
fn generate_ed25519() -> Keypair {
    Keypair::generate_ed25519()
}

/// Calls `Keypair::to_protobuf_encoding`. In this build libp2p-identity has
/// only its `ed25519` key type (its `rsa`, `secp256k1` and `ecdsa` features
/// are off, so no key of another type can be made or decoded), and for an
/// Ed25519 key the function always returns `Ok`: the only error it has is for
/// RSA keys. The bytes are the key's encoding. Decoding them checks the
/// public half against the secret half and keeps both, so they decode to a
/// key with the same peer identity whose encoding is these bytes again.
#[verifier::external_body]
fn keypair_to_protobuf(key: &Keypair) -> (r: Result<Vec<u8>, DecodingError>)
    ensures
        r is Ok,
        r matches Ok(b) ==> b@ == key_encoding(*key),
        r matches Ok(b) ==> keypair_decodes(b@),
        r matches Ok(b) ==> reencoded(b@) == b@,
        r matches Ok(b) ==> encoding_peer_id_text(b@) == key_peer_id_text(*key),
{
    key.to_protobuf_encoding()
}

/// Calls `Keypair::from_protobuf_encoding`; it succeeds exactly where
/// `keypair_decodes` holds, and the key it gives is the one the bytes hold:
/// its encoding is their re-encoding and its peer identity theirs.
#[verifier::external_body]
fn keypair_from_protobuf(bytes: &[u8]) -> (r: Result<Keypair, DecodingError>)
    ensures
        r is Ok <==> keypair_decodes(bytes@),
        r matches Ok(k) ==> key_encoding(k) == reencoded(bytes@),
        r matches Ok(k) ==> key_peer_id_text(k) == encoding_peer_id_text(bytes@),
{
    Keypair::from_protobuf_encoding(bytes)
}

/// Calls `key.public().to_peer_id().to_string()`: the base-58 text of the
/// key's peer identity, named `key_peer_id_text`.
#[verifier::external_body]
fn keypair_peer_id_text(key: &Keypair) -> (r: String)
    ensures
        r@ == key_peer_id_text(*key),
{
    key.public().to_peer_id().to_string()
}

/// Calls `DecodingError`'s `to_string`; its text is not stated.
#[verifier::external_body]
fn decoding_error_text(e: &DecodingError) -> String {
    e.to_string()
}

/// Calls `base64::engine::general_purpose::STANDARD.encode`: the standard
/// padded encoding.
#[verifier::external_body]
fn base64_encode(bytes: &[u8]) -> (r: String)
    ensures
        r@ == base64_standard(bytes@),
{
    base64::engine::general_purpose::STANDARD.encode(bytes)
}

/// Calls `base64::engine::general_purpose::STANDARD.decode`, keeping the
/// bytes or dropping the error. With canonical padding required and
/// trailing bits refused (the engine's `PAD` configuration), it succeeds
/// exactly on the texts that standard base64 gives, with the bytes encoded.
#[verifier::external_body]
fn base64_decode(text: &str) -> (r: Option<Vec<u8>>)
    ensures
        match r {
            Some(b) => base64_decoded(text@) == Some(b@),
            None => base64_decoded(text@) is None,
        },
{
    base64::engine::general_purpose::STANDARD.decode(text).ok()
}

/// Whether `text` is a key that `de_key` accepts: valid base64 of a
/// key-pair encoding.
pub open spec fn key_text_accepted(text: Seq<char>) -> bool {
    base64_decoded(text) matches Some(b) && keypair_decodes(b)
}

/// The text form of a key: its peer identity as given, and its encoding
/// in standard base64.
pub fn key_strings(peer_id: String, encoding: &[u8]) -> (r: (String, String))
    ensures
        r.0@ == peer_id@,
        r.1@ == base64_standard(encoding@),
        base64_decoded(r.1@) == Some(encoding@),
{
    proof {
        lemma_base64_roundtrip(encoding@);
    }
    (peer_id, base64_encode(encoding))
}

/// Makes a new Ed25519 key and returns its peer identity in base-58 and its
/// encoding in base64; encoding an Ed25519 key does not fail. Every key text
/// it returns is one `de_key` accepts, and decodes to the key whose peer
/// identity it returns beside it.
pub fn create_key() -> (r: Result<(String, String), String>)
    ensures
        r is Ok,
        r matches Ok((p, k)) ==> key_text_accepted(k@),
        r matches Ok((p, k)) ==> exists|b: Seq<u8>|
            k@ == base64_standard(b) && keypair_decodes(b) && reencoded(b) == b && p@
                == encoding_peer_id_text(b),
{
    let key = generate_ed25519();
    let peer_id = keypair_peer_id_text(&key);
    match keypair_to_protobuf(&key) {
        Ok(bytes) => {
            let r = key_strings(peer_id, bytes.as_slice());
            assert(r.1@ == base64_standard(bytes@) && keypair_decodes(bytes@) && reencoded(bytes@)
                == bytes@ && r.0@ == encoding_peer_id_text(bytes@));
            Ok(r)
        },
        Err(e) => Err(decoding_error_text(&e)),
    }
}

/// The key encoding held in a key text, where the text is accepted.
pub fn decode_key_text(key_base64: &str) -> (r: Option<Vec<u8>>)
    ensures
        r is Some <==> key_text_accepted(key_base64@),
        r matches Some(b) ==> base64_decoded(key_base64@) == Some(b@),
{
    match base64_decode(key_base64) {
        Some(bytes) => {
            match keypair_from_protobuf(bytes.as_slice()) {
                Ok(_) => Some(bytes),
                Err(_) => None,
            }
        },
        None => None,
    }
}

/// Decodes a key text into a key pair. The text must be accepted (see
/// `try_de_key` for a caller that cannot know). The key is the one the
/// decoded encoding holds.
pub fn de_key(key_base64: String) -> (r: Keypair)
    requires
        key_text_accepted(key_base64@),
    ensures
        is_key_of_text(r, key_base64@),
{
    let bytes = base64_decode(key_base64.as_str()).unwrap();
    keypair_from_protobuf(bytes.as_slice()).unwrap()
}

/// Decodes a key text into a key pair, or `None` where it is not valid
/// base64 of a key-pair encoding.
pub fn try_de_key(key_base64: String) -> (r: Option<Keypair>)
    ensures
        r is Some <==> key_text_accepted(key_base64@),
        r matches Some(k) ==> is_key_of_text(k, key_base64@),
{
    if decode_key_text(key_base64.as_str()).is_some() {
        Some(de_key(key_base64))
    } else {
        None
    }
}

/// Decodes a stored key-pair encoding, or `None` where it is not one; the
/// key is the one the bytes hold.
pub fn keypair_from_bytes(bytes: &[u8]) -> (r: Option<Keypair>)
    ensures
        r is Some <==> keypair_decodes(bytes@),
        r matches Some(k) ==> is_decoding_of(k, bytes@),
{
    match keypair_from_protobuf(bytes) {
        Ok(k) => Some(k),
        Err(_) => None,
    }
}

/// Encodes a key pair for storage; this does not fail for the Ed25519 keys
/// the library handles, and what it gives decodes to the key again.
pub fn keypair_to_bytes(key: &Keypair) -> (r: Result<Vec<u8>, String>)
    ensures
        r is Ok,
        r matches Ok(b) ==> is_encoding_of(b@, *key),
{
    match keypair_to_protobuf(key) {
        Ok(b) => Ok(b),
        Err(e) => Err(decoding_error_text(&e)),
    }
}

/// The node's key pair from what its key file holds: with stored bytes, the
/// key they hold (`None` where they are not a key-pair encoding); with no
/// stored key, a new Ed25519 key.
pub fn stored_or_new_key(stored: Option<&[u8]>) -> (r: Option<Keypair>)
    ensures
        match stored {
            Some(b) => (r is Some <==> keypair_decodes(b@)) && (r matches Some(k) ==> is_decoding_of(k, b@)),
            None => r is Some,
        },
{
    match stored {
        Some(b) => keypair_from_bytes(b),
        None => Some(generate_ed25519()),
    }
}

/// A key stored and loaded again is the same key: where `keypair_to_bytes`
/// gives `bytes` for `stored`, and `keypair_from_bytes` or
/// `stored_or_new_key` gives `loaded` for `bytes`, the loaded key has the
/// stored key's encoding, which is `bytes`, and its peer identity.
pub proof fn law_stored_key_reloads(stored: Keypair, bytes: Seq<u8>, loaded: Keypair)
    requires
        is_encoding_of(bytes, stored),
        is_decoding_of(loaded, bytes),
    ensures
        key_encoding(loaded) == key_encoding(stored),
        key_encoding(loaded) == bytes,
        key_peer_id_text(loaded) == key_peer_id_text(stored),
{
}

/// A stored identity persists: two loads of the same stored bytes give keys
/// with one encoding and one peer identity.
pub proof fn law_identity_persists(bytes: Seq<u8>, first: Keypair, second: Keypair)
    requires
        is_decoding_of(first, bytes),
        is_decoding_of(second, bytes),
    ensures
        key_encoding(first) == key_encoding(second),
        key_peer_id_text(first) == key_peer_id_text(second),
{
}

/// A key text made of a key decodes to that key: where `bytes` is the
/// encoding of `key` and `de_key` (or `try_de_key`) gives `loaded` for the
/// standard base64 of `bytes`, `loaded` has the encoding and the peer
/// identity of `key`.
pub proof fn law_key_text_reloads(key: Keypair, bytes: Seq<u8>, loaded: Keypair)
    requires
        is_encoding_of(bytes, key),
        is_key_of_text(loaded, base64_standard(bytes)),
    ensures
        key_encoding(loaded) == key_encoding(key),
        key_peer_id_text(loaded) == key_peer_id_text(key),
{
    lemma_base64_roundtrip(bytes);
}

/// A created key text decodes to the key of the peer identity returned with
/// it: where `create_key` gives `(peer, text)` for an encoding `bytes`, the
/// key that `de_key` makes of `text` has the peer identity `peer` and the
/// encoding `bytes`.
pub proof fn law_created_key_matches_peer(peer: Seq<char>, text: Seq<char>, bytes: Seq<u8>, loaded: Keypair)
    requires
        text == base64_standard(bytes),
        reencoded(bytes) == bytes,
        peer == encoding_peer_id_text(bytes),
        is_key_of_text(loaded, text),
    ensures
        key_peer_id_text(loaded) == peer,
        key_encoding(loaded) == bytes,
{
    lemma_base64_roundtrip(bytes);
}

} // verus!
