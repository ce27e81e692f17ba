use nodp2p::identity::{create_key, de_key, decode_key_text, key_strings, keypair_from_bytes, keypair_to_bytes, stored_or_new_key, try_de_key};

#[test]
fn created_keys_decode() {
    let (peer, key) = create_key().unwrap();
    let k = de_key(key.clone());
    assert_eq!(k.public().to_peer_id().to_string(), peer);
    assert!(try_de_key(key.clone()).is_some());
    assert!(decode_key_text(&key).is_some());
}

#[test]
fn bad_key_texts_are_refused() {
    assert!(try_de_key("not base64!".to_string()).is_none());
    assert!(try_de_key("aGVsbG8=".to_string()).is_none());
    assert!(decode_key_text("aGVsbG8=").is_none());
}

#[test]
fn key_text_is_standard_base64() {
    let (p, k) = key_strings("id".to_string(), b"hello");
    assert_eq!(p, "id");
    assert_eq!(k, "aGVsbG8=");
    assert_eq!(key_strings(String::new(), &[0xfb, 0xff]).1, "+/8=");
}

#[test]
fn stored_encoding_roundtrips() {
    let k = libp2p::identity::Keypair::generate_ed25519();
    let bytes = keypair_to_bytes(&k).unwrap();
    let back = keypair_from_bytes(&bytes).unwrap();
    assert_eq!(back.public().to_peer_id(), k.public().to_peer_id());
    assert!(keypair_from_bytes(&[1, 2, 3]).is_none());
}

#[test]
fn created_key_and_peer_id_belong_together() {
    let (peer, key) = create_key().unwrap();
    assert!(peer.starts_with("12D3KooW"));
    let back = try_de_key(key).unwrap();
    assert_eq!(back.public().to_peer_id().to_string(), peer);
}

#[test]
fn reloaded_key_has_the_stored_encoding() {
    let k = libp2p::identity::Keypair::generate_ed25519();
    let bytes = keypair_to_bytes(&k).unwrap();
    let back = keypair_from_bytes(&bytes).unwrap();
    assert_eq!(keypair_to_bytes(&back).unwrap(), bytes);
    assert_eq!(back.public(), k.public());
    let again = keypair_from_bytes(&bytes).unwrap();
    assert_eq!(keypair_to_bytes(&again).unwrap(), keypair_to_bytes(&back).unwrap());
}

#[test]
fn stored_key_is_loaded_and_missing_key_is_made() {
    let k = libp2p::identity::Keypair::generate_ed25519();
    let bytes = keypair_to_bytes(&k).unwrap();
    let loaded = stored_or_new_key(Some(&bytes)).unwrap();
    assert_eq!(loaded.public(), k.public());
    assert_eq!(keypair_to_bytes(&loaded).unwrap(), bytes);
    assert!(stored_or_new_key(Some(&[9, 9, 9])).is_none());
    let fresh = stored_or_new_key(None).unwrap();
    assert!(keypair_from_bytes(&keypair_to_bytes(&fresh).unwrap()).is_some());
}

#[test]
fn key_text_decodes_to_the_same_encoding() {
    let (peer, text) = create_key().unwrap();
    let k = de_key(text.clone());
    let bytes = keypair_to_bytes(&k).unwrap();
    assert_eq!(key_strings(peer.clone(), &bytes).1, text);
    assert_eq!(k.public().to_peer_id().to_string(), peer);
}
