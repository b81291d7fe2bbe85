use media_nft::media_id::compute_media_id;
use media_nft::media_id::hex_byte;

#[test]
fn hex_byte_exact_values() {
    assert_eq!(hex_byte(0x00), "00");
    assert_eq!(hex_byte(0x0f), "0f");
    assert_eq!(hex_byte(0x10), "10");
    assert_eq!(hex_byte(0x1a), "1a");
    assert_eq!(hex_byte(0xab), "ab");
    assert_eq!(hex_byte(0xff), "ff");
}

#[test]
fn media_id_is_deterministic() {
    let a = compute_media_id(2, "https://example.com/one-piece", "One Piece");
    let b = compute_media_id(2, "https://example.com/one-piece", "One Piece");
    assert_eq!(a, b);
    assert_eq!(a.len(), 64);
    assert!(a.chars().all(|c| c.is_ascii_hexdigit() && !c.is_ascii_uppercase()));
}

#[test]
fn media_id_changes_with_any_field() {
    let base = compute_media_id(2, "https://example.com/one-piece", "One Piece");
    let other_kind = compute_media_id(3, "https://example.com/one-piece", "One Piece");
    let other_uri = compute_media_id(2, "https://example.com/two-piece", "One Piece");
    let other_name = compute_media_id(2, "https://example.com/one-piece", "Two Piece");
    assert_ne!(base, other_kind);
    assert_ne!(base, other_uri);
    assert_ne!(base, other_name);
}

#[test]
fn media_id_matches_digest_of_declared_layout() {
    // The byte layout is part of the public contract: kind byte, raw uri
    // bytes, one zero separator, raw name bytes, hashed with 32-byte BLAKE2b
    // and hex-encoded.  Recompute it independently.
    let kind: u8 = 2;
    let uri = "https://example.com/one-piece";
    let name = "One Piece";
    let mut preimage: Vec<u8> = Vec::new();
    preimage.push(kind);
    preimage.extend_from_slice(uri.as_bytes());
    preimage.push(0);
    preimage.extend_from_slice(name.as_bytes());
    let digest = casper_types::Digest::hash(&preimage);
    let mut expected = String::new();
    for b in digest.into_vec() {
        expected.push_str(&format!("{:02x}", b));
    }
    assert_eq!(compute_media_id(kind, uri, name), expected);
}

#[test]
fn media_id_separator_position_matters() {
    // Moving one character across the zero separator changes the identifier.
    let a = compute_media_id(1, "ab", "c");
    let b = compute_media_id(1, "a", "bc");
    assert_ne!(a, b);
}
