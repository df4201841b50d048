// Tests of the identifier: digest, textual form, and their round trips.

#[test]
fn test_of() {
    let mut h = chunkstore::hash::Hash::empty();
    assert_eq!(h.is_empty(), true);
    assert_eq!(h.encode(), "00000000000000000000000000000000");

    h = chunkstore::hash::Hash::of(b"abc");
    assert_eq!(h.is_empty(), false);
    assert_eq!(h.encode(), "rmnjb8cjc5tblj21ed4qs821649eduie");

    let h2 = chunkstore::hash::Hash::parse("rmnjb8cjc5tblj21ed4qs821649eduie").unwrap();
    assert_eq!(h2.encode(), h.encode());
}

#[test]
fn digest_is_deterministic() {
    let a = chunkstore::hash::Hash::of(b"some payload");
    let b = chunkstore::hash::Hash::of(b"some payload");
    assert_eq!(a.sum, b.sum);
    let c = chunkstore::hash::Hash::of(b"another payload");
    assert_ne!(a.sum, c.sum);
}

#[test]
fn known_digest_decodes_to_equal_hash() {
    let h = chunkstore::hash::Hash::of(b"abc");
    let parsed = chunkstore::hash::Hash::parse("rmnjb8cjc5tblj21ed4qs821649eduie").unwrap();
    assert_eq!(parsed.sum, h.sum);
}

#[test]
fn decode_of_encode_gives_the_hash_back() {
    let mut sum = [0u8; 20];
    let mut i = 0usize;
    while i < 20 {
        sum[i] = (7 * i + 3) as u8;
        i += 1;
    }
    let h = chunkstore::hash::Hash::new(sum);
    let text = h.encode();
    let back = chunkstore::hash::Hash::parse(&text).unwrap();
    assert_eq!(back.sum, sum);

    let e = chunkstore::hash::Hash::of(b"").encode();
    let back2 = chunkstore::hash::Hash::parse(&e).unwrap();
    assert_eq!(back2.sum, chunkstore::hash::Hash::of(b"").sum);
}

#[test]
fn encode_of_decode_gives_the_text_back() {
    let s = "0123456789abcdefghijklmnopqrstuv";
    let h = chunkstore::hash::Hash::parse(s).unwrap();
    assert_eq!(h.encode(), s);

    let s2 = "vvvvvvvvvvvvvvvvvvvvvvvvvvvvvvvv";
    let h2 = chunkstore::hash::Hash::parse(s2).unwrap();
    assert_eq!(h2.encode(), s2);
}

#[test]
fn parse_rejects_wrong_length() {
    assert_eq!(
        chunkstore::hash::Hash::parse(""),
        Err(chunkstore::hash::Error::InvalidHashSerialization)
    );
    assert_eq!(
        chunkstore::hash::Hash::parse("abc"),
        Err(chunkstore::hash::Error::InvalidHashSerialization)
    );
    // 33 characters
    assert_eq!(
        chunkstore::hash::Hash::parse("000000000000000000000000000000000"),
        Err(chunkstore::hash::Error::InvalidHashSerialization)
    );
}

#[test]
fn parse_rejects_characters_outside_the_alphabet() {
    // 'w' is the first letter past the alphabet
    assert_eq!(
        chunkstore::hash::Hash::parse("w0000000000000000000000000000000"),
        Err(chunkstore::hash::Error::InvalidHashSerialization)
    );
    // upper case is not accepted
    assert_eq!(
        chunkstore::hash::Hash::parse("RMNJB8CJC5TBLJ21ED4QS821649EDUIE"),
        Err(chunkstore::hash::Error::InvalidHashSerialization)
    );
    // a non-ASCII character of one char, padded to 32 chars
    assert_eq!(
        chunkstore::hash::Hash::parse("é0000000000000000000000000000000"),
        Err(chunkstore::hash::Error::InvalidHashSerialization)
    );
}

#[test]
fn empty_hash_encodes_to_all_zeros() {
    let h = chunkstore::hash::Hash::empty();
    assert_eq!(h.encode(), "00000000000000000000000000000000");
    assert!(h.is_empty());
    let back = chunkstore::hash::Hash::parse("00000000000000000000000000000000").unwrap();
    assert!(back.is_empty());
}

#[test]
fn encoding_preserves_byte_order() {
    let mut lo = [0u8; 20];
    let mut hi = [0u8; 20];
    hi[0] = 1;
    let e_lo = chunkstore::hash::Hash::new(lo).encode();
    let e_hi = chunkstore::hash::Hash::new(hi).encode();
    assert!(e_lo < e_hi);

    lo = [9u8; 20];
    hi = [9u8; 20];
    hi[19] = 10;
    let e_lo2 = chunkstore::hash::Hash::new(lo).encode();
    let e_hi2 = chunkstore::hash::Hash::new(hi).encode();
    assert!(e_lo2 < e_hi2);

    let a = chunkstore::hash::Hash::of(b"abc");
    let b = chunkstore::hash::Hash::of(b"abd");
    assert_eq!(a.sum < b.sum, a.encode() < b.encode());
}
