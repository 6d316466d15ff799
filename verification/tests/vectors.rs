use bad_sha1::{hash, update_hash};

fn digit(c: u8) -> u8 {
    match c {
        b'0'..=b'9' => c - b'0',
        b'a'..=b'f' => c - b'a' + 10,
        _ => panic!("not a hexadecimal digit"),
    }
}

fn hex(s: &str) -> [u8; 20] {
    let s = s.as_bytes();
    assert_eq!(s.len(), 40);
    let mut out = [0u8; 20];
    for i in 0..20 {
        out[i] = digit(s[2 * i]) * 16 + digit(s[2 * i + 1]);
    }
    out
}

const INITIAL: [u32; 5] = [0x67452301, 0xEFCDAB89, 0x98BADCFE, 0x10325476, 0xC3D2E1F0];

#[test]
fn test_hash1() {
    assert_eq!(
        hash(b"The quick brown fox jumps over the lazy dog"),
        hex("2fd4e1c67a2d28fced849ee1bb76e7391b93eb12"),
    );
}

#[test]
fn test_hash2() {
    assert_eq!(
        hash(b"The quick brown fox jumps over the lazy cog"),
        hex("de9f2c7fd25e1b3afad3e85a0bd17d9b100db4b3"),
    );
}

#[test]
fn test_empty_string() {
    assert_eq!(hash(b""), hex("da39a3ee5e6b4b0d3255bfef95601890afd80709"),);
}

#[test]
fn test_padding() {
    assert_eq!(
        hash(b"abcdefghijklmnopqrstuvwxyzabcdefghijklmnopqrstuvwxyz========"),
        hex("7822ad26c30799547bcb3d149ec98ea537eb5761"),
    );
}

#[test]
fn test_abc() {
    assert_eq!(hash(b"abc"), hex("a9993e364706816aba3e25717850c26c9cd0d89d"));
}

#[test]
fn test_two_block_message() {
    assert_eq!(
        hash(b"abcdbcdecdefdefgefghfghighijhijkijkljklmklmnlmnomnopnopq"),
        hex("84983e441c3bd26ebaae4aa1f95129e5e54670f1"),
    );
}

#[test]
fn test_every_byte_value() {
    let message: Vec<u8> = (0..200u8).collect();
    assert_eq!(hash(&message), hex("54d11e99127d159799dbce10f51a75e697780478"));
}

#[test]
fn test_million_bytes() {
    let message = vec![b'a'; 1_000_000];
    assert_eq!(hash(&message), hex("34aa973cd4c4daa4f61eeb2bdbad27316534016f"));
}

#[test]
fn test_length_55_fills_one_final_block() {
    assert_eq!(hash(&[b'a'; 55]), hex("c1c8bbdc22796e28c0e15163d20899b65621d65a"));
}

#[test]
fn test_length_56_needs_a_second_block() {
    assert_eq!(hash(&[b'a'; 56]), hex("c2db330f6083854c99d4b5bfb6e8f29f201be699"));
}

#[test]
fn test_length_63_needs_a_second_block() {
    assert_eq!(hash(&[b'a'; 63]), hex("03f09f5b158a7a8cdad920bddc29b81c18a551f5"));
}

#[test]
fn test_length_64_pads_in_a_fresh_block() {
    assert_eq!(hash(&[b'a'; 64]), hex("0098ba824b5c16427bd7a1122a5a442a25ec644d"));
}

#[test]
fn test_lengths_around_the_second_block() {
    assert_eq!(hash(&[b'a'; 65]), hex("11655326c708d70319be2610e8a57d9a5b959d3b"));
    assert_eq!(hash(&[b'a'; 119]), hex("ee971065aaa017e0632a8ca6c77bb3bf8b1dfc56"));
    assert_eq!(hash(&[b'a'; 120]), hex("f34c1488385346a55709ba056ddd08280dd4c6d6"));
    assert_eq!(hash(&[b'a'; 127]), hex("89d95fa32ed44a7c610b7ee38517ddf57e0bb975"));
    assert_eq!(hash(&[b'a'; 128]), hex("ad5b3fdbcb526778c2839d2f151ea753995e26a0"));
}

#[test]
fn test_digest_is_twenty_bytes() {
    assert_eq!(hash(b"").len(), 20);
    assert_eq!(hash(&[0u8; 1000]).len(), 20);
    assert_eq!(bad_sha1::DIGEST_LEN, 20);
}

#[test]
fn test_same_input_same_digest() {
    let message = b"identical input";
    assert_eq!(hash(message), hash(message));
    assert_eq!(hash(message), hash(&message.to_vec()));
    assert_ne!(hash(message), hash(b"identical inpuu"));
}

#[test]
fn test_update_hash_on_the_empty_message_block() {
    let mut block = [0u8; 64];
    block[0] = 0x80;
    let mut state = INITIAL;
    update_hash(&mut state, &block);
    assert_eq!(state, [0xda39a3ee, 0x5e6b4b0d, 0x3255bfef, 0x95601890, 0xafd80709]);
}

#[test]
fn test_update_hash_on_a_zero_block() {
    let mut state = INITIAL;
    update_hash(&mut state, &[0u8; 64]);
    assert_eq!(state, [0x92b404e5, 0x56588ced, 0x6c1acd4e, 0xbf053f68, 0x09f73a93]);
}

#[test]
fn test_update_hash_from_another_state() {
    let block: Vec<u8> = (0..64u8).collect();
    let mut state = [1, 2, 3, 4, 5];
    update_hash(&mut state, &block);
    assert_eq!(state, [0xdd59f264, 0x30491cc7, 0xf3609f5d, 0x4280c5ca, 0x1d93c4ce]);
}

#[test]
fn test_update_hash_block_by_block() {
    let mut state = INITIAL;
    update_hash(&mut state, &[b'a'; 64]);
    assert_eq!(state, [0xda4968eb, 0x2e377c1f, 0x884e8f52, 0x83524beb, 0xe74ebdbd]);
    let mut last = [0u8; 64];
    last[0] = 0x80;
    last[62] = 0x02;
    update_hash(&mut state, &last);
    let mut digest = [0u8; 20];
    for i in 0..5 {
        digest[4 * i..4 * i + 4].copy_from_slice(&state[i].to_be_bytes());
    }
    assert_eq!(digest, hex("0098ba824b5c16427bd7a1122a5a442a25ec644d"));
}
