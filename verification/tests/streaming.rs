use bad_sha1::{hash, Framer, MAX_MESSAGE_LEN};

fn message(len: usize) -> Vec<u8> {
    (0..len).map(|i| (i * 7 + 3) as u8).collect()
}

fn in_pieces(message: &[u8], sizes: &[usize]) -> [u8; 20] {
    let mut framer = Framer::new();
    let mut at = 0;
    let mut turn = 0;
    while at < message.len() {
        let size = sizes[turn % sizes.len()].min(message.len() - at);
        framer.update(&message[at..at + size]);
        at += size;
        turn += 1;
    }
    assert_eq!(framer.len(), message.len() as u64);
    framer.finalize()
}

#[test]
fn test_new_then_finalize_is_the_empty_digest() {
    let digest = Framer::new().finalize();
    assert_eq!(digest, hash(b""));
    assert_eq!(digest[..4], [0xda, 0x39, 0xa3, 0xee]);
}

#[test]
fn test_single_update_matches_hash() {
    for len in [0, 1, 55, 56, 63, 64, 65, 128, 300] {
        let m = message(len);
        let mut framer = Framer::new();
        framer.update(&m);
        assert_eq!(framer.finalize(), hash(&m));
    }
}

#[test]
fn test_byte_by_byte() {
    let m = message(200);
    assert_eq!(in_pieces(&m, &[1]), hash(&m));
}

#[test]
fn test_pieces_of_63() {
    let m = message(400);
    assert_eq!(in_pieces(&m, &[63]), hash(&m));
}

#[test]
fn test_pieces_of_64() {
    let m = message(512);
    assert_eq!(in_pieces(&m, &[64]), hash(&m));
}

#[test]
fn test_pieces_of_65() {
    let m = message(400);
    assert_eq!(in_pieces(&m, &[65]), hash(&m));
}

#[test]
fn test_pieces_of_128() {
    let m = message(700);
    assert_eq!(in_pieces(&m, &[128]), hash(&m));
}

#[test]
fn test_mixed_pieces() {
    let m = message(1000);
    assert_eq!(in_pieces(&m, &[1, 63, 64, 65, 128, 3]), hash(&m));
    assert_eq!(in_pieces(&m, &[128, 1, 65, 64, 63]), hash(&m));
}

#[test]
fn test_empty_pieces_change_nothing() {
    let m = message(130);
    let mut framer = Framer::new();
    framer.update(&[]);
    framer.update(&m[..64]);
    framer.update(&[]);
    framer.update(&m[64..65]);
    framer.update(&[]);
    framer.update(&m[65..]);
    framer.update(&[]);
    assert_eq!(framer.finalize(), hash(&m));
}

#[test]
fn test_every_split_in_two() {
    let m = message(150);
    let whole = hash(&m);
    for cut in 0..=m.len() {
        let mut framer = Framer::new();
        framer.update(&m[..cut]);
        framer.update(&m[cut..]);
        assert_eq!(framer.finalize(), whole);
    }
}

#[test]
fn test_known_vector_in_pieces() {
    let mut framer = Framer::new();
    framer.update(b"The quick brown fox ");
    framer.update(b"jumps over ");
    framer.update(b"the lazy dog");
    assert_eq!(
        framer.finalize(),
        [
            0x2f, 0xd4, 0xe1, 0xc6, 0x7a, 0x2d, 0x28, 0xfc, 0xed, 0x84, 0x9e, 0xe1, 0xbb, 0x76,
            0xe7, 0x39, 0x1b, 0x93, 0xeb, 0x12,
        ]
    );
}

#[test]
fn test_len_counts_bytes() {
    let mut framer = Framer::new();
    assert_eq!(framer.len(), 0);
    framer.update(&[0u8; 70]);
    assert_eq!(framer.len(), 70);
    framer.update(&[]);
    assert_eq!(framer.len(), 70);
    framer.update(&[1u8; 58]);
    assert_eq!(framer.len(), 128);
}

#[test]
fn test_length_limit() {
    assert_eq!(MAX_MESSAGE_LEN, (1u64 << 61) - 1);
    assert_eq!(MAX_MESSAGE_LEN.checked_mul(8), Some(u64::MAX - 7));
}
