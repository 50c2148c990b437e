use anne_hasher::buffer::PageAlignedByteBuffer;
use anne_hasher::poc_hashing::{noncegen_rust, NONCE_SIZE};
use anne_hasher::shabal256::shabal256_fast;
use shabal::{Digest, Shabal256};

fn hex(bytes: &[u8]) -> String {
    let mut s = String::new();
    for b in bytes {
        s.push_str(&format!("{:02x}", b));
    }
    s
}

/// The digest of `data` as the kernel computes it: `data` has whole blocks,
/// and the closing block holds the padding alone.
fn padded(data: &[u8]) -> [u8; 32] {
    let mut term = [0u32; 16];
    term[0] = 0x80;
    shabal256_fast(data, &term)
}

/// The first 32 bytes of the nonce `(id, n)`.
fn k(id: u64, n: u64) -> String {
    let mut cache = vec![0u8; NONCE_SIZE];
    noncegen_rust(&mut cache, 0, id, n, 1);
    hex(&cache[0..32])
}

/// One nonce, computed with the `shabal` crate and laid out as stored: the
/// high half of every scoop comes from the mirrored scoop.
fn nonce_by_crate(id: u64, n: u64) -> Vec<u8> {
    let mut buffer = vec![0u8; NONCE_SIZE + 16];
    buffer[NONCE_SIZE..NONCE_SIZE + 8].copy_from_slice(&id.to_be_bytes());
    buffer[NONCE_SIZE + 8..].copy_from_slice(&n.to_be_bytes());
    let mut i = NONCE_SIZE;
    while i > 0 {
        let len = std::cmp::min(NONCE_SIZE + 16 - i, 4096);
        let hash = Shabal256::digest(&buffer[i..i + len]);
        buffer[i - 32..i].copy_from_slice(&hash);
        i -= 32;
    }
    let last = Shabal256::digest(&buffer[..]);
    for j in 0..NONCE_SIZE {
        buffer[j] ^= last[j % 32];
    }
    let mut stored = vec![0u8; NONCE_SIZE];
    for s in 0..4096 {
        stored[s * 64..s * 64 + 32].copy_from_slice(&buffer[s * 64..s * 64 + 32]);
        let m = 4095 - s;
        stored[s * 64 + 32..s * 64 + 64].copy_from_slice(&buffer[m * 64 + 32..m * 64 + 64]);
    }
    stored
}

#[test]
fn buffer_creation_destruction_test() {
    {
        let _test = PageAlignedByteBuffer::new(1024 * 1024);
    }
    assert!(true);
}

#[test]
fn shabal_of_the_empty_message() {
    assert_eq!(
        hex(&padded(&[])),
        "aec750d11feee9f16271922fbaf5a9be142f62019ef8d720f858940070889014"
    );
    assert_eq!(hex(&padded(&[])), hex(&Shabal256::digest(&[])));
}

#[test]
fn shabal_of_a_short_message() {
    let mut term = [0u32; 16];
    term[0] = 0x8063_6261;
    let h = shabal256_fast(&[], &term);
    assert_eq!(hex(&h), "07225fab83ca48fb480d22219410d5ca008359efbfd315829029afe2cb3f0404");
    assert_eq!(hex(&h), hex(&Shabal256::digest(b"abc")));
}

#[test]
fn shabal_of_whole_blocks_agrees_with_the_crate() {
    let mut data = vec![0u8; 64 * 5];
    for (i, b) in data.iter_mut().enumerate() {
        *b = (i * 7 + 3) as u8;
    }
    for blocks in 0..=5 {
        let part = &data[..64 * blocks];
        assert_eq!(hex(&padded(part)), hex(&Shabal256::digest(part)));
    }
}

#[test]
fn shabal_ignores_bytes_behind_the_last_whole_block() {
    let data = [9u8; 100];
    assert_eq!(hex(&padded(&data)), hex(&padded(&data[..64])));
}

#[test]
fn shabal_depends_on_the_closing_block() {
    let mut one = [0u32; 16];
    one[0] = 0x80;
    let mut other = [0u32; 16];
    other[0] = 0x8001;
    assert_ne!(shabal256_fast(&[], &one), shabal256_fast(&[], &other));
}

#[test]
fn first_hash_of_nonce_zero_of_account_zero() {
    let mut cache = vec![0u8; 262144];
    noncegen_rust(&mut cache, 0, 0, 0, 1);
    assert_eq!(hex(&cache[0..32]), "bf8cea22b4c59bb0e2083ab4625f471b6a9c4d6da155ed8e924b208955174260");
    assert_eq!(
        hex(&cache[32..64]),
        "444ca6d9eb4bc4cb79e7e956aba206bf6dd549774be4d3a0c606e0d3ee69258f"
    );
}

#[test]
fn first_hashes_differ_by_account_and_by_nonce() {
    let zero = "bf8cea22b4c59bb0e2083ab4625f471b6a9c4d6da155ed8e924b208955174260";
    let account_one = k(1, 0);
    let nonce_one = k(0, 1);
    assert_eq!(account_one, "c7d79e15b340cac20d9dc54e3ef05209015c50f721a99afb8d25bc03791a2b09");
    assert_eq!(nonce_one, "e859e72d2b01c7fbb158efa582c9be171a03f9e1f31f0b77933071b6e3ae79a9");
    assert_ne!(account_one, nonce_one);
    assert_ne!(account_one, zero);
    assert_ne!(nonce_one, zero);
}

#[test]
fn first_hash_of_a_large_account() {
    assert_eq!(
        k(12345678901234567890, 0),
        "32243dd5898c7a7ce1e626bf9a0db0e24e99d00db7b880a5cb7e50d647528c39"
    );
}

#[test]
fn nonce_agrees_with_the_shabal_crate() {
    let mut cache = vec![0xEEu8; NONCE_SIZE];
    noncegen_rust(&mut cache, 0, 0x0102_0304_0506_0708, 0xF1F2_F3F4_F5F6_F7F8, 1);
    assert!(cache == nonce_by_crate(0x0102_0304_0506_0708, 0xF1F2_F3F4_F5F6_F7F8));
}

#[test]
fn kernel_is_deterministic() {
    let mut one = vec![0u8; NONCE_SIZE];
    let mut other = vec![0xFFu8; NONCE_SIZE];
    noncegen_rust(&mut one, 0, 42, 4242, 1);
    noncegen_rust(&mut other, 0, 42, 4242, 1);
    assert!(one == other);
}

#[test]
fn the_last_nonce_index_is_computed() {
    let mut cache = vec![0u8; NONCE_SIZE];
    noncegen_rust(&mut cache, 0, u64::MAX, u64::MAX, 1);
    assert!(cache == nonce_by_crate(u64::MAX, u64::MAX));
}

#[test]
fn no_nonces_leave_the_cache_as_it_is() {
    let mut cache = vec![0x5Au8; 2 * NONCE_SIZE];
    noncegen_rust(&mut cache, 1, 3, u64::MAX, 0);
    assert!(cache.iter().all(|b| *b == 0x5A));
}

#[test]
fn nonces_are_laid_out_scoop_by_scoop() {
    let slots = 3;
    let mut cache = vec![0x77u8; slots * NONCE_SIZE + 5];
    noncegen_rust(&mut cache, 1, 9, 500, 2);
    let first = nonce_by_crate(9, 500);
    let second = nonce_by_crate(9, 501);
    for s in 0..4096 {
        let at = s * slots * 64;
        assert!(cache[at..at + 64].iter().all(|b| *b == 0x77));
        assert!(cache[at + 64..at + 128] == first[s * 64..s * 64 + 64]);
        assert!(cache[at + 128..at + 192] == second[s * 64..s * 64 + 64]);
    }
    assert!(cache[slots * NONCE_SIZE..].iter().all(|b| *b == 0x77));
}

#[test]
fn a_batch_equals_its_nonces_one_by_one() {
    let mut batch = vec![0u8; 4 * NONCE_SIZE];
    noncegen_rust(&mut batch, 0, 77, 1000, 4);
    let mut singles = vec![0u8; 4 * NONCE_SIZE];
    for i in 0..4 {
        noncegen_rust(&mut singles, i, 77, 1000 + i as u64, 1);
    }
    assert!(batch == singles);
    let mut halves = vec![0u8; 4 * NONCE_SIZE];
    noncegen_rust(&mut halves, 2, 77, 1002, 2);
    noncegen_rust(&mut halves, 0, 77, 1000, 2);
    assert!(batch == halves);
}
