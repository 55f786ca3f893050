use fileshare_core::{hash_file, hash_password, to_hex, FileHasher, RollingHasher};

const EMPTY_DIGEST: &str = "af1349b9f5f9a1a6a0404dea36dcc9499bcb25c9adc112b7cc9a93cae41f3262";

#[test]
fn test_hash_bytes() {
    let data = b"Hello, World!";
    let hash1 = FileHasher::hash_bytes(data);
    let hash2 = FileHasher::hash_bytes(data);

    assert_eq!(hash1, hash2);
    assert!(!hash1.is_empty());
}

#[test]
fn test_hash_stream() {
    let data = b"This is test data for streaming hash";
    let mut hasher = FileHasher::new();
    for chunk in data.chunks(8) {
        hasher.update(chunk);
    }
    let hash = hasher.finalize();

    assert!(!hash.is_empty());
    assert_eq!(hash, FileHasher::hash_bytes(data));
}

#[test]
fn test_rolling_hasher() {
    let mut hasher = RollingHasher::new(4);
    let data = b"abcdefgh";

    let mut hashes = Vec::new();
    for &byte in data {
        let hash = hasher.update(byte);
        hashes.push(hash);
    }

    assert_eq!(hashes.len(), data.len());
}

#[test]
fn test_block_hashing() {
    let data = b"This is a longer piece of data that will be split into blocks";
    let blocks = FileHasher::hash_blocks(data, 16);

    assert!(!blocks.is_empty());
    assert_eq!(blocks[0].offset, 0);
    assert!(blocks[0].size <= 16);
}

#[test]
fn digest_of_empty_input_is_the_known_vector() {
    assert_eq!(FileHasher::hash_bytes(b""), EMPTY_DIGEST);
    assert_eq!(hash_file(b""), EMPTY_DIGEST);
    assert_eq!(FileHasher::new().finalize(), EMPTY_DIGEST);
}

#[test]
fn digest_is_lowercase_hex_of_32_bytes() {
    let h = FileHasher::hash_bytes(b"some content");
    assert_eq!(h.len(), 64);
    assert!(h.chars().all(|c| c.is_ascii_digit() || ('a'..='f').contains(&c)));
}

#[test]
fn distinct_inputs_have_distinct_digests() {
    let inputs: [&[u8]; 5] = [b"", b"a", b"b", b"ab", b"Hello, World!"];
    for (i, a) in inputs.iter().enumerate() {
        for (j, b) in inputs.iter().enumerate() {
            if i != j {
                assert_ne!(FileHasher::hash_bytes(a), FileHasher::hash_bytes(b));
            }
        }
    }
}

#[test]
fn incremental_digest_matches_whole_buffer() {
    let mut hasher = FileHasher::new();
    hasher.update(b"foo");
    hasher.update(b"");
    hasher.update(b"barbaz");
    assert_eq!(hasher.finalize(), FileHasher::hash_bytes(b"foobarbaz"));
    assert_eq!(hash_file(b"foobarbaz"), FileHasher::hash_bytes(b"foobarbaz"));
}

#[test]
fn salted_hash_covers_password_then_salt() {
    assert_eq!(hash_password("pass", "salt"), FileHasher::hash_bytes(b"passsalt"));
    assert_ne!(hash_password("pass", "salt"), hash_password("salt", "pass"));
}

#[test]
fn hex_encoding_is_exact() {
    assert_eq!(to_hex(&[0x00, 0x0f, 0xa5, 0xff]), "000fa5ff");
    assert_eq!(to_hex(&[]), "");
}

#[test]
fn blocks_partition_the_input() {
    let data = b"Hello, World!";
    let blocks = FileHasher::hash_blocks(data, 7);
    assert_eq!(blocks.len(), 2);
    assert_eq!((blocks[0].offset, blocks[0].size), (0, 7));
    assert_eq!((blocks[1].offset, blocks[1].size), (7, 6));
    assert_eq!(blocks[0].hash, FileHasher::hash_bytes(b"Hello, "));
    assert_eq!(blocks[1].hash, FileHasher::hash_bytes(b"World!"));
}

#[test]
fn block_edge_cases() {
    assert!(FileHasher::hash_blocks(b"", 16).is_empty());
    assert!(FileHasher::hash_blocks(b"abc", 0).is_empty());
    let exact = FileHasher::hash_blocks(b"abcdefgh", 4);
    assert_eq!(exact.len(), 2);
    assert_eq!(exact[1].offset, 4);
    assert_eq!(exact[1].size, 4);
}

#[test]
fn rolling_checksum_exact_values() {
    let mut hasher = RollingHasher::new(4);
    assert_eq!(hasher.hash(), 0);
    let mut last = 0;
    for &b in b"abcd" {
        last = hasher.update(b);
    }
    // sum 394, weighted sum 4*97 + 3*98 + 2*99 + 100 = 980
    assert_eq!(last, 394 + 65536 * 980);
    assert_eq!(hasher.hash(), last);
}

#[test]
fn rolling_checksum_depends_only_on_the_window() {
    let mut a = RollingHasher::new(3);
    let mut b = RollingHasher::new(3);
    for &x in b"zzzzabc" {
        a.update(x);
    }
    for &x in b"qabc" {
        b.update(x);
    }
    assert_eq!(a.hash(), b.hash());
}

#[test]
fn find_matches_reports_candidate_positions() {
    let mut probe = RollingHasher::new(3);
    probe.update(b'a');
    probe.update(b'b');
    let target = probe.update(b'c');

    let mut hasher = RollingHasher::new(3);
    let matches = hasher.find_matches(b"xxabcyyabc", &[target]);
    let positions: Vec<usize> = matches.iter().map(|m| m.position).collect();
    assert_eq!(positions, vec![4, 9]);
    assert!(matches.iter().all(|m| m.hash == target && m.length == 3));
}
