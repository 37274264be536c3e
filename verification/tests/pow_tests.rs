use rpow2_miner::hexcodec::decode_nonce_prefix;
use rpow2_miner::pow::{
    count_trailing_zero_bits, digest_meets_difficulty, hash_nonce, is_solution, nonce_message_bytes,
    pick_solution, search_batch, BatchOutcome, BATCH_SIZE,
};
use sha2::{Digest, Sha256};

fn reference_digest(prefix: &[u8], nonce: u64) -> Vec<u8> {
    let mut hasher = Sha256::new();
    hasher.update(prefix);
    hasher.update(nonce.to_le_bytes());
    hasher.finalize().to_vec()
}

fn reference_trailing_zeros(hash: &[u8]) -> u32 {
    let mut count = 0;
    for &byte in hash.iter().rev() {
        if byte == 0 {
            count += 8;
        } else {
            count += byte.trailing_zeros();
            break;
        }
    }
    count
}

#[test]
fn trailing_zero_bits_of_small_digests() {
    assert_eq!(count_trailing_zero_bits(&[]), 0);
    assert_eq!(count_trailing_zero_bits(&[0xff]), 0);
    assert_eq!(count_trailing_zero_bits(&[0x01, 0x80]), 7);
    assert_eq!(count_trailing_zero_bits(&[0x10, 0x00]), 12);
    assert_eq!(count_trailing_zero_bits(&[0x00, 0x00]), 16);
    assert_eq!(count_trailing_zero_bits(&[0x00, 0x02, 0x00, 0x00]), 17);
}

#[test]
fn trailing_zero_bits_counts_only_the_end() {
    // zero bytes at the front do not count
    assert_eq!(count_trailing_zero_bits(&[0x00, 0x00, 0x01]), 0);
    assert_eq!(count_trailing_zero_bits(&[0x00, 0x00, 0x04]), 2);
}

#[test]
fn all_zero_digest_counts_every_bit() {
    assert_eq!(count_trailing_zero_bits(&[0u8; 32]), 256);
}

#[test]
fn difficulty_is_at_least() {
    assert!(digest_meets_difficulty(&[0x10, 0x00], 12));
    assert!(digest_meets_difficulty(&[0x10, 0x00], 11));
    assert!(!digest_meets_difficulty(&[0x10, 0x00], 13));
    assert!(digest_meets_difficulty(&[0xff], 0));
}

#[test]
fn difficulty_is_monotone_on_values() {
    let digest = [0x00, 0x40, 0x00];
    let bits = count_trailing_zero_bits(&digest);
    assert_eq!(bits, 14);
    for d in 0..=bits {
        assert!(digest_meets_difficulty(&digest, d));
    }
    assert!(!digest_meets_difficulty(&digest, bits + 1));
}

#[test]
fn message_is_prefix_then_little_endian_nonce() {
    let message = nonce_message_bytes(&[0xab, 0xcd], 0x0102_0304_0506_0708);
    assert_eq!(message, vec![0xab, 0xcd, 0x08, 0x07, 0x06, 0x05, 0x04, 0x03, 0x02, 0x01]);
    assert_eq!(nonce_message_bytes(&[], 1), vec![1, 0, 0, 0, 0, 0, 0, 0]);
}

#[test]
fn hash_nonce_is_sha256_of_message() {
    let prefix = [0xde, 0xad, 0xbe, 0xef];
    let digest = hash_nonce(&prefix, 42);
    assert_eq!(digest.len(), 32);
    assert_eq!(digest, reference_digest(&prefix, 42));
    assert_ne!(digest, nonce_message_bytes(&prefix, 42));
}

#[test]
fn hash_nonce_known_vector() {
    // SHA-256 of the eight zero bytes of nonce 0 with an empty prefix
    let digest = hash_nonce(&[], 0);
    assert_eq!(
        hex::encode(digest),
        "af5570f5a1810b7af78caf4bc70a660f0df51e42baf91d4de5b2328de0e83dfc"
    );
}

#[test]
fn is_solution_agrees_with_reference() {
    let prefix = [1u8, 2, 3];
    for nonce in 0..64u64 {
        let expected = reference_trailing_zeros(&reference_digest(&prefix, nonce)) >= 3;
        assert_eq!(is_solution(&prefix, nonce, 3), expected);
    }
}

#[test]
fn search_with_no_difficulty_takes_first_nonce() {
    assert_eq!(search_batch(&[9, 9], 5, 3, 10, 0), BatchOutcome::Found(5));
}

#[test]
fn search_finds_first_solution_in_stride() {
    let prefix = [0x12u8, 0x34];
    let (start, step, difficulty) = (1u64, 4u64, 6u32);
    let outcome = search_batch(&prefix, start, step, BATCH_SIZE, difficulty);
    let mut expected = None;
    for k in 0..BATCH_SIZE {
        let n = start + k * step;
        if reference_trailing_zeros(&reference_digest(&prefix, n)) >= difficulty {
            expected = Some(n);
            break;
        }
    }
    assert_eq!(outcome, BatchOutcome::Found(expected.expect("a solution within the batch")));
}

#[test]
fn search_exhausts_impossible_difficulty() {
    assert_eq!(search_batch(&[1], 7, 2, 10, 257), BatchOutcome::Exhausted(27));
    assert_eq!(search_batch(&[1], 7, 2, 0, 0), BatchOutcome::Exhausted(7));
}

#[test]
fn solution_is_last_found() {
    assert_eq!(pick_solution(&[None, Some(5), None, Some(7), None]), 7);
    assert_eq!(pick_solution(&[Some(3)]), 3);
    assert_eq!(pick_solution(&[None, None]), 0);
    assert_eq!(pick_solution(&[]), 0);
}

#[test]
fn workers_partition_nonces_on_values() {
    let cores = 3u64;
    let mut seen = vec![0u32; 60];
    for thread in 0..cores {
        for k in 0..20u64 {
            let n = thread + k * cores;
            seen[n as usize] += 1;
        }
    }
    assert!(seen.iter().all(|&c| c == 1));
}

#[test]
fn consecutive_batches_equal_one_long_batch() {
    let prefix = [0x77u8];
    let (start, step, difficulty) = (2u64, 3u64, 7u32);
    let long = search_batch(&prefix, start, step, 400, difficulty);
    let mut nonce = start;
    let mut chained = None;
    for _ in 0..40 {
        match search_batch(&prefix, nonce, step, 10, difficulty) {
            BatchOutcome::Found(n) => {
                chained = Some(BatchOutcome::Found(n));
                break;
            }
            BatchOutcome::Exhausted(next) => nonce = next,
        }
    }
    let chained = chained.unwrap_or(BatchOutcome::Exhausted(nonce));
    assert_eq!(long, chained);
}

#[test]
fn low_bits_of_digest_decide_difficulty() {
    // 0x00 0x40 0x00 as a big-endian number is 0x4000: bits 0..13 are zero, bit 14 is one
    let digest = [0x00u8, 0x40, 0x00];
    let value = u32::from_be_bytes([0, digest[0], digest[1], digest[2]]);
    for d in 0..=24u32 {
        let low_bits_zero = d == 0 || value % (1u32 << d) == 0;
        assert_eq!(digest_meets_difficulty(&digest, d), low_bits_zero);
    }
}

#[test]
fn no_solution_above_digest_size() {
    assert!(!is_solution(&[1, 2], 0, 257));
    assert!(!is_solution(&[1, 2], 0, 300));
    assert_eq!(search_batch(&[3], 0, 1, 50, 300), BatchOutcome::Exhausted(50));
}

#[test]
fn leading_byte_does_not_change_count() {
    let hash = [0x00u8, 0x30, 0x00];
    for b in [0u8, 1, 0x80, 0xff] {
        let mut longer = vec![b];
        longer.extend_from_slice(&hash);
        assert_eq!(count_trailing_zero_bits(&longer), count_trailing_zero_bits(&hash));
    }
}

#[test]
fn prefix_case_does_not_change_search() {
    let upper = decode_nonce_prefix("ABCDEF01").unwrap();
    let lower = decode_nonce_prefix("abcdef01").unwrap();
    assert_eq!(upper, lower);
    assert_eq!(search_batch(&upper, 0, 1, 2000, 8), search_batch(&lower, 0, 1, 2000, 8));
}
