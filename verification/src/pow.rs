//! Proof of work: counting the trailing zero bits of a digest.

use vstd::prelude::*;
use vstd::std_specs::bits::u8_trailing_zeros;
use vstd::std_specs::bits::axiom_u8_trailing_zeros;
use vstd::slice::slice_to_vec;
use vstd::arithmetic::div_mod::lemma_fundamental_div_mod;
use vstd::arithmetic::div_mod::lemma_fundamental_div_mod_converse;
use crate::hashing::sha256;
use crate::hexcodec::ascii_lower;
use crate::hexcodec::hex_decoded;
use crate::hexcodec::is_hex_text;
use crate::hexcodec::lemma_hex_ignores_case;
use crate::hashing::sha256_digest;

verus! {

/// Number of trailing zero bits of `h` read as a big-endian number:
/// every all-zero byte at the end counts eight, the last non-zero byte
/// counts its own trailing zeros.
pub open spec fn trailing_zero_bits(h: Seq<u8>) -> nat
    decreases h.len(),
{
    if h.len() == 0 {
        0
    } else if h.last() == 0 {
        8 + trailing_zero_bits(h.drop_last())
    } else {
        u8_trailing_zeros(h.last()) as nat
    }
}

/// Bit `i` of `h` read as a big-endian number (bit 0 is the lowest bit of
/// the last byte).
pub open spec fn digest_bit(h: Seq<u8>, i: nat) -> bool
    recommends
        i < 8 * h.len(),
{
    (h[h.len() - 1 - (i / 8) as int] >> ((i % 8) as u8)) & 1u8 == 1u8
}

/// What the count means: below it every bit of the digest (as a big-endian
/// number) is zero, the bit at it is one unless the count covers the whole
/// digest, and it covers the whole digest exactly when every byte is zero.
pub proof fn lemma_trailing_zero_bits_meaning(h: Seq<u8>)
    ensures
        trailing_zero_bits(h) <= 8 * h.len(),
        forall|i: nat| i < trailing_zero_bits(h) ==> !#[trigger] digest_bit(h, i),
        trailing_zero_bits(h) < 8 * h.len() ==> digest_bit(h, trailing_zero_bits(h)),
        trailing_zero_bits(h) == 8 * h.len() <==> (forall|j: int| 0 <= j < h.len() ==> h[j] == 0),
    decreases h.len(),
{
    broadcast use axiom_u8_trailing_zeros;
    if h.len() > 0 {
        let t = h.drop_last();
        let b = h.last();
        lemma_trailing_zero_bits_meaning(t);
        if b == 0 {
            assert forall|i: nat| i < trailing_zero_bits(h) implies !#[trigger] digest_bit(h, i) by {
                if i < 8 {
                    let k = (i % 8) as u8;
                    assert((0u8 >> k) & 1u8 == 0u8) by (bit_vector);
                } else {
                    let i2 = (i - 8) as nat;
                    assert(i / 8 == 1 + i2 / 8 && i % 8 == i2 % 8);
                    assert(digest_bit(h, i) == digest_bit(t, i2));
                }
            }
            if trailing_zero_bits(h) < 8 * h.len() {
                let i = trailing_zero_bits(h);
                let i2 = (i - 8) as nat;
                assert(i / 8 == 1 + i2 / 8 && i % 8 == i2 % 8);
                assert(digest_bit(h, i) == digest_bit(t, i2));
            }
            if forall|j: int| 0 <= j < t.len() ==> t[j] == 0 {
                assert forall|j: int| 0 <= j < h.len() implies h[j] == 0 by {
                    if j < t.len() {
                        assert(t[j] == h[j]);
                    }
                }
            }
            if forall|j: int| 0 <= j < h.len() ==> h[j] == 0 {
                assert forall|j: int| 0 <= j < t.len() implies t[j] == 0 by {
                    assert(t[j] == h[j]);
                }
            }
        } else {
            let z = u8_trailing_zeros(b);
            assert forall|i: nat| i < trailing_zero_bits(h) implies !#[trigger] digest_bit(h, i) by {
                assert(i / 8 == 0 && i % 8 == i);
                let j = i as u8;
                assert((b >> j) & 1u8 == 0u8);
            }
            assert(digest_bit(h, z as nat) == ((b >> (z as u8)) & 1u8 == 1u8));
            assert(h[h.len() - 1] != 0);
        }
    }
}

/// Counts the trailing zero bits of `hash`, scanning from its last byte.
pub fn count_trailing_zero_bits(hash: &[u8]) -> (count: u32)
    requires
        trailing_zero_bits(hash@) <= u32::MAX,
    ensures
        count == trailing_zero_bits(hash@),
{
    broadcast use axiom_u8_trailing_zeros;
    let mut count: u32 = 0;
    let mut i: usize = hash.len();
    assert(hash@.take(i as int) =~= hash@);
    while i > 0
        invariant
            i <= hash@.len(),
            trailing_zero_bits(hash@) <= u32::MAX,
            count == 8 * (hash@.len() - i),
            trailing_zero_bits(hash@) == count + trailing_zero_bits(hash@.take(i as int)),
        decreases i,
    {
        let byte = hash[i - 1];
        assert(hash@.take(i as int).drop_last() =~= hash@.take(i - 1));
        if byte == 0 {
            count = count + 8;
        } else {
            count = count + byte.trailing_zeros();
            return count;
        }
        i = i - 1;
    }
    count
}

/// How many nonces a worker tries between two looks at whether another
/// worker has already found a solution.
pub const BATCH_SIZE: u64 = 4096;

/// The eight little-endian bytes of `n`.
pub open spec fn le_bytes(n: u64) -> Seq<u8> {
    seq![
        (n & 0xff) as u8,
        ((n >> 8) & 0xff) as u8,
        ((n >> 16) & 0xff) as u8,
        ((n >> 24) & 0xff) as u8,
        ((n >> 32) & 0xff) as u8,
        ((n >> 40) & 0xff) as u8,
        ((n >> 48) & 0xff) as u8,
        ((n >> 56) & 0xff) as u8,
    ]
}

/// The message hashed for nonce `n`: the challenge prefix followed by the
/// little-endian bytes of `n`.
pub open spec fn nonce_message(prefix: Seq<u8>, n: u64) -> Seq<u8> {
    prefix + le_bytes(n)
}

/// A digest meets a difficulty when it has at least that many trailing
/// zero bits.
pub open spec fn meets_difficulty(digest: Seq<u8>, difficulty_bits: u32) -> bool {
    trailing_zero_bits(digest) >= difficulty_bits
}

/// Nonce `n` solves the challenge with this prefix and difficulty.
pub open spec fn solves(prefix: Seq<u8>, n: u64, difficulty_bits: u32) -> bool {
    meets_difficulty(sha256(nonce_message(prefix, n)), difficulty_bits)
}

/// The `k`-th nonce of the arithmetic sequence `start, start + step, ...`.
pub open spec fn stride_nonce(start: int, step: int, k: int) -> int {
    start + k * step
}

/// Builds the message hashed for `nonce`.
pub fn nonce_message_bytes(prefix: &[u8], nonce: u64) -> (message: Vec<u8>)
    ensures
        message@ == nonce_message(prefix@, nonce),
{
    let mut message = slice_to_vec(prefix);
    message.push((nonce & 0xff) as u8);
    message.push(((nonce >> 8) & 0xff) as u8);
    message.push(((nonce >> 16) & 0xff) as u8);
    message.push(((nonce >> 24) & 0xff) as u8);
    message.push(((nonce >> 32) & 0xff) as u8);
    message.push(((nonce >> 40) & 0xff) as u8);
    message.push(((nonce >> 48) & 0xff) as u8);
    message.push(((nonce >> 56) & 0xff) as u8);
    assert(message@ =~= nonce_message(prefix@, nonce));
    message
}

/// The SHA-256 digest of the message for `nonce`.
pub fn hash_nonce(prefix: &[u8], nonce: u64) -> (digest: Vec<u8>)
    ensures
        digest@ == sha256(nonce_message(prefix@, nonce)),
        digest@.len() == 32,
{
    let message = nonce_message_bytes(prefix, nonce);
    sha256_digest(message.as_slice())
}

/// Whether `digest` has at least `difficulty_bits` trailing zero bits.
pub fn digest_meets_difficulty(digest: &[u8], difficulty_bits: u32) -> (meets: bool)
    requires
        trailing_zero_bits(digest@) <= u32::MAX,
    ensures
        meets == meets_difficulty(digest@, difficulty_bits),
{
    count_trailing_zero_bits(digest) >= difficulty_bits
}

/// Whether `nonce` solves the challenge.
pub fn is_solution(prefix: &[u8], nonce: u64, difficulty_bits: u32) -> (solved: bool)
    ensures
        solved == solves(prefix@, nonce, difficulty_bits),
        solved ==> difficulty_bits <= 256,
{
    let digest = hash_nonce(prefix, nonce);
    proof {
        lemma_trailing_zero_bits_meaning(digest@);
    }
    digest_meets_difficulty(digest.as_slice(), difficulty_bits)
}

/// Result of trying one batch of nonces.
#[derive(Debug, Clone, Copy, PartialEq, Eq, Structural)]
pub enum BatchOutcome {
    /// This nonce solves the challenge; no earlier nonce of the batch did.
    Found(u64),
    /// No nonce of the batch solves it; the worker goes on from this nonce.
    Exhausted(u64),
}

/// The outcome of trying the nonces of the stride from position `k` up to
/// (not including) position `count`, in order.
pub open spec fn batch_from(prefix: Seq<u8>, start: int, step: int, k: int, count: int, difficulty_bits: u32) -> BatchOutcome
    decreases count - k,
{
    if k >= count {
        BatchOutcome::Exhausted(stride_nonce(start, step, count) as u64)
    } else if solves(prefix, stride_nonce(start, step, k) as u64, difficulty_bits) {
        BatchOutcome::Found(stride_nonce(start, step, k) as u64)
    } else {
        batch_from(prefix, start, step, k + 1, count, difficulty_bits)
    }
}

/// The outcome of a batch of `count` nonces from `start` by `step`: the
/// first that solves the challenge, else the nonce after the batch.
pub open spec fn batch_outcome(prefix: Seq<u8>, start: int, step: int, count: int, difficulty_bits: u32) -> BatchOutcome {
    batch_from(prefix, start, step, 0, count, difficulty_bits)
}

/// Tries the `count` nonces `start, start + step, ...` in order and stops
/// at the first that solves the challenge.
pub fn search_batch(prefix: &[u8], start: u64, step: u64, count: u64, difficulty_bits: u32) -> (outcome: BatchOutcome)
    requires
        stride_nonce(start as int, step as int, count as int) <= u64::MAX,
    ensures
        match outcome {
            BatchOutcome::Found(n) => exists|k: int|
                0 <= k < count && n == stride_nonce(start as int, step as int, k)
                && solves(prefix@, n, difficulty_bits)
                && forall|j: int| 0 <= j < k ==> !solves(prefix@, #[trigger] stride_nonce(start as int, step as int, j) as u64, difficulty_bits),
            BatchOutcome::Exhausted(next) => next == stride_nonce(start as int, step as int, count as int)
                && forall|j: int| 0 <= j < count ==> !solves(prefix@, #[trigger] stride_nonce(start as int, step as int, j) as u64, difficulty_bits),
        },
        outcome == batch_outcome(prefix@, start as int, step as int, count as int, difficulty_bits),
        outcome is Found ==> difficulty_bits <= 256,
{
    let mut nonce: u64 = start;
    let mut k: u64 = 0;
    while k < count
        invariant
            k <= count,
            stride_nonce(start as int, step as int, count as int) <= u64::MAX,
            nonce == stride_nonce(start as int, step as int, k as int),
            batch_outcome(prefix@, start as int, step as int, count as int, difficulty_bits)
                == batch_from(prefix@, start as int, step as int, k as int, count as int, difficulty_bits),
            forall|j: int| 0 <= j < k ==> !solves(prefix@, #[trigger] stride_nonce(start as int, step as int, j) as u64, difficulty_bits),
        decreases count - k,
    {
        if is_solution(prefix, nonce, difficulty_bits) {
            return BatchOutcome::Found(nonce);
        }
        assert(stride_nonce(start as int, step as int, k + 1) <= stride_nonce(start as int, step as int, count as int)) by (nonlinear_arith)
            requires k + 1 <= count;
        assert(stride_nonce(start as int, step as int, k + 1) == nonce + step) by (nonlinear_arith)
            requires nonce == stride_nonce(start as int, step as int, k as int);
        nonce = nonce + step;
        k = k + 1;
    }
    BatchOutcome::Exhausted(nonce)
}

/// The solution reported after the workers have stopped: the last worker
/// (in worker order) that found one, or 0 when none did.
pub open spec fn last_found(results: Seq<Option<u64>>) -> u64
    decreases results.len(),
{
    if results.len() == 0 {
        0
    } else {
        match results.last() {
            Some(n) => n,
            None => last_found(results.drop_last()),
        }
    }
}

/// Picks the reported solution from the workers' results.
pub fn pick_solution(results: &[Option<u64>]) -> (solution: u64)
    ensures
        solution == last_found(results@),
{
    let mut solution: u64 = 0;
    let mut i: usize = 0;
    while i < results.len()
        invariant
            i <= results@.len(),
            solution == last_found(results@.take(i as int)),
        decreases results@.len() - i,
    {
        assert(results@.take(i + 1).drop_last() =~= results@.take(i as int));
        if let Some(s) = results[i] {
            solution = s;
        }
        i = i + 1;
    }
    assert(results@.take(results@.len() as int) =~= results@);
    solution
}

/// Difficulty, bit by bit: a digest meets `d` exactly when the `d` lowest
/// bits of the digest, read as a big-endian number, are all zero.
pub proof fn lemma_difficulty_is_low_zero_bits(digest: Seq<u8>, d: u32)
    requires
        d <= 8 * digest.len(),
    ensures
        meets_difficulty(digest, d) <==> (forall|i: nat| i < d ==> !#[trigger] digest_bit(digest, i)),
{
    lemma_trailing_zero_bits_meaning(digest);
}

/// Batches chain: the batch that starts where an exhausted batch ended
/// goes on with the same sequence of nonces, so a worker's batches together
/// try its nonces in order with none skipped or repeated.
pub proof fn lemma_batches_continue_the_stride(start: int, step: int, count: int, k: int)
    ensures
        stride_nonce(stride_nonce(start, step, count), step, k) == stride_nonce(start, step, count + k),
{
    assert(start + count * step + k * step == start + (count + k) * step) by (nonlinear_arith);
}

/// Once a batch is exhausted, the rest of the scan does not depend on where
/// it started from.
proof fn lemma_exhausted_prefix_skips(prefix: Seq<u8>, start: int, step: int, k: int, first: int, total: int, d: u32)
    requires
        0 <= k <= first <= total,
        batch_from(prefix, start, step, k, first, d) is Exhausted,
    ensures
        batch_from(prefix, start, step, k, total, d) == batch_from(prefix, start, step, first, total, d),
    decreases first - k,
{
    if k < first {
        lemma_exhausted_prefix_skips(prefix, start, step, k + 1, first, total, d);
    }
}

/// Scanning from position `first + j` of the stride is scanning from
/// position `j` of the stride that starts where the first one reached.
proof fn lemma_scan_shifts(prefix: Seq<u8>, start: int, step: int, first: int, j: int, rest: int, d: u32)
    requires
        0 <= j <= rest,
        0 <= first,
    ensures
        batch_from(prefix, start, step, first + j, first + rest, d)
            == batch_from(prefix, stride_nonce(start, step, first), step, j, rest, d),
    decreases rest - j,
{
    lemma_batches_continue_the_stride(start, step, first, j);
    lemma_batches_continue_the_stride(start, step, first, rest);
    if j < rest {
        lemma_scan_shifts(prefix, start, step, first, j + 1, rest, d);
    }
}

/// A worker's batches together find the first solution of its stride: when
/// a batch of `first` nonces is exhausted, the next batch of `rest` nonces
/// gives the outcome of one batch of `first + rest` nonces.
pub proof fn lemma_exhausted_batch_then_next(prefix: Seq<u8>, start: int, step: int, first: int, rest: int, d: u32)
    requires
        0 <= first,
        0 <= rest,
        batch_outcome(prefix, start, step, first, d) is Exhausted,
    ensures
        batch_outcome(prefix, start, step, first + rest, d)
            == batch_outcome(prefix, stride_nonce(start, step, first), step, rest, d),
{
    lemma_exhausted_prefix_skips(prefix, start, step, 0, first, first + rest, d);
    lemma_scan_shifts(prefix, start, step, first, 0, rest, d);
}

/// Mining does not depend on the letter case of the hex nonce prefix: two
/// valid prefix texts that agree up to ASCII case give the same outcome for
/// every batch.
pub proof fn lemma_prefix_case_irrelevant(a: Seq<u8>, b: Seq<u8>, start: int, step: int, count: int, d: u32)
    requires
        a.len() == b.len(),
        forall|i: int| 0 <= i < a.len() ==> ascii_lower(#[trigger] a[i]) == ascii_lower(b[i]),
        is_hex_text(a),
    ensures
        is_hex_text(b),
        batch_outcome(hex_decoded(a), start, step, count, d) == batch_outcome(hex_decoded(b), start, step, count, d),
{
    lemma_hex_ignores_case(a, b);
}

/// Bytes before the last non-zero byte of a digest do not change its count
/// of trailing zero bits.
pub proof fn lemma_leading_byte_irrelevant(b: u8, h: Seq<u8>)
    requires
        exists|j: int| 0 <= j < h.len() && h[j] != 0,
    ensures
        trailing_zero_bits(seq![b] + h) == trailing_zero_bits(h),
    decreases h.len(),
{
    let s = seq![b] + h;
    assert(s.last() == h.last());
    if h.last() == 0 {
        let j = choose|j: int| 0 <= j < h.len() && h[j] != 0;
        assert(h.drop_last()[j] == h[j]);
        assert(s.drop_last() =~= seq![b] + h.drop_last());
        lemma_leading_byte_irrelevant(b, h.drop_last());
    }
}

/// A digest that meets a difficulty meets every lower one.
pub proof fn lemma_difficulty_monotone(digest: Seq<u8>, d: u32, lower: u32)
    requires
        lower <= d,
        meets_difficulty(digest, d),
    ensures
        meets_difficulty(digest, lower),
{
}

/// The workers split the nonces: with `cores` workers, worker `t` starting
/// at nonce `t` and stepping by `cores`, every nonce is tried by exactly
/// one worker, at exactly one position of its sequence.
pub proof fn lemma_workers_partition_nonces(n: nat, cores: nat)
    requires
        cores > 0,
    ensures
        n == stride_nonce((n % cores) as int, cores as int, (n / cores) as int),
        forall|t: nat, k: nat| t < cores && #[trigger] stride_nonce(t as int, cores as int, k as int) == n
            ==> t == n % cores && k == n / cores,
{
    lemma_fundamental_div_mod(n as int, cores as int);
    let q = (n / cores) as int;
    let r = (n % cores) as int;
    assert(n == r + q * cores) by (nonlinear_arith)
        requires n == cores * q + r;
    assert forall|t: nat, k: nat| t < cores && #[trigger] stride_nonce(t as int, cores as int, k as int) == n
        implies t == n % cores && k == n / cores by {
        assert(n == k * cores + t) by (nonlinear_arith)
            requires n == stride_nonce(t as int, cores as int, k as int);
        lemma_fundamental_div_mod_converse(n as int, cores as int, k as int, t as int);
    }
}

/// No worker found anything: the reported solution is 0.
proof fn lemma_last_found_none(results: Seq<Option<u64>>)
    requires
        forall|i: int| 0 <= i < results.len() ==> results[i] is None,
    ensures
        last_found(results) == 0,
    decreases results.len(),
{
    if results.len() > 0 {
        let rest = results.drop_last();
        assert(results[results.len() - 1] is None);
        assert forall|i: int| 0 <= i < rest.len() implies rest[i] is None by {
            assert(rest[i] == results[i]);
        }
        lemma_last_found_none(rest);
    }
}

/// Worker `i` found `n` and no later worker found anything: the reported
/// solution is `n`.
proof fn lemma_last_found_at(results: Seq<Option<u64>>, i: int)
    requires
        0 <= i < results.len(),
        results[i] is Some,
        forall|j: int| i < j < results.len() ==> results[j] is None,
    ensures
        last_found(results) == results[i]->0,
    decreases results.len(),
{
    if i < results.len() - 1 {
        let rest = results.drop_last();
        assert(results[results.len() - 1] is None);
        assert(rest[i] == results[i]);
        assert forall|j: int| i < j < rest.len() implies rest[j] is None by {
            assert(rest[j] == results[j]);
        }
        lemma_last_found_at(rest, i);
    }
}

/// The reported solution is what the last worker that found one found, and
/// 0 only when no worker found one: for every position `i` whose worker
/// found `n` while no later worker found anything, the result is `n`.
pub proof fn lemma_last_found_is_last_some(results: Seq<Option<u64>>)
    ensures
        (forall|i: int| 0 <= i < results.len() ==> results[i] is None) ==> last_found(results) == 0,
        forall|i: int|
            0 <= i < results.len() && #[trigger] results[i] is Some
                && (forall|j: int| i < j < results.len() ==> results[j] is None)
                ==> last_found(results) == results[i]->0,
{
    if forall|i: int| 0 <= i < results.len() ==> results[i] is None {
        lemma_last_found_none(results);
    }
    assert forall|i: int|
        0 <= i < results.len() && #[trigger] results[i] is Some
            && (forall|j: int| i < j < results.len() ==> results[j] is None)
        implies last_found(results) == results[i]->0 by {
        lemma_last_found_at(results, i);
    }
}

/// The message for nonce `n` is the prefix followed by the eight bytes of
/// `n`, lowest byte first: reading those bytes back as a little-endian
/// number gives `n`.
pub proof fn lemma_message_encodes_nonce(prefix: Seq<u8>, n: u64)
    ensures
        nonce_message(prefix, n).len() == prefix.len() + 8,
        nonce_message(prefix, n).subrange(0, prefix.len() as int) == prefix,
        ({
            let m = nonce_message(prefix, n);
            let p = prefix.len() as int;
            n == (m[p] as u64) | ((m[p + 1] as u64) << 8u64) | ((m[p + 2] as u64) << 16u64)
                | ((m[p + 3] as u64) << 24u64) | ((m[p + 4] as u64) << 32u64) | ((m[p + 5] as u64) << 40u64)
                | ((m[p + 6] as u64) << 48u64) | ((m[p + 7] as u64) << 56u64)
        }),
{
    let m = nonce_message(prefix, n);
    let p = prefix.len() as int;
    assert(m.subrange(0, p) =~= prefix);
    let b0 = n & 0xff;
    let b1 = (n >> 8u64) & 0xff;
    let b2 = (n >> 16u64) & 0xff;
    let b3 = (n >> 24u64) & 0xff;
    let b4 = (n >> 32u64) & 0xff;
    let b5 = (n >> 40u64) & 0xff;
    let b6 = (n >> 48u64) & 0xff;
    let b7 = (n >> 56u64) & 0xff;
    assert(n & 0xff < 256 && (n >> 8u64) & 0xff < 256 && (n >> 16u64) & 0xff < 256 && (n >> 24u64) & 0xff < 256
        && (n >> 32u64) & 0xff < 256 && (n >> 40u64) & 0xff < 256 && (n >> 48u64) & 0xff < 256
        && (n >> 56u64) & 0xff < 256) by (bit_vector);
    assert(m[p] as u64 == b0 && m[p + 1] as u64 == b1 && m[p + 2] as u64 == b2 && m[p + 3] as u64 == b3);
    assert(m[p + 4] as u64 == b4 && m[p + 5] as u64 == b5 && m[p + 6] as u64 == b6 && m[p + 7] as u64 == b7);
    assert(n == b0 | (b1 << 8u64) | (b2 << 16u64) | (b3 << 24u64) | (b4 << 32u64) | (b5 << 40u64) | (b6 << 48u64) | (b7 << 56u64))
        by (bit_vector)
        requires
            b0 == n & 0xff,
            b1 == (n >> 8u64) & 0xff,
            b2 == (n >> 16u64) & 0xff,
            b3 == (n >> 24u64) & 0xff,
            b4 == (n >> 32u64) & 0xff,
            b5 == (n >> 40u64) & 0xff,
            b6 == (n >> 48u64) & 0xff,
            b7 == (n >> 56u64) & 0xff;
}

/// Distinct nonces give distinct messages, so every nonce of a worker's
/// stride is a different candidate.
pub proof fn lemma_distinct_nonces_distinct_messages(prefix: Seq<u8>, n1: u64, n2: u64)
    requires
        n1 != n2,
    ensures
        nonce_message(prefix, n1) != nonce_message(prefix, n2),
{
    lemma_message_encodes_nonce(prefix, n1);
    lemma_message_encodes_nonce(prefix, n2);
}

} // verus!
