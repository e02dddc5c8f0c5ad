//! The header checksum: the XOR of the header's 32-bit words.
//!
//! A header is sound when the XOR of all its whole words is zero, that is,
//! when its fourth word (the checksum) equals the XOR of all the others.
//! Bytes after the last whole word take no part.

use crate::bytes::{lemma_u32_round_trip, read_u32, u32_at, u32_bytes};
use vstd::prelude::*;

verus! {

/// Index of the word that holds the flags.
pub const FLAGS_WORD: usize = 2;

/// Index of the word that holds the checksum.
pub const CHECKSUM_WORD: usize = 3;

/// Number of whole 32-bit words in `bytes`.
pub open spec fn word_count(bytes: Seq<u8>) -> nat {
    (bytes.len() / 4) as nat
}

/// The word of index `i`.
pub open spec fn word(bytes: Seq<u8>, i: int) -> u32 {
    u32_at(bytes, 4 * i)
}

/// XOR of the first `n` words as they stand.
pub open spec fn xor_words(bytes: Seq<u8>, n: nat) -> u32
    decreases n,
{
    if n == 0 {
        0
    } else {
        xor_words(bytes, (n - 1) as nat) ^ word(bytes, n - 1)
    }
}

/// The word of index `i` when the flags word is read as `flags` and the
/// checksum word as zero.
pub open spec fn word_for_checksum(bytes: Seq<u8>, flags: u32, i: int) -> u32 {
    if i == FLAGS_WORD {
        flags
    } else if i == CHECKSUM_WORD {
        0
    } else {
        word(bytes, i)
    }
}

/// XOR of the first `n` words, with the flags word read as `flags` and the
/// checksum word as zero.
pub open spec fn xor_for_checksum(bytes: Seq<u8>, flags: u32, n: nat) -> u32
    decreases n,
{
    if n == 0 {
        0
    } else {
        xor_for_checksum(bytes, flags, (n - 1) as nat) ^ word_for_checksum(bytes, flags, n - 1)
    }
}

/// The checksum that goes with `bytes` once their flags word is `flags`.
/// It is zero for an empty buffer.
pub open spec fn checksum_with_flags(bytes: Seq<u8>, flags: u32) -> u32 {
    xor_for_checksum(bytes, flags, word_count(bytes))
}

/// The flags word that `bytes` store.
pub open spec fn stored_flags(bytes: Seq<u8>) -> u32 {
    u32_at(bytes, 8)
}

/// The checksum word that `bytes` store.
pub open spec fn stored_checksum(bytes: Seq<u8>) -> u32 {
    u32_at(bytes, 12)
}

/// The checksum that `bytes` should store, given the flags they hold.
pub open spec fn expected_checksum(bytes: Seq<u8>) -> u32 {
    checksum_with_flags(bytes, stored_flags(bytes))
}

/// Whether a header of at least sixteen bytes stores the checksum that its
/// other words call for.
pub open spec fn checksum_holds(bytes: Seq<u8>) -> bool {
    stored_checksum(bytes) == expected_checksum(bytes)
}

/// `bytes` with the flags word replaced by `flags` and the checksum word by
/// `checksum`.
pub open spec fn with_flags_and_checksum(bytes: Seq<u8>, flags: u32, checksum: u32) -> Seq<u8>
    recommends
        bytes.len() >= 16,
{
    bytes.subrange(0, 8) + u32_bytes(flags) + u32_bytes(checksum) + bytes.subrange(
        16,
        bytes.len() as int,
    )
}

proof fn lemma_xor_facts(a: u32, b: u32, c: u32)
    ensures
        a ^ 0 == a,
        a ^ a == 0,
        a ^ b == b ^ a,
        (a ^ b) ^ c == a ^ (b ^ c),
        (a ^ b == 0) <==> (a == b),
{
    assert(a ^ 0 == a && a ^ a == 0 && a ^ b == b ^ a && (a ^ b) ^ c == a ^ (b ^ c) && ((a ^ b
        == 0) <==> (a == b))) by (bit_vector);
}

/// The checksum depends on no word but those outside the flags and checksum
/// slots: two buffers that agree there have the same checksum for the same
/// flags.
pub proof fn lemma_checksum_ignores_prologue_words(a: Seq<u8>, b: Seq<u8>, flags: u32, n: nat)
    requires
        forall|i: int|
            0 <= i < n && i != FLAGS_WORD && i != CHECKSUM_WORD ==> word(a, i) == word(b, i),
    ensures
        xor_for_checksum(a, flags, n) == xor_for_checksum(b, flags, n),
    decreases n,
{
    if n > 0 {
        lemma_checksum_ignores_prologue_words(a, b, flags, (n - 1) as nat);
    }
}

/// For a buffer of at least four words, the XOR of all words is the stored
/// checksum XOR the expected one.
pub proof fn lemma_xor_words_splits(bytes: Seq<u8>, n: nat)
    requires
        n >= 4,
    ensures
        xor_words(bytes, n) == xor_for_checksum(bytes, stored_flags(bytes), n) ^ stored_checksum(
            bytes,
        ),
    decreases n,
{
    let f = stored_flags(bytes);
    let c = stored_checksum(bytes);
    if n == 4 {
        let w0 = word(bytes, 0);
        let w1 = word(bytes, 1);
        reveal_with_fuel(xor_words, 5);
        reveal_with_fuel(xor_for_checksum, 5);
        assert(word(bytes, 2) == f);
        assert(word(bytes, 3) == c);
        assert(xor_words(bytes, 4) == (((0 ^ w0) ^ w1) ^ f) ^ c);
        assert(xor_for_checksum(bytes, f, 4) == (((0 ^ w0) ^ w1) ^ f) ^ 0);
        assert((((0u32 ^ w0) ^ w1) ^ f) ^ c == ((((0u32 ^ w0) ^ w1) ^ f) ^ 0) ^ c) by (bit_vector);
    } else {
        lemma_xor_words_splits(bytes, (n - 1) as nat);
        let w = word(bytes, n - 1);
        let x = xor_for_checksum(bytes, f, (n - 1) as nat);
        assert((x ^ c) ^ w == (x ^ w) ^ c) by (bit_vector);
    }
}

/// A header stores the right checksum exactly when the XOR of all its words
/// is zero.
pub proof fn lemma_checksum_holds_iff_xor_zero(bytes: Seq<u8>)
    requires
        bytes.len() >= 16,
    ensures
        checksum_holds(bytes) <==> xor_words(bytes, word_count(bytes)) == 0,
{
    lemma_xor_words_splits(bytes, word_count(bytes));
    lemma_xor_facts(expected_checksum(bytes), stored_checksum(bytes), 0);
}

/// Reading a patched header gives back the flags and the checksum that were
/// patched in, and leaves every other word as it was.
pub proof fn lemma_patched_words(bytes: Seq<u8>, flags: u32, checksum: u32)
    requires
        bytes.len() >= 16,
    ensures
        with_flags_and_checksum(bytes, flags, checksum).len() == bytes.len(),
        stored_flags(with_flags_and_checksum(bytes, flags, checksum)) == flags,
        stored_checksum(with_flags_and_checksum(bytes, flags, checksum)) == checksum,
        forall|i: int|
            0 <= i < word_count(bytes) && i != FLAGS_WORD && i != CHECKSUM_WORD ==> word(
                with_flags_and_checksum(bytes, flags, checksum),
                i,
            ) == word(bytes, i),
        forall|k: int|
            0 <= k < bytes.len() && !(8 <= k < 16) ==> with_flags_and_checksum(
                bytes,
                flags,
                checksum,
            )[k] == bytes[k],
{
    let p = with_flags_and_checksum(bytes, flags, checksum);
    lemma_u32_round_trip(flags);
    lemma_u32_round_trip(checksum);
    assert(forall|k: int| 8 <= k < 12 ==> p[k] == u32_bytes(flags)[k - 8]);
    assert(forall|k: int| 12 <= k < 16 ==> p[k] == u32_bytes(checksum)[k - 12]);
    assert(stored_flags(p) == u32_at(u32_bytes(flags), 0));
    assert(stored_checksum(p) == u32_at(u32_bytes(checksum), 0));
}

/// Whatever flags are put into a header, putting the checksum computed for
/// them beside them gives a header whose checksum holds: the XOR of all its
/// words is zero.
pub proof fn lemma_recomputed_checksum_holds(bytes: Seq<u8>, flags: u32)
    requires
        bytes.len() >= 16,
    ensures
        checksum_holds(
            with_flags_and_checksum(bytes, flags, checksum_with_flags(bytes, flags)),
        ),
        xor_words(
            with_flags_and_checksum(bytes, flags, checksum_with_flags(bytes, flags)),
            word_count(bytes),
        ) == 0,
{
    let c = checksum_with_flags(bytes, flags);
    let p = with_flags_and_checksum(bytes, flags, c);
    lemma_patched_words(bytes, flags, c);
    lemma_checksum_ignores_prologue_words(p, bytes, flags, word_count(bytes));
    lemma_checksum_holds_iff_xor_zero(p);
}

/// The checksum of an empty buffer is zero, whatever the flags.
pub proof fn lemma_checksum_of_empty(flags: u32)
    ensures
        checksum_with_flags(Seq::<u8>::empty(), flags) == 0,
{
}

/// A header whose checksum holds stops doing so as soon as the stored
/// checksum is replaced by any other value, one that differs in a single bit
/// included.
pub proof fn lemma_changed_checksum_is_detected(bytes: Seq<u8>, other: u32)
    requires
        bytes.len() >= 16,
        checksum_holds(bytes),
        other != stored_checksum(bytes),
    ensures
        !checksum_holds(with_flags_and_checksum(bytes, stored_flags(bytes), other)),
        expected_checksum(with_flags_and_checksum(bytes, stored_flags(bytes), other))
            == expected_checksum(bytes),
{
    let f = stored_flags(bytes);
    let p = with_flags_and_checksum(bytes, f, other);
    lemma_patched_words(bytes, f, other);
    lemma_checksum_ignores_prologue_words(p, bytes, f, word_count(bytes));
}

/// Computes the checksum that goes with `header` once its flags word is
/// `flags`: the XOR of all whole words, the flags word taken as `flags` and
/// the checksum word as zero.
pub fn checksum_for(header: &[u8], flags: u32) -> (sum: u32)
    ensures
        sum == checksum_with_flags(header@, flags),
{
    let words: usize = header.len() / 4;
    let mut sum: u32 = 0;
    let mut i: usize = 0;
    while i < words
        invariant
            words == header@.len() / 4,
            4 * words <= header@.len() <= usize::MAX,
            i <= words,
            sum == xor_for_checksum(header@, flags, i as nat),
        decreases words - i,
    {
        let w: u32 = if i == FLAGS_WORD {
            flags
        } else if i == CHECKSUM_WORD {
            0
        } else {
            read_u32(header, 4 * i)
        };
        sum = sum ^ w;
        i = i + 1;
    }
    sum
}

} // verus!
