//! The frame sync word and the waveform that the receiver correlates against.

use vstd::prelude::*;

verus! {

/// Number of samples in the frame sync fingerprint, from the first symbol instant to the
/// last.
pub const FINGERPRINT_SAMPS: usize = 231;

/// Number of symbols in the frame sync word.
pub const SYNC_SYMBOLS: usize = 24;

/// Number of samples from one symbol instant to the next.
pub const SYMBOL_PERIOD: usize = 10;

/// Symbols that make up the frame sync word, two bits each, first symbol in the high
/// bits of the first byte.
pub const SYNC_GENERATOR: [u8; 6] = [
    0b01010101,
    0b01110101,
    0b11110101,
    0b11111111,
    0b01110111,
    0b11111111,
];

/// The two bits of symbol `k` of the sync word.
#[verifier::opaque]
pub open spec fn sync_dibit(k: int) -> u8 {
    (SYNC_GENERATOR[k / 4] >> ((6 - 2 * (k % 4)) as u8)) & 3u8
}

/// Nominal level of symbol `k` of the sync word: `1` for the dibit `01`, `-1` for `11`,
/// the only two dibits the sync word uses.
pub open spec fn symbol_level(k: int) -> int {
    if sync_dibit(k) == 1u8 {
        1
    } else {
        -1
    }
}

/// The level of each symbol of the sync word, read off its bits.
pub proof fn lemma_symbol_levels()
    ensures
        symbol_level(0) == 1,
        symbol_level(1) == 1,
        symbol_level(2) == 1,
        symbol_level(3) == 1,
        symbol_level(4) == 1,
        symbol_level(5) == -1,
        symbol_level(6) == 1,
        symbol_level(7) == 1,
        symbol_level(8) == -1,
        symbol_level(9) == -1,
        symbol_level(10) == 1,
        symbol_level(11) == 1,
        symbol_level(12) == -1,
        symbol_level(13) == -1,
        symbol_level(14) == -1,
        symbol_level(15) == -1,
        symbol_level(16) == 1,
        symbol_level(17) == -1,
        symbol_level(18) == 1,
        symbol_level(19) == -1,
        symbol_level(20) == -1,
        symbol_level(21) == -1,
        symbol_level(22) == -1,
        symbol_level(23) == -1,
{
    reveal(sync_dibit);
    assert((0b01010101u8 >> 6u8) & 3u8 == 1u8 && (0b01010101u8 >> 4u8) & 3u8 == 1u8 && (
    0b01010101u8 >> 2u8) & 3u8 == 1u8 && (0b01010101u8 >> 0u8) & 3u8 == 1u8) by (bit_vector);
    assert((0b01110101u8 >> 6u8) & 3u8 == 1u8 && (0b01110101u8 >> 4u8) & 3u8 == 3u8 && (
    0b01110101u8 >> 2u8) & 3u8 == 1u8 && (0b01110101u8 >> 0u8) & 3u8 == 1u8) by (bit_vector);
    assert((0b11110101u8 >> 6u8) & 3u8 == 3u8 && (0b11110101u8 >> 4u8) & 3u8 == 3u8 && (
    0b11110101u8 >> 2u8) & 3u8 == 1u8 && (0b11110101u8 >> 0u8) & 3u8 == 1u8) by (bit_vector);
    assert((0b11111111u8 >> 6u8) & 3u8 == 3u8 && (0b11111111u8 >> 4u8) & 3u8 == 3u8 && (
    0b11111111u8 >> 2u8) & 3u8 == 3u8 && (0b11111111u8 >> 0u8) & 3u8 == 3u8) by (bit_vector);
    assert((0b01110111u8 >> 6u8) & 3u8 == 1u8 && (0b01110111u8 >> 4u8) & 3u8 == 3u8 && (
    0b01110111u8 >> 2u8) & 3u8 == 1u8 && (0b01110111u8 >> 0u8) & 3u8 == 3u8) by (bit_vector);
}

/// Where sample `r` of the symbol period that follows symbol `k` takes its level from:
/// from symbol `k` in the first half of the period, from the next symbol in the second
/// half, and from both midway.
pub proof fn lemma_coefficient_in_period(k: int, r: int)
    requires
        0 <= k,
        0 <= r <= 10,
    ensures
        coefficient(10 * k + r) == if r < 5 {
            symbol_level(k)
        } else if r == 5 {
            (symbol_level(k) + symbol_level(k + 1)) / 2
        } else {
            symbol_level(k + 1)
        },
        -1 <= coefficient(10 * k + r) <= 1,
{
}

/// Coefficient `i` of the fingerprint. A sample takes the level of the nearest symbol
/// instant; midway between two instants it takes the mean of their levels, which is `0`
/// where the levels differ.
pub open spec fn coefficient(i: int) -> int {
    (symbol_level((i + 4) / 10) + symbol_level((i + 5) / 10)) / 2
}

/// Level of symbol `k` of the sync word.
pub fn level(k: usize) -> (l: i8)
    requires
        k < SYNC_SYMBOLS,
    ensures
        l == symbol_level(k as int),
        l == 1 || l == -1,
{
    proof {
        reveal(sync_dibit);
    }
    let byte: u8 = SYNC_GENERATOR[k / 4];
    let shift: u8 = (6 - 2 * (k % 4)) as u8;
    let dibit: u8 = (byte >> shift) & 3u8;
    if dibit == 1u8 {
        1
    } else {
        -1
    }
}

/// Coefficient `i` of the fingerprint.
pub fn coefficient_at(i: usize) -> (c: i8)
    requires
        i < FINGERPRINT_SAMPS,
    ensures
        c == coefficient(i as int),
        -1 <= c <= 1,
{
    let near: i8 = level((i + 4) / SYMBOL_PERIOD);
    let next: i8 = level((i + 5) / SYMBOL_PERIOD);
    (near + next) / 2
}

/// The fingerprint as a table.
pub fn fingerprint() -> (table: [i8; FINGERPRINT_SAMPS])
    ensures
        forall|i: int| 0 <= i < FINGERPRINT_SAMPS ==> table[i] == coefficient(i),
{
    let mut table: [i8; FINGERPRINT_SAMPS] = [0i8; FINGERPRINT_SAMPS];
    let mut i: usize = 0;
    while i < FINGERPRINT_SAMPS
        invariant
            i <= FINGERPRINT_SAMPS,
            forall|j: int| 0 <= j < i ==> table@[j] == coefficient(j),
        decreases FINGERPRINT_SAMPS - i,
    {
        table[i] = coefficient_at(i);
        i += 1;
    }
    table
}

} // verus!
