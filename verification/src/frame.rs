use vstd::prelude::*;
use vstd::arithmetic::power2::{pow2, lemma2_to64, lemma_pow2_unfold, lemma_pow2_strictly_increases};

verus! {

/// Direction in which a PIO shift register shifts.
#[derive(Clone, Copy, Debug, PartialEq, Eq, Structural)]
pub enum ShiftDirection {
    /// Towards the most significant bit: bits leave (or enter) at bit 31 (bit 0).
    Left,
    /// Towards the least significant bit: bits leave (or enter) at bit 0 (bit 31).
    Right,
}

/// Settings of one PIO shift register (OSR or ISR).
#[derive(Clone, Copy, Debug, PartialEq, Eq, Structural)]
pub struct ShiftConfig {
    /// Number of bits after which the register is refilled or emptied
    /// automatically; the hardware field holds five bits, where 0 stands for 32.
    pub threshold: u8,
    pub direction: ShiftDirection,
    /// Whether the register is refilled (autopull) or emptied (autopush)
    /// automatically at the threshold.
    pub auto_fill: bool,
}

/// A word of `word_bytes` bytes can be framed into a 32-bit FIFO entry.
pub open spec fn framable_word_bytes(word_bytes: usize) -> bool {
    1 <= word_bytes <= 4
}

/// Words of `word_bytes` bytes can be sent `count` at a time: the framing
/// shift `32 - 8 * word_bytes` is computable, and it is below 32 whenever a
/// word is actually shifted.
pub open spec fn frames_words(word_bytes: usize, count: nat) -> bool {
    &&& word_bytes <= 4
    &&& (count > 0 ==> word_bytes >= 1)
}

/// The shift register threshold for words of `word_bytes` bytes: their bit
/// count, cut to eight bits.
pub open spec fn spec_threshold(word_bytes: usize) -> int {
    (8 * word_bytes) % 256
}

/// The shift configuration used for both shift registers of the SPI state
/// machine: automatic refill at the word size, most significant bit first.
pub open spec fn spec_spi_shift_config(word_bytes: usize) -> ShiftConfig {
    ShiftConfig {
        threshold: spec_threshold(word_bytes) as u8,
        direction: ShiftDirection::Left,
        auto_fill: true,
    }
}

/// How far a word is shifted left so that its most significant bit lands in
/// bit 31 of the TX FIFO entry.
pub open spec fn spec_tx_shift(word_bytes: usize) -> u32 {
    (32 - 8 * word_bytes) as u32
}

/// The TX FIFO entry that sends `value` as a word of `word_bytes` bytes,
/// most significant bit first.
pub open spec fn spec_frame(value: u32, word_bytes: usize) -> u32 {
    value << spec_tx_shift(word_bytes)
}

/// Computes the shift register threshold for words of `word_bytes` bytes.
pub fn shift_threshold(word_bytes: usize) -> (threshold: u8)
    requires
        word_bytes <= usize::MAX / 8,
    ensures
        threshold as int == spec_threshold(word_bytes),
{
    let bits: usize = word_bytes * 8;
    (bits % 256) as u8
}

/// The shift configuration for both shift registers of the SPI state machine.
pub fn spi_shift_config(word_bytes: usize) -> (config: ShiftConfig)
    requires
        word_bytes <= usize::MAX / 8,
    ensures
        config == spec_spi_shift_config(word_bytes),
{
    ShiftConfig { threshold: shift_threshold(word_bytes), direction: ShiftDirection::Left, auto_fill: true }
}

/// Computes how far a word of `word_bytes` bytes is shifted into a TX entry.
pub fn tx_shift(word_bytes: usize) -> (shift: u32)
    requires
        framable_word_bytes(word_bytes),
    ensures
        shift == spec_tx_shift(word_bytes),
        shift < 32,
{
    let bits: u32 = (word_bytes as u32) * 8;
    32 - bits
}

/// Frames `value` as a TX FIFO entry for words of `word_bytes` bytes.
pub fn frame_word(value: u32, word_bytes: usize) -> (entry: u32)
    requires
        framable_word_bytes(word_bytes),
    ensures
        entry == spec_frame(value, word_bytes),
{
    let shift = tx_shift(word_bytes);
    value << shift
}

// ---------------------------------------------------------------------------
// A model of the two shift registers of the state machine while it clocks a
// word out on MOSI and in on MISO.

/// The bit that leaves the output shift register on the next `out` of one bit.
pub open spec fn out_bit(osr: u32, direction: ShiftDirection) -> u32 {
    match direction {
        ShiftDirection::Left => osr >> 31u32,
        ShiftDirection::Right => osr & 1u32,
    }
}

/// The output shift register after one bit has left it.
pub open spec fn shift_out(osr: u32, direction: ShiftDirection) -> u32 {
    match direction {
        ShiftDirection::Left => osr << 1u32,
        ShiftDirection::Right => osr >> 1u32,
    }
}

/// The input shift register after `bit` has entered it.
pub open spec fn shift_in(isr: u32, bit: u32, direction: ShiftDirection) -> u32 {
    match direction {
        ShiftDirection::Left => (isr << 1u32) | bit,
        ShiftDirection::Right => (isr >> 1u32) | (bit << 31u32),
    }
}

/// The pair (OSR, ISR) after `n` bits have been clocked with MISO wired to
/// MOSI, starting from an OSR that holds `tx` and an empty ISR.
pub open spec fn loopback_registers(
    tx: u32,
    out_direction: ShiftDirection,
    in_direction: ShiftDirection,
    n: nat,
) -> (u32, u32)
    decreases n,
{
    if n == 0 {
        (tx, 0u32)
    } else {
        let (osr, isr) = loopback_registers(tx, out_direction, in_direction, (n - 1) as nat);
        (shift_out(osr, out_direction), shift_in(isr, out_bit(osr, out_direction), in_direction))
    }
}

/// The number of bits a shift register threshold stands for (0 means 32).
pub open spec fn threshold_bits(threshold: u8) -> nat {
    if threshold % 32 == 0 {
        32
    } else {
        (threshold % 32) as nat
    }
}

/// The RX FIFO entry that a state machine with the given shift settings
/// pushes after sending the TX entry `tx` with MISO wired to MOSI: the ISR
/// once the push threshold is reached.
pub open spec fn loopback_rx(tx: u32, shift_out_config: ShiftConfig, shift_in_config: ShiftConfig) -> u32 {
    loopback_registers(
        tx,
        shift_out_config.direction,
        shift_in_config.direction,
        threshold_bits(shift_in_config.threshold),
    ).1
}

/// With both registers shifting left, after `k` bits the ISR holds the top
/// `k` bits of the TX entry and the OSR holds the rest, moved up.
proof fn lemma_left_loopback_registers(tx: u32, k: nat)
    requires
        1 <= k <= 32,
    ensures
        loopback_registers(tx, ShiftDirection::Left, ShiftDirection::Left, k).1 == tx >> ((32 - k) as u32),
        k < 32 ==> loopback_registers(tx, ShiftDirection::Left, ShiftDirection::Left, k).0 == tx << (k as u32),
    decreases k,
{
    let left = ShiftDirection::Left;
    if k == 1 {
        let (o0, i0) = loopback_registers(tx, left, left, 0);
        assert(o0 == tx && i0 == 0u32);
        assert(((0u32 << 1u32) | (tx >> 31u32)) == tx >> 31u32) by (bit_vector);
    } else {
        lemma_left_loopback_registers(tx, (k - 1) as nat);
        let a: u32 = (33 - k) as u32;
        let b: u32 = (k - 1) as u32;
        let c: u32 = (32 - k) as u32;
        assert(((tx >> a) << 1u32) | ((tx << b) >> 31u32) == tx >> c) by (bit_vector)
            requires
                a + b == 32,
                c + 1 == a,
                1 <= b <= 31,
        ;
        if k < 32 {
            let d: u32 = k as u32;
            assert((tx << b) << 1u32 == tx << d) by (bit_vector)
                requires
                    d == b + 1,
                    d < 32,
            ;
        }
    }
}

/// A word of `word_bytes` bytes (1 to 4) framed by `frame_word` and clocked
/// through a state machine with the SPI shift configuration, with MISO wired
/// to MOSI, comes back unchanged in the RX FIFO.
pub proof fn lemma_loopback_returns_word(value: u32, word_bytes: usize)
    requires
        framable_word_bytes(word_bytes),
        (value as nat) < pow2((8 * word_bytes) as nat),
    ensures
        loopback_rx(
            spec_frame(value, word_bytes),
            spec_spi_shift_config(word_bytes),
            spec_spi_shift_config(word_bytes),
        ) == value,
{
    lemma2_to64();
    let n: nat = (8 * word_bytes) as nat;
    let tx = spec_frame(value, word_bytes);
    assert(threshold_bits(spec_spi_shift_config(word_bytes).threshold) == n);
    lemma_left_loopback_registers(tx, n);
    let s: u32 = spec_tx_shift(word_bytes);
    if word_bytes == 1 {
        assert((value << s) >> s == value) by (bit_vector)
            requires
                s == 24,
                value < 0x100,
        ;
    } else if word_bytes == 2 {
        assert((value << s) >> s == value) by (bit_vector)
            requires
                s == 16,
                value < 0x10000,
        ;
    } else if word_bytes == 3 {
        assert((value << s) >> s == value) by (bit_vector)
            requires
                s == 8,
                value < 0x100_0000,
        ;
    } else {
        assert((value << s) >> s == value) by (bit_vector)
            requires
                s == 0,
        ;
    }
}

/// An all-zero TX entry clocked through the SPI state machine with MISO wired
/// to MOSI gives an all-zero RX entry.
pub proof fn lemma_loopback_of_zero(word_bytes: usize)
    requires
        framable_word_bytes(word_bytes),
    ensures
        loopback_rx(0u32, spec_spi_shift_config(word_bytes), spec_spi_shift_config(word_bytes)) == 0u32,
{
    lemma2_to64();
    assert(spec_frame(0u32, word_bytes) == 0u32) by {
        let s = spec_tx_shift(word_bytes);
        assert(0u32 << s == 0u32) by (bit_vector);
    }
    lemma_loopback_returns_word(0u32, word_bytes);
}

/// The input shift register, shifting left from empty, after the bits
/// `bits` (each 0 or 1, first bit first) have been sampled from MISO.
pub open spec fn received_entry(bits: Seq<u32>) -> u32
    decreases bits.len(),
{
    if bits.len() == 0 {
        0u32
    } else {
        shift_in(received_entry(bits.drop_last()), bits.last(), ShiftDirection::Left)
    }
}

/// Whatever MISO carries, an entry pushed after `n` bits (at most 32) by an
/// input shift register that shifts left holds at most `n` bits.
pub proof fn lemma_received_entry_fits(bits: Seq<u32>)
    requires
        bits.len() <= 32,
        forall|i: int| 0 <= i < bits.len() ==> bits[i] <= 1,
    ensures
        (received_entry(bits) as nat) < pow2(bits.len()),
    decreases bits.len(),
{
    lemma2_to64();
    if bits.len() > 0 {
        let prev = bits.drop_last();
        let k = prev.len();
        lemma_received_entry_fits(prev);
        let x = received_entry(prev);
        let b = bits.last();
        if k < 31 {
            lemma_pow2_strictly_increases(k, 31);
        }
        assert(x < 0x8000_0000u32);
        assert(((x << 1u32) | b) == 2 * x + b) by (bit_vector)
            requires
                x < 0x8000_0000u32,
                b <= 1,
        ;
        lemma_pow2_unfold(bits.len());
    }
}

/// With the SPI shift configuration for words of `word_bytes` bytes, every
/// RX entry fits in a word of that size, whatever MISO carries.
pub proof fn lemma_rx_entry_fits_word(bits: Seq<u32>, word_bytes: usize)
    requires
        framable_word_bytes(word_bytes),
        bits.len() == threshold_bits(spec_spi_shift_config(word_bytes).threshold),
        forall|i: int| 0 <= i < bits.len() ==> bits[i] <= 1,
    ensures
        (received_entry(bits) as nat) < pow2((8 * word_bytes) as nat),
{
    assert(threshold_bits(spec_spi_shift_config(word_bytes).threshold) == 8 * word_bytes);
    lemma_received_entry_fits(bits);
}

} // verus!
