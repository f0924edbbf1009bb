//! Pulse codes: one 32-bit word of the remote-control peripheral's memory.
//!
//! A word holds two phases. Each phase is a line level and a duration of at
//! most 15 bits. The first phase sits in the low half of the word, the second
//! in the high half; within a half the level is the top bit.

use vstd::prelude::*;

verus! {

/// Logic level of the bus line during one phase.
#[derive(Clone, Copy, Debug, PartialEq, Eq, Structural)]
pub enum Level {
    Low,
    High,
}

/// Largest duration a single phase can carry.
pub const MAX_LENGTH: u16 = 0x7FFF;

/// The word that ends a pulse train: both phases zero.
pub const EMPTY: u32 = 0;

/// What a pulse code means: two phases, each a level held for a duration.
pub struct Phases {
    pub level1: Level,
    pub length1: u16,
    pub level2: Level,
    pub length2: u16,
}

pub open spec fn level_bit(level: Level) -> u32 {
    match level {
        Level::Low => 0u32,
        Level::High => 1u32,
    }
}

/// One phase as a 16-bit half word: level in bit 15, duration below it.
pub open spec fn half_word(level: Level, length: u16) -> u32 {
    (level_bit(level) << 15) | (length as u32 & 0x7FFF)
}

/// The word for two phases. Durations are cut to their low 15 bits.
pub open spec fn pack(level1: Level, length1: u16, level2: Level, length2: u16) -> u32 {
    half_word(level1, length1) | (half_word(level2, length2) << 16)
}

/// Duration of the first phase of `code`.
pub open spec fn length1_of(code: u32) -> u16 {
    (code & 0x7FFF) as u16
}

/// Duration of the second phase of `code`.
pub open spec fn length2_of(code: u32) -> u16 {
    ((code >> 16) & 0x7FFF) as u16
}

/// Level of the first phase of `code`.
pub open spec fn level1_of(code: u32) -> Level {
    if code & 0x8000 != 0 {
        Level::High
    } else {
        Level::Low
    }
}

/// Level of the second phase of `code`.
pub open spec fn level2_of(code: u32) -> Level {
    if code & 0x8000_0000 != 0 {
        Level::High
    } else {
        Level::Low
    }
}

/// The two phases that `code` stands for.
pub open spec fn phases(code: u32) -> Phases {
    Phases {
        level1: level1_of(code),
        length1: length1_of(code),
        level2: level2_of(code),
        length2: length2_of(code),
    }
}

/// A pulse code whose second phase has no duration ends the transmission.
pub open spec fn is_end_marker(code: u32) -> bool {
    length2_of(code) == 0
}

proof fn lemma_half_word_fields(bit: u32, length: u16)
    by (bit_vector)
    requires
        bit <= 1,
    ensures
        (bit << 15) <= 0x8000,
        ((bit << 15) | (length as u32 & 0x7FFF)) <= 0xFFFF,
        ((bit << 15) | (length as u32 & 0x7FFF)) & 0x7FFF == length & 0x7FFF,
        (((bit << 15) | (length as u32 & 0x7FFF)) & 0x8000 != 0) == (bit == 1),
        length <= 0x7FFF ==> length & 0x7FFF == length,
{
}

proof fn lemma_word_halves(lo: u32, hi: u32)
    by (bit_vector)
    requires
        lo <= 0xFFFF,
        hi <= 0xFFFF,
    ensures
        (hi << 16) <= 0xFFFF_0000,
        (lo | (hi << 16)) & 0x7FFF == lo & 0x7FFF,
        ((lo | (hi << 16)) >> 16) & 0x7FFF == hi & 0x7FFF,
        ((lo | (hi << 16)) & 0x8000 != 0) == (lo & 0x8000 != 0),
        ((lo | (hi << 16)) & 0x8000_0000 != 0) == (hi & 0x8000 != 0),
{
}

proof fn lemma_field_bounds(code: u32)
    by (bit_vector)
    ensures
        code & 0x7FFF <= 0x7FFF,
        (code >> 16) & 0x7FFF <= 0x7FFF,
        code == 0 ==> code & 0x7FFF == 0 && (code >> 16) & 0x7FFF == 0 && code & 0x8000 == 0
            && code & 0x8000_0000 == 0,
{
}

/// Packing and reading back: the levels come back as given, the durations cut
/// to 15 bits.
pub proof fn lemma_pack_phases(level1: Level, length1: u16, level2: Level, length2: u16)
    ensures
        phases(pack(level1, length1, level2, length2)) == (Phases {
            level1,
            length1: length1 & MAX_LENGTH,
            level2,
            length2: length2 & MAX_LENGTH,
        }),
        length1 <= MAX_LENGTH ==> length1 & MAX_LENGTH == length1,
        length2 <= MAX_LENGTH ==> length2 & MAX_LENGTH == length2,
{
    let lo = half_word(level1, length1);
    let hi = half_word(level2, length2);
    lemma_half_word_fields(level_bit(level1), length1);
    lemma_half_word_fields(level_bit(level2), length2);
    lemma_word_halves(lo, hi);
}

/// The empty word stands for two phases of level low and no duration.
pub proof fn lemma_empty_phases()
    ensures
        phases(EMPTY) == (Phases {
            level1: Level::Low,
            length1: 0,
            level2: Level::Low,
            length2: 0,
        }),
        is_end_marker(EMPTY),
{
    lemma_field_bounds(EMPTY);
}

/// Builds the pulse code for two phases.
pub fn pulse_code(level1: Level, length1: u16, level2: Level, length2: u16) -> (code: u32)
    ensures
        code == pack(level1, length1, level2, length2),
        phases(code) == (Phases {
            level1,
            length1: length1 & MAX_LENGTH,
            level2,
            length2: length2 & MAX_LENGTH,
        }),
{
    let bit1: u32 = match level1 {
        Level::Low => 0,
        Level::High => 1,
    };
    let bit2: u32 = match level2 {
        Level::Low => 0,
        Level::High => 1,
    };
    proof {
        lemma_half_word_fields(bit1, length1);
        lemma_half_word_fields(bit2, length2);
        lemma_pack_phases(level1, length1, level2, length2);
    }
    let lo: u32 = (bit1 << 15) | (length1 as u32 & 0x7FFF);
    let hi: u32 = (bit2 << 15) | (length2 as u32 & 0x7FFF);
    proof {
        lemma_word_halves(lo, hi);
    }
    lo | (hi << 16)
}

/// Reads the duration of the first phase.
pub fn length1(code: u32) -> (len: u16)
    ensures
        len == length1_of(code),
        len <= MAX_LENGTH,
{
    proof {
        lemma_field_bounds(code);
    }
    (code & 0x7FFF) as u16
}

/// Reads the duration of the second phase.
pub fn length2(code: u32) -> (len: u16)
    ensures
        len == length2_of(code),
        len <= MAX_LENGTH,
{
    proof {
        lemma_field_bounds(code);
    }
    ((code >> 16) & 0x7FFF) as u16
}

} // verus!
