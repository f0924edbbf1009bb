//! The bus master's side of each transaction: which pulse train to drive, and
//! what the sampled pulse train says.
//!
//! A bit is one time slot. The master always starts the slot by driving the
//! line; a short drive is a one, a long drive a zero. A slave answers inside
//! the same slot by holding the line down, so the drive seen on the receiving
//! side is short only if every slave left a one standing.

use crate::bits::{byte_bit, byte_flag, get_byte_bit, lemma_byte_append_bit, lemma_byte_bits_determine};
use crate::pulse::{length1, length1_of, length2, length2_of, lemma_pack_phases, pack, phases, pulse_code, Level, Phases, EMPTY};
use vstd::prelude::*;

verus! {

/// Duration of the long phase of a bit slot.
pub const ZERO_BIT_LEN: u16 = 70;

/// Duration of the short phase of a bit slot.
pub const ONE_BIT_LEN: u16 = 3;

/// A sampled slot whose first phase is shorter than this reads as a one.
pub const READ_THRESHOLD: u16 = 20;

/// Idle time before the reset pulse.
pub const RESET_LEAD: u16 = 60;

/// Duration of the reset pulse, and of the window left for the answer.
pub const RESET_HOLD: u16 = 600;

/// A presence pulse is longer than this.
pub const PRESENCE_MIN: u16 = 100;

/// A presence pulse is shorter than this.
pub const PRESENCE_MAX: u16 = 200;

/// Duration of the pulse that bounds how long a transaction waits for its answer.
pub const DEADLINE: u16 = 30000;

/// Number of bit slots in a byte.
pub const BYTE_SLOTS: usize = 8;

/// Number of words in the buffers of a byte or reset transaction.
pub const FRAME_SLOTS: usize = 10;

/// The master side of the bus. It keeps no state between transactions.
pub struct OneWire;

/// The slot that writes `bit`.
pub open spec fn bit_code(bit: bool) -> u32 {
    if bit {
        pack(Level::High, ONE_BIT_LEN, Level::Low, ZERO_BIT_LEN)
    } else {
        pack(Level::High, ZERO_BIT_LEN, Level::Low, ONE_BIT_LEN)
    }
}

/// The bit that a sampled slot carries.
pub open spec fn code_bit(code: u32) -> bool {
    length1_of(code) < READ_THRESHOLD
}

/// The pulse train that writes `byte`: eight slots, least significant bit
/// first, then end markers.
pub open spec fn byte_frame(byte: u8) -> Seq<u32> {
    Seq::new(
        FRAME_SLOTS as nat,
        |n: int|
            if n < BYTE_SLOTS {
                bit_code(byte_bit(byte, n as u8))
            } else {
                EMPTY
            },
    )
}

/// The byte read so far from the first `n` slots of `frame`.
pub open spec fn frame_prefix_byte(frame: Seq<u32>, n: nat) -> u8
    decreases n,
{
    if n == 0 {
        0u8
    } else {
        frame_prefix_byte(frame, (n - 1) as nat) | byte_flag(
            code_bit(frame[n - 1]),
            (n - 1) as u8,
        )
    }
}

/// The byte that the first eight slots of `frame` carry, least significant
/// bit first.
pub open spec fn frame_byte(frame: Seq<u32>) -> u8 {
    frame_prefix_byte(frame, BYTE_SLOTS as nat)
}

/// The pulse train that writes `bits` in order, then one end marker.
pub open spec fn bits_frame(bits: Seq<bool>) -> Seq<u32> {
    Seq::new(
        bits.len() + 1,
        |n: int|
            if n < bits.len() {
                bit_code(bits[n])
            } else {
                EMPTY
            },
    )
}

/// The bits that the slots of `frame` carry, in order.
pub open spec fn frame_bits(frame: Seq<u32>) -> Seq<bool> {
    Seq::new(frame.len(), |n: int| code_bit(frame[n]))
}

/// The pulse train of a bus reset: idle, the reset pulse, then the released
/// window in which slaves announce themselves.
pub open spec fn reset_frame() -> Seq<u32> {
    seq![
        pack(Level::Low, RESET_LEAD, Level::High, RESET_HOLD),
        pack(Level::Low, RESET_HOLD, Level::Low, 0),
        EMPTY,
    ]
}

/// Whether the pulse train sampled during a reset shows a presence pulse: the
/// first slot was seen with both its phases, and the second phase of the
/// second slot lasted longer than `PRESENCE_MIN` and shorter than
/// `PRESENCE_MAX`.
pub open spec fn shows_presence(sampled: Seq<u32>) -> bool {
    &&& length1_of(sampled[0]) > 0
    &&& length2_of(sampled[0]) > 0
    &&& PRESENCE_MIN < length2_of(sampled[1]) < PRESENCE_MAX
}

/// The pulse train that only serves as a deadline: one long phase.
pub open spec fn deadline_frame() -> Seq<u32> {
    seq![pack(Level::Low, DEADLINE, Level::Low, 0)]
}

/// Byte `n` of `value`, counted from the least significant.
pub open spec fn le_byte(value: u64, n: u64) -> u8 {
    ((value >> (8 * n)) & 0xFF) as u8
}

/// The phases of the two bit slots.
pub proof fn lemma_bit_code_phases(bit: bool)
    ensures
        phases(bit_code(bit)) == (Phases {
            level1: Level::High,
            length1: if bit {
                ONE_BIT_LEN
            } else {
                ZERO_BIT_LEN
            },
            level2: Level::Low,
            length2: if bit {
                ZERO_BIT_LEN
            } else {
                ONE_BIT_LEN
            },
        }),
{
    lemma_pack_phases(Level::High, ONE_BIT_LEN, Level::Low, ZERO_BIT_LEN);
    lemma_pack_phases(Level::High, ZERO_BIT_LEN, Level::Low, ONE_BIT_LEN);
}

/// A slot that comes back as it was sent reads as the bit that was written.
pub proof fn lemma_bit_round_trip(bit: bool)
    ensures
        code_bit(bit_code(bit)) == bit,
{
    lemma_bit_code_phases(bit);
}

/// The byte read from a frame has, at each of its eight places, the bit of
/// the slot at that place.
pub proof fn lemma_frame_byte_bits(frame: Seq<u32>)
    ensures
        forall|n: u8| n < 8 ==> #[trigger] byte_bit(frame_byte(frame), n) == code_bit(frame[n as int]),
{
    lemma_frame_prefix_bits(frame, 8);
}

proof fn lemma_frame_prefix_bits(frame: Seq<u32>, n: nat)
    requires
        n <= 8,
    ensures
        forall|m: u8|
            m < n ==> #[trigger] byte_bit(frame_prefix_byte(frame, n), m) == code_bit(
                frame[m as int],
            ),
        forall|m: u8| n <= m < 8 ==> !#[trigger] byte_bit(frame_prefix_byte(frame, n), m),
    decreases n,
{
    if n == 0 {
        assert forall|m: u8| m < 8 implies !#[trigger] byte_bit(0u8, m) by {
            assert(0u8 & (1u8 << m) == 0) by (bit_vector);
        }
    } else {
        let k = (n - 1) as u8;
        let low = frame_prefix_byte(frame, (n - 1) as nat);
        let bit = code_bit(frame[n - 1]);
        lemma_frame_prefix_bits(frame, (n - 1) as nat);
        lemma_byte_append_bit(low, bit, k);
        assert(frame_prefix_byte(frame, n) == low | byte_flag(bit, k));
        assert forall|m: u8| m < n implies #[trigger] byte_bit(frame_prefix_byte(frame, n), m)
            == code_bit(frame[m as int]) by {
            if m < k {
                assert(byte_bit(low | byte_flag(bit, k), m) == byte_bit(low, m));
            }
        }
    }
}

/// A byte frame that comes back as it was sent reads as the byte that was
/// written.
pub proof fn lemma_byte_round_trip(byte: u8)
    ensures
        frame_byte(byte_frame(byte)) == byte,
{
    let frame = byte_frame(byte);
    lemma_frame_byte_bits(frame);
    assert forall|m: u8| m < 8 implies byte_bit(frame_byte(frame), m) == byte_bit(byte, m) by {
        lemma_bit_round_trip(byte_bit(byte, m));
    }
    lemma_byte_bits_determine(frame_byte(frame), byte);
}

/// A frame of bits that comes back as it was sent reads as the bits that
/// were written, followed by the one that the end marker reads as.
pub proof fn lemma_bits_round_trip(bits: Seq<bool>)
    ensures
        frame_bits(bits_frame(bits)).take(bits.len() as int) == bits,
{
    let back = frame_bits(bits_frame(bits)).take(bits.len() as int);
    assert forall|n: int| 0 <= n < bits.len() implies back[n] == bits[n] by {
        lemma_bit_round_trip(bits[n]);
    }
    assert(back =~= bits);
}

impl OneWire {
    /// The pulse code of the slot that writes `bit`: a short drive and a long
    /// rest for a one, a long drive and a short rest for a zero.
    pub fn encode_bit(bit: bool) -> (code: u32)
        ensures
            code == bit_code(bit),
            code_bit(code) == bit,
    {
        proof {
            lemma_bit_round_trip(bit);
        }
        if bit {
            pulse_code(Level::High, ONE_BIT_LEN, Level::Low, ZERO_BIT_LEN)
        } else {
            pulse_code(Level::High, ZERO_BIT_LEN, Level::Low, ONE_BIT_LEN)
        }
    }

    /// The bit that a sampled slot carries: a one if its first phase was
    /// shorter than `READ_THRESHOLD`, a zero otherwise.
    pub fn decode_bit(code: u32) -> (bit: bool)
        ensures
            bit == code_bit(code),
    {
        length1(code) < READ_THRESHOLD
    }

    /// The pulse train that writes `byte`, least significant bit first.
    pub fn encode_byte(byte: u8) -> (frame: [u32; 10])
        ensures
            frame@ == byte_frame(byte),
            frame_byte(frame@) == byte,
    {
        let mut frame: [u32; 10] = [EMPTY; 10];
        let mut n: u8 = 0;
        while n < 8
            invariant
                n <= 8,
                forall|m: int| 0 <= m < n ==> frame[m] == bit_code(byte_bit(byte, m as u8)),
                forall|m: int| n <= m < 10 ==> frame[m] == EMPTY,
            decreases 8 - n,
        {
            frame[n as usize] = Self::encode_bit(get_byte_bit(byte, n));
            n += 1;
        }
        proof {
            assert(frame@ =~= byte_frame(byte));
            lemma_byte_round_trip(byte);
        }
        frame
    }

    /// The byte that the first eight sampled slots carry, least significant
    /// bit first.
    pub fn decode_byte(sampled: &[u32; 10]) -> (byte: u8)
        ensures
            byte == frame_byte(sampled@),
            forall|n: u8| n < 8 ==> #[trigger] byte_bit(byte, n) == code_bit(sampled[n as int]),
    {
        let mut byte: u8 = 0;
        let mut n: u8 = 0;
        while n < 8
            invariant
                n <= 8,
                byte == frame_prefix_byte(sampled@, n as nat),
            decreases 8 - n,
        {
            if Self::decode_bit(sampled[n as usize]) {
                byte |= 1u8 << n;
            } else {
                assert(byte | 0u8 == byte) by (bit_vector);
            }
            n += 1;
        }
        proof {
            lemma_frame_byte_bits(sampled@);
        }
        byte
    }

    /// The pulse train that writes `bits` in order, closed by an end marker.
    pub fn encode_bits(bits: &[bool]) -> (frame: Vec<u32>)
        ensures
            frame@ == bits_frame(bits@),
    {
        let mut frame: Vec<u32> = Vec::new();
        let mut n: usize = 0;
        while n < bits.len()
            invariant
                n <= bits.len(),
                frame.len() == n,
                forall|m: int| 0 <= m < n ==> frame[m] == bit_code(bits[m]),
            decreases bits.len() - n,
        {
            frame.push(Self::encode_bit(bits[n]));
            n += 1;
        }
        frame.push(EMPTY);
        assert(frame@ =~= bits_frame(bits@));
        frame
    }

    /// The bits that the sampled slots carry, in order.
    pub fn decode_bits(sampled: &[u32]) -> (bits: Vec<bool>)
        ensures
            bits@ == frame_bits(sampled@),
    {
        let mut bits: Vec<bool> = Vec::new();
        let mut n: usize = 0;
        while n < sampled.len()
            invariant
                n <= sampled.len(),
                bits.len() == n,
                forall|m: int| 0 <= m < n ==> bits[m] == code_bit(sampled[m]),
            decreases sampled.len() - n,
        {
            bits.push(Self::decode_bit(sampled[n]));
            n += 1;
        }
        assert(bits@ =~= frame_bits(sampled@));
        bits
    }

    /// The pulse train that resets the bus.
    pub fn reset_pulses() -> (frame: [u32; 3])
        ensures
            frame@ == reset_frame(),
    {
        let frame = [
            pulse_code(Level::Low, RESET_LEAD, Level::High, RESET_HOLD),
            pulse_code(Level::Low, RESET_HOLD, Level::Low, 0),
            EMPTY,
        ];
        assert(frame@ =~= reset_frame());
        frame
    }

    /// Whether the pulse train sampled during a reset shows that at least
    /// one slave answered.
    pub fn presence_detected(sampled: &[u32; 10]) -> (present: bool)
        ensures
            present == shows_presence(sampled@),
    {
        length1(sampled[0]) > 0 && length2(sampled[0]) > 0 && length2(sampled[1]) > PRESENCE_MIN
            && length2(sampled[1]) < PRESENCE_MAX
    }

    /// The pulse train that is sent after the data to bound the wait for an
    /// answer.
    pub fn deadline_pulses() -> (frame: [u32; 1])
        ensures
            frame@ == deadline_frame(),
    {
        let frame = [pulse_code(Level::Low, DEADLINE, Level::Low, 0)];
        assert(frame@ =~= deadline_frame());
        frame
    }

    /// The eight bytes of `value` in the order in which they go out on the
    /// bus: least significant first.
    pub fn le_bytes(value: u64) -> (bytes: [u8; 8])
        ensures
            forall|n: int| 0 <= n < 8 ==> bytes[n] == le_byte(value, n as u64),
    {
        let mut bytes: [u8; 8] = [0u8; 8];
        let mut n: u64 = 0;
        while n < 8
            invariant
                n <= 8,
                forall|m: int| 0 <= m < n ==> bytes[m] == le_byte(value, m as u64),
            decreases 8 - n,
        {
            assert((value >> (8 * n)) & 0xFF <= 0xFF) by (bit_vector);
            bytes[n as usize] = ((value >> (8 * n)) & 0xFF) as u8;
            n += 1;
        }
        bytes
    }
}

} // verus!
