//! The 64-bit identifier of a device on the bus.

use crate::master::{le_byte, OneWire};
use vstd::prelude::*;
use vstd::string::StringExecFns;

verus! {

/// The identifier that a device answers to. Two addresses are the same if
/// their 64 bits are, and they are ordered as numbers.
#[derive(Clone, Copy, Debug, PartialEq, Eq, PartialOrd, Ord, Hash, Structural)]
pub struct Address(pub u64);

/// The sixteen hexadecimal digits, in upper case.
pub open spec fn hex_digits() -> Seq<char> {
    seq!['0', '1', '2', '3', '4', '5', '6', '7', '8', '9', 'A', 'B', 'C', 'D', 'E', 'F']
}

/// How one byte is written: in hexadecimal, upper case, without a leading
/// zero.
pub open spec fn byte_text(byte: u8) -> Seq<char> {
    if byte < 16 {
        seq![hex_digits()[byte as int]]
    } else {
        seq![hex_digits()[byte as int / 16], hex_digits()[byte as int % 16]]
    }
}

/// How the `n` least significant bytes of `value` are written: one after the
/// other, least significant first, with nothing between them.
pub open spec fn le_bytes_text(value: u64, n: nat) -> Seq<char>
    decreases n,
{
    if n == 0 {
        Seq::<char>::empty()
    } else {
        le_bytes_text(value, (n - 1) as nat) + byte_text(le_byte(value, (n - 1) as u64))
    }
}

impl Address {
    /// How the address is written: its eight bytes, least significant first.
    pub open spec fn text(self) -> Seq<char> {
        le_bytes_text(self.0, 8)
    }

    /// The address as a number.
    pub fn value(&self) -> (value: u64)
        ensures
            value == self.0,
    {
        self.0
    }

    /// The eight bytes of the address in the order in which they go out on
    /// the bus: least significant first.
    pub fn to_le_bytes(&self) -> (bytes: [u8; 8])
        ensures
            forall|n: int| 0 <= n < 8 ==> bytes[n] == le_byte(self.0, n as u64),
    {
        OneWire::le_bytes(self.0)
    }

    /// The textual form of the address.
    pub fn to_text(&self) -> (text: String)
        ensures
            text@ == self.text(),
    {
        let bytes = self.to_le_bytes();
        let mut text = String::new();
        let mut n: usize = 0;
        while n < 8
            invariant
                n <= 8,
                text@ == le_bytes_text(self.0, n as nat),
                forall|m: int| 0 <= m < 8 ==> bytes[m] == le_byte(self.0, m as u64),
            decreases 8 - n,
        {
            let byte = bytes[n];
            if byte >= 16 {
                text.append(digit_text(byte / 16));
            }
            text.append(digit_text(byte % 16));
            assert(text@ == le_bytes_text(self.0, n as nat) + byte_text(byte));
            n += 1;
        }
        text
    }
}

/// The one-character string of a hexadecimal digit.
fn digit_text(digit: u8) -> (text: &'static str)
    requires
        digit < 16,
    ensures
        text@ == seq![hex_digits()[digit as int]],
{
    proof {
        reveal_strlit("0");
        reveal_strlit("1");
        reveal_strlit("2");
        reveal_strlit("3");
        reveal_strlit("4");
        reveal_strlit("5");
        reveal_strlit("6");
        reveal_strlit("7");
        reveal_strlit("8");
        reveal_strlit("9");
        reveal_strlit("A");
        reveal_strlit("B");
        reveal_strlit("C");
        reveal_strlit("D");
        reveal_strlit("E");
        reveal_strlit("F");
    }
    let text = match digit {
        0 => "0",
        1 => "1",
        2 => "2",
        3 => "3",
        4 => "4",
        5 => "5",
        6 => "6",
        7 => "7",
        8 => "8",
        9 => "9",
        10 => "A",
        11 => "B",
        12 => "C",
        13 => "D",
        14 => "E",
        _ => "F",
    };
    assert(text@ =~= seq![hex_digits()[digit as int]]);
    text
}

} // verus!
