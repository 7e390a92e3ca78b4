//! The packed edit date of records and groups.
use vstd::prelude::*;

verus! {

/// An edit date packed into 16 bits: year in the top 7 bits, month in the
/// next 4, day in the low 5. No calendar validation is done.
#[derive(Debug, Clone, Copy, PartialEq, Eq, Hash)]
pub struct Timestamp {
    pub year: u8,
    pub month: u8,
    pub day: u8,
}

impl Timestamp {
    pub const YEAR_MASK: u16 = 0b1111111000000000;
    pub const MONTH_MASK: u16 = 0b0000000111100000;
    pub const DAY_MASK: u16 = 0b0000000000011111;

    /// The timestamp that a 16-bit pattern holds.
    pub open spec fn spec_from_u16(v: u16) -> Timestamp {
        Timestamp { year: (v / 512) as u8, month: (v / 32 % 16) as u8, day: (v % 32) as u8 }
    }

    /// The 16-bit pattern of a timestamp; bits of a field beyond its width are dropped.
    pub open spec fn spec_to_u16(self) -> u16 {
        ((self.year % 128) * 512 + (self.month % 16) * 32 + self.day % 32) as u16
    }

    /// Unpacks the three fields of a 16-bit pattern.
    pub fn from_u16(v: u16) -> (r: Timestamp)
        ensures
            r == Self::spec_from_u16(v),
    {
        Timestamp { year: (v / 512) as u8, month: (v / 32 % 16) as u8, day: (v % 32) as u8 }
    }

    /// Packs the three fields into 16 bits.
    pub fn to_u16(&self) -> (r: u16)
        ensures
            r == self.spec_to_u16(),
    {
        (self.year % 128) as u16 * 512 + (self.month % 16) as u16 * 32 + (self.day % 32) as u16
    }
}

/// Packing a timestamp whose fields fit their widths and unpacking the result
/// gives back the same timestamp.
pub proof fn timestamp_round_trip(t: Timestamp)
    requires
        t.year < 128,
        t.month < 16,
        t.day < 32,
    ensures
        Timestamp::spec_from_u16(t.spec_to_u16()) == t,
{
}

/// Every 16-bit pattern survives unpacking and packing again.
pub proof fn timestamp_bits_round_trip(v: u16)
    ensures
        Timestamp::spec_from_u16(v).spec_to_u16() == v,
{
}

} // verus!
