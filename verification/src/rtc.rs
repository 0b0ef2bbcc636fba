//! The calendar time kept by the PCF85063 real-time clock, and its BCD
//! register encoding.

use vstd::prelude::*;

verus! {

/// I2C address of the PCF85063 real-time clock.
pub const PCF85063_ADDR: u8 = 0x51;

/// First of the seven consecutive time registers (seconds..years).
pub const REG_SECONDS: u8 = 0x04;

/// A UTC calendar date and time of day.
#[derive(Clone, Copy, Debug, PartialEq, Eq, Structural)]
pub struct DateTime {
    /// Full year, e.g. 2026.
    pub year: u16,
    /// 1..=12
    pub month: u8,
    /// 1..=31
    pub day: u8,
    /// 0..=23
    pub hour: u8,
    pub minute: u8,
    pub second: u8,
}

/// The packed BCD form of `v`: tens in the high nibble, units in the low
/// nibble (the tens digit wraps past 15, as the 8-bit shift does).
pub open spec fn to_bcd(v: u8) -> u8 {
    (((v as int / 10) * 16) % 256 + v as int % 10) as u8
}

/// The value of a packed BCD byte.
pub open spec fn from_bcd(v: u8) -> u8 {
    ((v as int / 16) * 10 + v as int % 16) as u8
}

/// Encode a value in packed BCD.
pub fn bin2bcd(v: u8) -> (r: u8)
    ensures
        r == to_bcd(v),
{
    let t: u8 = v / 10;
    let u: u8 = v % 10;
    assert((t << 4u8) | u == (((t as int) * 16) % 256 + u as int) as u8) by (bit_vector)
        requires
            u < 10,
    ;
    (t << 4u8) | u
}

/// Decode a packed BCD byte.
pub fn bcd2bin(v: u8) -> (r: u8)
    ensures
        r == from_bcd(v),
{
    assert((v >> 4u8) == v / 16) by (bit_vector);
    assert((v & 0x0Fu8) == v % 16) by (bit_vector);
    (v >> 4u8) * 10 + (v & 0x0Fu8)
}

/// Decoding the BCD encoding of a two-digit value gives the value back.
pub proof fn lemma_bcd_round_trip(v: u8)
    requires
        v < 100,
    ensures
        from_bcd(to_bcd(v)) == v,
{
    assert(((v as int / 10) * 16) % 256 == (v as int / 10) * 16);
    assert((to_bcd(v) as int) / 16 == v as int / 10);
    assert((to_bcd(v) as int) % 16 == v as int % 10);
}

proof fn lemma_mask_small(v: u8, mask: u8)
    requires
        mask == 0x7F || mask == 0x3F || mask == 0x1F,
        v <= mask,
    ensures
        v & mask == v,
{
    assert(v & mask == v) by (bit_vector)
        requires
            mask == 0x7F || mask == 0x3F || mask == 0x1F,
            v <= mask,
    ;
}

/// A calendar date and time that the clock can hold: a year of the
/// clock's century and every field in its range.
pub open spec fn clock_representable(dt: DateTime) -> bool {
    &&& 2000 <= dt.year <= 2099
    &&& 1 <= dt.month <= 12
    &&& 1 <= dt.day <= 31
    &&& dt.hour < 24
    &&& dt.minute < 60
    &&& dt.second < 60
}

/// The bytes written to the clock to set `dt`: the register address
/// followed by seconds, minutes, hours, day, weekday (unused, zero),
/// month and two-digit year, each in BCD with the control bits masked off.
pub open spec fn register_frame(dt: DateTime) -> Seq<u8> {
    seq![
        REG_SECONDS,
        (to_bcd(dt.second) & 0x7F) as u8,
        (to_bcd(dt.minute) & 0x7F) as u8,
        (to_bcd(dt.hour) & 0x3F) as u8,
        (to_bcd(dt.day) & 0x3F) as u8,
        0u8,
        (to_bcd(dt.month) & 0x1F) as u8,
        to_bcd((dt.year % 100) as u8),
    ]
}

/// The date and time read back from the seven time registers.
pub open spec fn from_registers_spec(regs: Seq<u8>) -> DateTime {
    DateTime {
        second: from_bcd((regs[0] & 0x7F) as u8),
        minute: from_bcd((regs[1] & 0x7F) as u8),
        hour: from_bcd((regs[2] & 0x3F) as u8),
        day: from_bcd((regs[3] & 0x3F) as u8),
        month: from_bcd((regs[5] & 0x1F) as u8),
        year: (2000 + from_bcd(regs[6]) as int) as u16,
    }
}

impl DateTime {
    /// The register frame that sets the clock to this time.
    pub fn to_registers(&self) -> (frame: [u8; 8])
        ensures
            frame@ == register_frame(*self),
    {
        let frame = [
            REG_SECONDS,
            bin2bcd(self.second) & 0x7F,
            bin2bcd(self.minute) & 0x7F,
            bin2bcd(self.hour) & 0x3F,
            bin2bcd(self.day) & 0x3F,
            0,
            bin2bcd(self.month) & 0x1F,
            bin2bcd((self.year % 100) as u8),
        ];
        assert(frame@ =~= register_frame(*self));
        frame
    }

    /// The time held in the seven registers starting at the seconds register.
    pub fn from_registers(regs: &[u8; 7]) -> (dt: DateTime)
        ensures
            dt == from_registers_spec(regs@),
    {
        DateTime {
            second: bcd2bin(regs[0] & 0x7F),
            minute: bcd2bin(regs[1] & 0x7F),
            hour: bcd2bin(regs[2] & 0x3F),
            day: bcd2bin(regs[3] & 0x3F),
            month: bcd2bin(regs[5] & 0x1F),
            year: 2000 + bcd2bin(regs[6]) as u16,
        }
    }
}

proof fn lemma_field_round_trip(v: u8, mask: u8, limit: u8)
    requires
        mask == 0x7F || mask == 0x3F || mask == 0x1F,
        v <= limit,
        limit == 59 && mask == 0x7F || limit == 31 && mask == 0x3F || limit == 12 && mask == 0x1F,
    ensures
        from_bcd((to_bcd(v) & mask) as u8) == v,
{
    lemma_bcd_round_trip(v);
    assert(to_bcd(v) as int == (v as int / 10) * 16 + v as int % 10);
    assert(to_bcd(v) <= mask);
    lemma_mask_small(to_bcd(v), mask);
}

proof fn lemma_masked_field(v: u8, mask: u8, limit: u8)
    requires
        mask == 0x7F || mask == 0x3F || mask == 0x1F,
        v <= limit,
        limit == 59 && mask == 0x7F || limit == 31 && mask == 0x3F || limit == 12 && mask == 0x1F,
    ensures
        from_bcd((((to_bcd(v) & mask) as u8) & mask) as u8) == v,
{
    lemma_field_round_trip(v, mask, limit);
    let f = (to_bcd(v) & mask) as u8;
    assert(f <= mask) by (bit_vector)
        requires
            f == (to_bcd(v) & mask) as u8,
    ;
    lemma_mask_small(f, mask);
}

/// Setting the clock to a representable time and reading the registers
/// back yields the same time.
#[verifier::spinoff_prover]
pub proof fn lemma_registers_round_trip(dt: DateTime)
    requires
        clock_representable(dt),
    ensures
        from_registers_spec(register_frame(dt).subrange(1, 8)) == dt,
{
    let regs = register_frame(dt).subrange(1, 8);
    assert(regs[0] == (to_bcd(dt.second) & 0x7F) as u8);
    assert(regs[1] == (to_bcd(dt.minute) & 0x7F) as u8);
    assert(regs[2] == (to_bcd(dt.hour) & 0x3F) as u8);
    assert(regs[3] == (to_bcd(dt.day) & 0x3F) as u8);
    assert(regs[5] == (to_bcd(dt.month) & 0x1F) as u8);
    assert(regs[6] == to_bcd((dt.year % 100) as u8));
    lemma_masked_field(dt.second, 0x7F, 59);
    lemma_masked_field(dt.minute, 0x7F, 59);
    lemma_masked_field(dt.hour, 0x3F, 31);
    lemma_masked_field(dt.day, 0x3F, 31);
    lemma_masked_field(dt.month, 0x1F, 12);
    lemma_bcd_round_trip((dt.year % 100) as u8);
    let back = from_registers_spec(regs);
    assert(back.second == dt.second);
    assert(back.minute == dt.minute);
    assert(back.hour == dt.hour);
    assert(back.day == dt.day);
    assert(back.month == dt.month);
    assert(2000 + (dt.year % 100) as int == dt.year as int);
    assert(back.year == dt.year);
}

} // verus!
