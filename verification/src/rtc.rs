//! The real-time clock: turning its registers into a date.

use vstd::prelude::*;
use vstd::string::{StrSliceExecFns, StringExecFns};

verus! {

/// A date and time as the clock gives it.
#[derive(Clone, Copy, Debug, PartialEq, Eq, Structural)]
pub struct RTCTime {
    pub second: u8,
    pub minute: u8,
    pub hour: u8,
    pub day: u8,
    pub month: u8,
    pub year: u32,
}

/// The year the clock's two-digit years are read against.
pub const THIS_YEAR: u32 = 2026u32;

/// A binary-coded decimal byte as a number.
pub open spec fn bcd(v: int) -> int {
    v % 16 + (v / 16) * 10
}

pub fn bcd_to_binary(v: u8) -> (r: u8)
    ensures
        r == bcd(v as int),
{
    assert(v & 0x0Fu8 == v % 16) by (bit_vector);
    (v & 0x0Fu8) + ((v / 16) * 10)
}

/// The hour register read as decimal, keeping the afternoon bit.
pub open spec fn bcd_hour(h: u8) -> int {
    (h % 16 + ((h % 128) / 16) * 10) + (if h >= 128 { 128int } else { 0int })
}

/// The date the registers `raw` give, with status register B `register_b`:
/// decoded from decimal unless binary mode is set, turned to 24-hour time
/// when the clock counts in 12 hours, and the year placed in the century
/// that keeps it at or after `THIS_YEAR` (within a hundred years).
pub open spec fn rtc_date(raw: RTCTime, register_b: u8) -> RTCTime {
    let is_bcd = (register_b / 4) % 2 == 0;
    let t = if is_bcd {
        RTCTime {
            second: bcd(raw.second as int) as u8,
            minute: bcd(raw.minute as int) as u8,
            hour: bcd_hour(raw.hour) as u8,
            day: bcd(raw.day as int) as u8,
            month: bcd(raw.month as int) as u8,
            year: bcd(raw.year as int) as u32,
        }
    } else {
        raw
    };
    let twelve = (register_b / 2) % 2 == 0 && t.hour >= 128;
    let t = if twelve {
        RTCTime { hour: ((t.hour % 128 + 12) % 24) as u8, ..t }
    } else {
        t
    };
    let y = t.year + 2000;
    RTCTime { year: (if y < THIS_YEAR { y + 100 } else { y }) as u32, ..t }
}

/// In decimal mode with the 24-hour clock, every field reads as its two
/// decimal digits, tens in the high four bits and units in the low four:
/// hour `0x21` is 21. The year is the two digits in the century that keeps
/// it at or after `THIS_YEAR`.
#[verifier::rlimit(40)]
pub proof fn lemma_decimal_24_hour_date(raw: RTCTime, register_b: u8)
    requires
        register_b & 0x04u8 == 0,
        register_b & 0x02u8 != 0,
        raw.hour <= 0x23 && raw.hour % 16 <= 9,
        raw.minute < 0x60 && raw.minute % 16 <= 9,
        raw.second < 0x60 && raw.second % 16 <= 9,
        raw.day < 0x40 && raw.day % 16 <= 9,
        raw.month < 0x20 && raw.month % 16 <= 9,
        raw.year < 0xa0 && raw.year % 16 <= 9,
    ensures
        ({
            let t = rtc_date(raw, register_b);
            &&& t.hour == 10 * (raw.hour / 16) + raw.hour % 16
            &&& t.minute == 10 * (raw.minute / 16) + raw.minute % 16
            &&& t.second == 10 * (raw.second / 16) + raw.second % 16
            &&& t.day == 10 * (raw.day / 16) + raw.day % 16
            &&& t.month == 10 * (raw.month / 16) + raw.month % 16
            &&& t.year == 2000 + 10 * (raw.year / 16) + raw.year % 16 + (if 2000 + 10 * (raw.year / 16) + raw.year
                % 16 < THIS_YEAR {
                100int
            } else {
                0int
            })
        }),
{
    assert((register_b & 0x04u8 == 0 <==> (register_b / 4) % 2 == 0) && (register_b & 0x02u8 == 0 <==> (register_b
        / 2) % 2 == 0)) by (bit_vector);
    let h = bcd_hour(raw.hour);
    assert(h == 10 * (raw.hour / 16) + raw.hour % 16 && h < 128);
    let t = rtc_date(raw, register_b);
    assert(t.hour == h);
    assert(bcd(raw.second as int) == 10 * (raw.second / 16) + raw.second % 16);
    assert(bcd(raw.minute as int) == 10 * (raw.minute / 16) + raw.minute % 16);
    assert(bcd(raw.day as int) == 10 * (raw.day / 16) + raw.day % 16);
    assert(bcd(raw.month as int) == 10 * (raw.month / 16) + raw.month % 16);
    assert(bcd(raw.year as int) == 10 * (raw.year / 16) + raw.year % 16);
}

/// In decimal mode with the 12-hour clock, an afternoon hour (high bit set)
/// reads as its two decimal digits plus 12, modulo 24.
pub proof fn lemma_decimal_12_hour_afternoon(raw: RTCTime, register_b: u8)
    requires
        register_b & 0x04u8 == 0,
        register_b & 0x02u8 == 0,
        0x81 <= raw.hour <= 0x92 && raw.hour % 16 <= 9,
    ensures
        rtc_date(raw, register_b).hour == (10 * ((raw.hour - 0x80) / 16) + raw.hour % 16 + 12) % 24,
{
    assert((register_b & 0x04u8 == 0 <==> (register_b / 4) % 2 == 0) && (register_b & 0x02u8 == 0 <==> (register_b
        / 2) % 2 == 0)) by (bit_vector);
}

/// Turns the raw clock registers into a date.
pub fn convert_rtc(raw: RTCTime, register_b: u8) -> (r: RTCTime)
    requires
        raw.year < 256,
    ensures
        r == rtc_date(raw, register_b),
{
    let mut t = raw;
    assert((register_b & 0x04u8 == 0 <==> (register_b / 4) % 2 == 0)
        && (register_b & 0x02u8 == 0 <==> (register_b / 2) % 2 == 0)) by (bit_vector);
    let is_bcd = (register_b & 0x04u8) == 0;
    if is_bcd {
        t.second = bcd_to_binary(t.second);
        t.minute = bcd_to_binary(t.minute);
        let h = t.hour;
        assert((h & 0x0Fu8 == h % 16)
            && (h & 0x70u8 == ((h % 128) / 16) * 16)) by (bit_vector);
        let low = (h & 0x0Fu8) + (((h & 0x70u8) / 16) * 10);
        assert(low < 128);
        assert(low | (h & 0x80u8) == low + (if h >= 128 { 128u8 } else { 0u8 })) by (bit_vector)
            requires
                low < 128,
        ;
        t.hour = low | (h & 0x80u8);
        t.day = bcd_to_binary(t.day);
        t.month = bcd_to_binary(t.month);
        let y = t.year;
        assert(y & 0x0Fu32 == y % 16) by (bit_vector);
        t.year = (y & 0x0Fu32) + ((y / 16) * 10);
    }
    let h = t.hour;
    assert((h & 0x80u8 != 0 <==> h >= 128)
        && (h & 0x7Fu8 == h % 128)) by (bit_vector);
    let is_12_hours_clock = (register_b & 0x02u8) == 0 && (h & 0x80u8) != 0;
    if is_12_hours_clock {
        t.hour = ((h & 0x7Fu8) + 12) % 24;
    }
    t.year = t.year + (THIS_YEAR / 100) * 100;
    if t.year < THIS_YEAR {
        t.year = t.year + 100;
    }
    t
}

/// Whether two readings agree; the clock is read until two in a row do.
pub fn same_reading(a: &RTCTime, b: &RTCTime) -> (r: bool)
    ensures
        r == (*a == *b),
{
    a.second == b.second && a.minute == b.minute && a.hour == b.hour && a.day == b.day && a.month == b.month
        && a.year == b.year
}

/// The register numbers of the clock's fields.
pub const REG_SECOND: u8 = 0u8;
pub const REG_MINUTE: u8 = 2u8;
pub const REG_HOUR: u8 = 4u8;
pub const REG_DAY: u8 = 7u8;
pub const REG_MONTH: u8 = 8u8;
pub const REG_YEAR: u8 = 9u8;

/// Whether the clock is updating: bit 7 of status register A.
pub fn is_update_in_progress(register_a: u8) -> (r: bool)
    ensures
        r == (register_a >= 128),
{
    assert(register_a & 0x80u8 != 0 <==> register_a >= 128) by (bit_vector);
    (register_a & 0x80u8) != 0
}

/// `core::hint::spin_loop`: tells the processor this is a busy wait.
#[verifier::external_body]
pub fn cpu_relax() {
    core::hint::spin_loop();
}

/// The character of decimal digit `d`.
pub open spec fn digit_char(d: int) -> char {
    if d == 0 { '0' }
    else if d == 1 { '1' }
    else if d == 2 { '2' }
    else if d == 3 { '3' }
    else if d == 4 { '4' }
    else if d == 5 { '5' }
    else if d == 6 { '6' }
    else if d == 7 { '7' }
    else if d == 8 { '8' }
    else { '9' }
}

/// The decimal digits of `n`, zeros in front to make at least `width`.
pub open spec fn padded_decimal(n: nat, width: nat) -> Seq<char>
    decreases n + width,
{
    if n < 10 && width <= 1 {
        seq![digit_char(n as int)]
    } else {
        padded_decimal(n / 10, if width > 0 { (width - 1) as nat } else { 0 }).push(digit_char((n % 10) as int))
    }
}

/// The date in ISO 8601 form, `YYYY-MM-DDThh:mm:ssZ`: the year on at least
/// four digits and every other field on two.
pub open spec fn iso8601(t: RTCTime) -> Seq<char> {
    padded_decimal(t.year as nat, 4) + seq!['-'] + padded_decimal(t.month as nat, 2) + seq!['-'] + padded_decimal(
        t.day as nat,
        2,
    ) + seq!['T'] + padded_decimal(t.hour as nat, 2) + seq![':'] + padded_decimal(t.minute as nat, 2) + seq![':']
        + padded_decimal(t.second as nat, 2) + seq!['Z']
}

fn digit_text(d: u32) -> (r: &'static str)
    requires
        d < 10,
    ensures
        r@ == seq![digit_char(d as int)],
{
    let digits = "0123456789";
    proof {
        reveal_strlit("0123456789");
    }
    let r = digits.substring_char(d as usize, d as usize + 1);
    proof {
        assert(r@ =~= seq![digit_char(d as int)]);
    }
    r
}

fn push_padded_decimal(out: &mut String, n: u32, width: u32)
    ensures
        final(out)@ == old(out)@ + padded_decimal(n as nat, width as nat),
    decreases n + width,
{
    if n < 10 && width <= 1 {
        out.append(digit_text(n));
    } else {
        let w = if width > 0 { width - 1 } else { 0 };
        push_padded_decimal(out, n / 10, w);
        out.append(digit_text(n % 10));
        proof {
            assert(old(out)@ + padded_decimal(n as nat, width as nat) =~= old(out)@ + padded_decimal(
                (n / 10) as nat,
                w as nat,
            ) + seq![digit_char((n % 10) as int)]);
        }
    }
}

impl RTCTime {
    /// The date in ISO 8601 form, `YYYY-MM-DDThh:mm:ssZ`.
    pub fn iso8601(&self) -> (r: String)
        ensures
            r@ == iso8601(*self),
    {
        let dash = "-";
        let t = "T";
        let colon = ":";
        let z = "Z";
        proof {
            reveal_strlit("-");
            reveal_strlit("T");
            reveal_strlit(":");
            reveal_strlit("Z");
        }
        let mut out = String::new();
        push_padded_decimal(&mut out, self.year, 4);
        out.append(dash);
        push_padded_decimal(&mut out, self.month as u32, 2);
        out.append(dash);
        push_padded_decimal(&mut out, self.day as u32, 2);
        out.append(t);
        push_padded_decimal(&mut out, self.hour as u32, 2);
        out.append(colon);
        push_padded_decimal(&mut out, self.minute as u32, 2);
        out.append(colon);
        push_padded_decimal(&mut out, self.second as u32, 2);
        out.append(z);
        proof {
            assert(out@ =~= iso8601(*self));
        }
        out
    }
}

} // verus!
