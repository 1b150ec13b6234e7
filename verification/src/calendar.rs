//! A calendar for virtual time: it anchors the epoch of a clock at a date
//! and turns instants into dates, times of day and text.

use vstd::prelude::*;
use vstd::utf8::{encode_utf8, is_ascii_chars};
use crate::civil::{civil_from_days, civil_to_days, days_from_civil, days_to_civil};
use crate::small::{small_new, small_push_str, small_text};
use crate::time::VInstant;

verus! {

/// `String::push` appends one character to the end of the string.
pub assume_specification[ String::push ](text: &mut String, c: char)
    ensures
        final(text)@ == old(text)@.push(c),
;

/// A count of days since 1 January 1970 in the proleptic Gregorian calendar.
#[derive(Clone, Copy, Debug, PartialEq, Eq, Structural, PartialOrd, Ord)]
pub struct CivilDays(i64);

impl Default for CivilDays {
    /// 1 January 1970.
    fn default() -> (days: CivilDays)
        ensures
            days.number() == 0,
    {
        CivilDays(0)
    }
}

impl CivilDays {
    /// The count of days.
    pub closed spec fn number(self) -> int {
        self.0 as int
    }
}

/// What the epoch date of a calendar is a date of.
#[derive(Clone, Copy, Debug)]
enum Anchor {
    /// The epoch is midnight of its date in universal time.
    Utc,
    /// The epoch is midnight of its date in the calendar's own time zone.
    Local,
}

/// The character of the decimal digit `d`.
pub open spec fn digit(d: int) -> char {
    if d == 0 {
        '0'
    } else if d == 1 {
        '1'
    } else if d == 2 {
        '2'
    } else if d == 3 {
        '3'
    } else if d == 4 {
        '4'
    } else if d == 5 {
        '5'
    } else if d == 6 {
        '6'
    } else if d == 7 {
        '7'
    } else if d == 8 {
        '8'
    } else {
        '9'
    }
}

/// The decimal digits of `n`, without leading zeros.
pub open spec fn decimal(n: nat) -> Seq<char>
    decreases n,
{
    if n < 10 {
        seq![digit(n as int)]
    } else {
        decimal(n / 10).push(digit((n % 10) as int))
    }
}

/// The decimal digits of `n`, with zeros in front to make up `width`
/// characters where the digits are fewer.
pub open spec fn padded(n: nat, width: nat) -> Seq<char> {
    let digits = decimal(n);
    if digits.len() >= width {
        digits
    } else {
        Seq::new((width - digits.len()) as nat, |i: int| '0') + digits
    }
}

/// The decimal digits of `v` behind a minus sign where it is negative, with
/// zeros after the sign to make up `width` characters in all.
pub open spec fn signed_padded(v: int, width: nat) -> Seq<char> {
    if v < 0 {
        seq!['-'] + padded((-v) as nat, (width - 1) as nat)
    } else {
        padded(v as nat, width)
    }
}

/// The text of a date, a time of day and a zone offset in seconds:
/// `YYYY-MM-DDTHH:MM:SS.mmm+HH:MM`, with `-` before the offset where it is
/// negative.
pub open spec fn civil_text(fields: (i32, u32, u32, u32, u32, u32, u32), offset_secs: int) -> Seq<
    char,
> {
    let off = if offset_secs < 0 {
        -offset_secs
    } else {
        offset_secs
    };
    signed_padded(fields.0 as int, 4).push('-') + padded(fields.1 as nat, 2).push('-') + padded(
        fields.2 as nat,
        2,
    ).push('T') + padded(fields.3 as nat, 2).push(':') + padded(fields.4 as nat, 2).push(':')
        + padded(fields.5 as nat, 2).push('.') + padded(fields.6 as nat, 3).push(
        if offset_secs < 0 {
            '-'
        } else {
            '+'
        },
    ) + padded((off / 3600) as nat, 2).push(':') + padded(((off % 3600) / 60) as nat, 2)
}

/// Decimal digits are ASCII characters, with or without zeros in front.
proof fn lemma_padded_is_ascii(n: nat, width: nat)
    ensures
        is_ascii_chars(decimal(n)),
        is_ascii_chars(padded(n, width)),
    decreases n,
{
    if n >= 10 {
        lemma_padded_is_ascii(n / 10, 0);
    }
}

/// A number behind its sign is made of ASCII characters.
proof fn lemma_signed_padded_is_ascii(v: int, width: nat)
    ensures
        is_ascii_chars(signed_padded(v, width)),
{
    if v < 0 {
        lemma_padded_is_ascii((-v) as nat, (width - 1) as nat);
    } else {
        lemma_padded_is_ascii(v as nat, width);
    }
}

/// The text of a date and time is made of ASCII characters.
proof fn lemma_civil_text_is_ascii(fields: (i32, u32, u32, u32, u32, u32, u32), offset_secs: int)
    ensures
        is_ascii_chars(civil_text(fields, offset_secs)),
{
    let off = if offset_secs < 0 {
        -offset_secs
    } else {
        offset_secs
    };
    lemma_signed_padded_is_ascii(fields.0 as int, 4);
    lemma_padded_is_ascii(fields.1 as nat, 2);
    lemma_padded_is_ascii(fields.2 as nat, 2);
    lemma_padded_is_ascii(fields.3 as nat, 2);
    lemma_padded_is_ascii(fields.4 as nat, 2);
    lemma_padded_is_ascii(fields.5 as nat, 2);
    lemma_padded_is_ascii(fields.6 as nat, 3);
    lemma_padded_is_ascii((off / 3600) as nat, 2);
    lemma_padded_is_ascii(((off % 3600) / 60) as nat, 2);
    let p0 = signed_padded(fields.0 as int, 4).push('-');
    let p1 = p0 + padded(fields.1 as nat, 2).push('-');
    let p2 = p1 + padded(fields.2 as nat, 2).push('T');
    let p3 = p2 + padded(fields.3 as nat, 2).push(':');
    let p4 = p3 + padded(fields.4 as nat, 2).push(':');
    let p5 = p4 + padded(fields.5 as nat, 2).push('.');
    let p6 = p5 + padded(fields.6 as nat, 3).push(
        if offset_secs < 0 {
            '-'
        } else {
            '+'
        },
    );
    let p7 = p6 + padded((off / 3600) as nat, 2).push(':');
    let p8 = p7 + padded(((off % 3600) / 60) as nat, 2);
    assert(is_ascii_chars(p0));
    assert(is_ascii_chars(p1));
    assert(is_ascii_chars(p2));
    assert(is_ascii_chars(p3));
    assert(is_ascii_chars(p4));
    assert(is_ascii_chars(p5));
    assert(is_ascii_chars(p6));
    assert(is_ascii_chars(p7));
    assert(is_ascii_chars(p8));
    assert(p8 == civil_text(fields, offset_secs));
}

/// The character of the decimal digit `d`.
fn digit_char(d: u64) -> (c: char)
    requires
        d < 10,
    ensures
        c == digit(d as int),
{
    if d == 0 {
        '0'
    } else if d == 1 {
        '1'
    } else if d == 2 {
        '2'
    } else if d == 3 {
        '3'
    } else if d == 4 {
        '4'
    } else if d == 5 {
        '5'
    } else if d == 6 {
        '6'
    } else if d == 7 {
        '7'
    } else if d == 8 {
        '8'
    } else {
        '9'
    }
}

/// The size of `v` without its sign.
fn magnitude(v: i32) -> (size: u32)
    ensures
        size == if v < 0 {
            -(v as int)
        } else {
            v as int
        },
{
    let wide: i64 = v as i64;
    if wide < 0 {
        (-wide) as u32
    } else {
        wide as u32
    }
}

/// How many decimal digits `n` has.
fn decimal_len(n: u64) -> (len: usize)
    ensures
        len == decimal(n as nat).len(),
        1 <= len <= 20,
    decreases n,
{
    if n < 10 {
        1
    } else {
        proof {
            lemma_decimal_len(n as nat);
        }
        decimal_len(n / 10) + 1
    }
}

/// A number below `10^k` has at most `k` digits; every 64-bit number has at
/// most twenty.
proof fn lemma_decimal_len(n: nat)
    ensures
        n < 10 ==> decimal(n).len() == 1,
        n >= 10 ==> decimal(n).len() == decimal(n / 10).len() + 1,
        n <= u64::MAX ==> decimal(n).len() <= 20,
{
    reveal_with_fuel(decimal, 21);
}

/// Appends the decimal digits of `n` to `out`.
fn push_decimal(out: &mut String, n: u64)
    ensures
        final(out)@ == old(out)@ + decimal(n as nat),
    decreases n,
{
    if n >= 10 {
        push_decimal(out, n / 10);
    }
    out.push(digit_char(n % 10));
    assert(out@ =~= old(out)@ + decimal(n as nat));
}

/// Appends the decimal digits of `n` to `out`, behind as many zeros as it
/// takes to make up `width` characters.
fn push_padded(out: &mut String, n: u64, width: usize)
    ensures
        final(out)@ == old(out)@ + padded(n as nat, width as nat),
{
    let len = decimal_len(n);
    let mut written: usize = len;
    while written < width
        invariant
            len == decimal(n as nat).len(),
            len <= written,
            written <= width || written == len,
            out@ == old(out)@ + Seq::new((written - len) as nat, |i: int| '0'),
        decreases width - written,
    {
        out.push('0');
        written = written + 1;
        assert(out@ =~= old(out)@ + Seq::new((written - len) as nat, |i: int| '0'));
    }
    let ghost zeros = Seq::new((written - len) as nat, |i: int| '0');
    let ghost filled = out@;
    assert(filled == old(out)@ + zeros);
    push_decimal(out, n);
    assert(out@ == filled + decimal(n as nat));
    assert(padded(n as nat, width as nat) =~= zeros + decimal(n as nat)) by {
        if len >= width {
            assert(zeros =~= Seq::<char>::empty());
        } else {
            assert(written == width);
        }
    }
    assert(out@ =~= old(out)@ + padded(n as nat, width as nat));
}

/// Appends the decimal digits of `v` to `out`, behind a minus sign where it
/// is negative, with zeros after the sign to make up `width` characters in
/// all.
fn push_signed_padded(out: &mut String, v: i32, width: usize)
    requires
        width >= 1,
    ensures
        final(out)@ == old(out)@ + signed_padded(v as int, width as nat),
{
    if v < 0 {
        out.push('-');
        push_padded(out, magnitude(v) as u64, width - 1);
        assert(out@ =~= old(out)@ + signed_padded(v as int, width as nat));
    } else {
        push_padded(out, v as u64, width);
    }
}

/// A calendar: the date at which virtual time starts, and the zone in which
/// dates and times are shown.
#[derive(Clone, Copy, Debug)]
pub struct Calendar {
    epoch_days: CivilDays,
    tz_offset_secs: i32,
    anchor: Anchor,
}

impl Calendar {
    /// The number of the day on which virtual time starts.
    pub closed spec fn epoch(&self) -> int {
        self.epoch_days.0 as int
    }

    /// The offset of the calendar's zone from universal time, in seconds.
    pub closed spec fn offset_secs(&self) -> int {
        self.tz_offset_secs as int
    }

    /// Whether the epoch is midnight in the calendar's own zone, not in
    /// universal time.
    pub closed spec fn local(&self) -> bool {
        self.anchor is Local
    }

    #[verifier::type_invariant]
    spec fn in_range(&self) -> bool {
        -800_000_000_000 < self.epoch_days.0 < 800_000_000_000
    }

    /// The seconds from the epoch's midnight to the instant `t` as the
    /// calendar shows it: the zone offset counts only where the epoch is
    /// midnight in universal time.
    pub open spec fn seconds_at(&self, t: VInstant) -> int {
        t.0 / 1_000_000_000 + if self.local() {
            0
        } else {
            self.offset_secs()
        }
    }

    /// The number of the day on which the instant `t` falls.
    pub open spec fn day_at(&self, t: VInstant) -> int {
        self.epoch() + self.seconds_at(t) / 86_400
    }

    /// The year, month, day, hour, minute, second and millisecond of the
    /// instant `t`.
    pub open spec fn fields_at(&self, t: VInstant) -> (i32, u32, u32, u32, u32, u32, u32) {
        let date = days_to_civil(self.day_at(t));
        let second_of_day = self.seconds_at(t) % 86_400;
        (
            date.0 as i32,
            date.1 as u32,
            date.2 as u32,
            (second_of_day / 3600) as u32,
            ((second_of_day % 3600) / 60) as u32,
            (second_of_day % 60) as u32,
            ((t.0 % 1_000_000_000) / 1_000_000) as u32,
        )
    }

    /// A calendar that starts on 1 January 1970 in universal time.
    pub fn new() -> (cal: Calendar)
        ensures
            cal.epoch() == 0,
            cal.offset_secs() == 0,
            !cal.local(),
    {
        Calendar { epoch_days: CivilDays(0), tz_offset_secs: 0, anchor: Anchor::Utc }
    }

    /// Starts virtual time at midnight, universal time, of the given date.
    pub fn with_epoch(self, year: i32, month: u32, day: u32) -> (cal: Calendar)
        ensures
            cal.epoch() == civil_to_days(year as int, month as int, (day as i32) as int),
            day <= i32::MAX ==> cal.epoch() == civil_to_days(year as int, month as int, day as int),
            cal.offset_secs() == self.offset_secs(),
            !cal.local(),
    {
        Calendar {
            epoch_days: CivilDays(days_from_civil(year, month, day)),
            tz_offset_secs: self.tz_offset_secs,
            anchor: Anchor::Utc,
        }
    }

    /// Starts virtual time at midnight of the given date in the calendar's
    /// own zone.
    pub fn with_epoch_local(self, y: i32, m: u32, d: u32) -> (cal: Calendar)
        ensures
            cal.epoch() == civil_to_days(y as int, m as int, (d as i32) as int),
            d <= i32::MAX ==> cal.epoch() == civil_to_days(y as int, m as int, d as int),
            cal.offset_secs() == self.offset_secs(),
            cal.local(),
    {
        Calendar {
            epoch_days: CivilDays(days_from_civil(y, m, d)),
            tz_offset_secs: self.tz_offset_secs,
            anchor: Anchor::Local,
        }
    }

    /// Sets the calendar's zone to a fixed offset from universal time in
    /// seconds: three hours behind is -10800.
    pub fn with_tz_offset_secs(self, offset: i32) -> (cal: Calendar)
        ensures
            cal.epoch() == self.epoch(),
            cal.offset_secs() == offset,
            cal.local() == self.local(),
    {
        proof {
            use_type_invariant(&self);
        }
        Calendar { epoch_days: self.epoch_days, tz_offset_secs: offset, anchor: self.anchor }
    }

    /// The year, month, day, hour, minute, second and millisecond of the
    /// instant `t` in the calendar's zone. From 1 March of year zero on the
    /// first three are the date of the day on which `t` falls; a year that
    /// does not fit in 32 bits is cut to its low 32 bits.
    pub fn to_civil(&self, t: VInstant) -> (fields: (i32, u32, u32, u32, u32, u32, u32))
        ensures
            fields == self.fields_at(t),
            1 <= fields.1 <= 12,
            1 <= fields.2 <= 31,
            fields.3 < 24,
            fields.4 < 60,
            fields.5 < 60,
            fields.6 < 1000,
            -719_468 <= self.day_at(t) <= 784_351_576_776 ==> fields.0 == days_to_civil(
                self.day_at(t),
            ).0,
    {
        proof {
            use_type_invariant(self);
        }
        let whole: u64 = t.0 / 1_000_000_000;
        let sub_ns: u64 = t.0 % 1_000_000_000;
        let total_s: i64 = match self.anchor {
            Anchor::Utc => whole as i64 + self.tz_offset_secs as i64,
            Anchor::Local => whole as i64,
        };
        let days: i64 = if total_s % 86_400 < 0 { total_s / 86_400 - 1 } else { total_s / 86_400 };
        let sod: i64 = total_s - days * 86_400;
        assert(days == self.seconds_at(t) / 86_400);
        assert(sod == self.seconds_at(t) % 86_400);
        let (year, month, dom) = civil_from_days(self.epoch_days.0 + days);
        let hour: u32 = (sod / 3600) as u32;
        let min: u32 = ((sod % 3600) / 60) as u32;
        let sec: u32 = (sod % 60) as u32;
        let millis: u32 = (sub_ns / 1_000_000) as u32;
        (year, month, dom, hour, min, sec, millis)
    }

    /// The instant `t` as text: `YYYY-MM-DDTHH:MM:SS.mmm+HH:MM`, the date
    /// and time in the calendar's zone and then the zone's offset, with `-`
    /// before the offset where it is negative.
    pub fn format(&self, t: VInstant) -> (text: String)
        ensures
            text@ == civil_text(self.fields_at(t), self.offset_secs()),
    {
        let (y, mo, d, h, mi, s, ms) = self.to_civil(t);
        let negative: bool = self.tz_offset_secs < 0;
        let off: u32 = magnitude(self.tz_offset_secs);
        let off_h: u32 = off / 3600;
        let off_m: u32 = (off % 3600) / 60;
        let mut out = String::new();
        push_signed_padded(&mut out, y, 4);
        out.push('-');
        push_padded(&mut out, mo as u64, 2);
        out.push('-');
        push_padded(&mut out, d as u64, 2);
        out.push('T');
        push_padded(&mut out, h as u64, 2);
        out.push(':');
        push_padded(&mut out, mi as u64, 2);
        out.push(':');
        push_padded(&mut out, s as u64, 2);
        out.push('.');
        push_padded(&mut out, ms as u64, 3);
        out.push(if negative { '-' } else { '+' });
        push_padded(&mut out, off_h as u64, 2);
        out.push(':');
        push_padded(&mut out, off_m as u64, 2);
        assert(out@ =~= civil_text(self.fields_at(t), self.offset_secs()));
        out
    }

    /// The text of [`Calendar::format`] in a buffer of 32 bytes, for callers
    /// that hand it on without a heap; nothing where the text is longer,
    /// which it is for years and offsets of more digits than four and two.
    pub fn format_small(&self, t: VInstant) -> (text: Option<heapless::String<32>>)
        ensures
            text is Some <==> civil_text(self.fields_at(t), self.offset_secs()).len() <= 32,
            text matches Some(small) ==> small_text(small) == civil_text(
                self.fields_at(t),
                self.offset_secs(),
            ),
    {
        let long = self.format(t);
        let mut small = small_new();
        proof {
            lemma_civil_text_is_ascii(self.fields_at(t), self.offset_secs());
            vstd::utf8::is_ascii_chars_encode_utf8(long@);
            assert(small_text(small) =~= Seq::<char>::empty());
            assert(encode_utf8(small_text(small)).len() == 0);
        }
        if small_push_str(&mut small, long.as_str()) {
            assert(small_text(small) =~= long@);
            Some(small)
        } else {
            None
        }
    }
}

impl Default for Calendar {
    /// A calendar that starts on 1 January 1970 in universal time.
    fn default() -> (cal: Calendar)
        ensures
            cal.epoch() == 0,
            cal.offset_secs() == 0,
            !cal.local(),
    {
        Calendar { epoch_days: CivilDays(0), tz_offset_secs: 0, anchor: Anchor::Utc }
    }
}

} // verus!
