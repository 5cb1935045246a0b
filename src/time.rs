//! Local wall-clock timestamps as written in the log, and their resolution
//! to instants.

use vstd::prelude::*;

verus! {

/// A local date and time as written in a log header, without a zone offset.
#[derive(Debug, Clone, Copy, PartialEq, Eq, Structural)]
pub struct LocalDateTime {
    pub year: u16,
    pub month: u8,
    pub day: u8,
    pub hour: u8,
    pub minute: u8,
    pub second: u8,
}

/// A log timestamp: the local time as written, and the instant it stands for
/// in seconds since the Unix epoch.
#[derive(Debug, Clone, Copy, PartialEq, Eq, Structural)]
pub struct Timestamp {
    pub local: LocalDateTime,
    pub unix_seconds: i64,
}

pub open spec fn is_leap_year(y: int) -> bool {
    (y % 4 == 0 && y % 100 != 0) || y % 400 == 0
}

pub open spec fn days_in_month(y: int, m: int) -> int {
    if m == 2 {
        if is_leap_year(y) {
            29
        } else {
            28
        }
    } else if m == 4 || m == 6 || m == 9 || m == 11 {
        30
    } else {
        31
    }
}

/// Days from 1970-01-01 to the given proleptic Gregorian date.
pub open spec fn days_from_civil(y: int, m: int, d: int) -> int {
    let yy = if m <= 2 {
        y - 1
    } else {
        y
    };
    let era = yy / 400;
    let yoe = yy - era * 400;
    let mp = if m > 2 {
        m - 3
    } else {
        m + 9
    };
    let doy = (153 * mp + 2) / 5 + d - 1;
    let doe = yoe * 365 + yoe / 4 - yoe / 100 + doy;
    era * 146097 + doe - 719468
}

impl LocalDateTime {
    /// A real calendar date and a time of day.
    pub open spec fn is_valid(&self) -> bool {
        1 <= self.month <= 12 && 1 <= self.day <= days_in_month(self.year as int, self.month as int)
            && self.hour < 24 && self.minute < 60 && self.second < 60
    }

    /// Seconds since the epoch if this local time were read as UTC.
    pub open spec fn naive_seconds(&self) -> int {
        days_from_civil(self.year as int, self.month as int, self.day as int) * 86400 + self.hour
            * 3600 + self.minute * 60 + self.second
    }

    pub fn is_valid_exec(&self) -> (r: bool)
        ensures
            r == self.is_valid(),
    {
        if self.month < 1 || self.month > 12 || self.day < 1 {
            return false;
        }
        let y = self.year;
        let leap = (y % 4 == 0 && y % 100 != 0) || y % 400 == 0;
        let dim: u8 = if self.month == 2 {
            if leap {
                29
            } else {
                28
            }
        } else if self.month == 4 || self.month == 6 || self.month == 9 || self.month == 11 {
            30
        } else {
            31
        };
        self.day <= dim && self.hour < 24 && self.minute < 60 && self.second < 60
    }
}

/// Relies on chrono's `NaiveDate::from_ymd_opt`, `NaiveDate::and_hms_opt`,
/// `Local::from_local_datetime` and `MappedLocalTime::earliest`: the earliest
/// instant that the machine's time zone maps the local time to, or `None`
/// where that local time does not exist. chrono keeps every offset strictly
/// within one day.
#[verifier::external_body]
pub(crate) fn resolve_local(t: &LocalDateTime) -> (r: Option<i64>)
    requires
        t.is_valid(),
    ensures
        r matches Some(s) ==> t.naive_seconds() - 86400 < s < t.naive_seconds() + 86400,
{
    let date = chrono::NaiveDate::from_ymd_opt(t.year as i32, t.month as u32, t.day as u32)?;
    let naive = date.and_hms_opt(t.hour as u32, t.minute as u32, t.second as u32)?;
    chrono::TimeZone::from_local_datetime(&chrono::Local, &naive).earliest().map(|d| d.timestamp())
}

pub open spec fn is_digit(c: char) -> bool {
    '0' <= c && c <= '9'
}

pub open spec fn digit_value(c: char) -> int {
    c as int - '0' as int
}

/// The number written by the two ASCII digits at `s[i]`.
pub open spec fn two_digits(s: Seq<char>, i: int) -> int {
    digit_value(s[i]) * 10 + digit_value(s[i + 1])
}

/// The number written by the four ASCII digits at `s[i]`.
pub open spec fn four_digits(s: Seq<char>, i: int) -> int {
    two_digits(s, i) * 100 + two_digits(s, i + 2)
}

pub open spec fn digits_at(s: Seq<char>, i: int, n: int) -> bool {
    forall|k: int| i <= k < i + n ==> is_digit(#[trigger] s[k])
}

/// The shape `YYYY.MM.DD HH:MM:SS` at the start of `s`.
pub open spec fn timestamp_shape(s: Seq<char>) -> bool {
    s.len() >= 19 && digits_at(s, 0, 4) && s[4] == '.' && digits_at(s, 5, 2) && s[7] == '.'
        && digits_at(s, 8, 2) && s[10] == ' ' && digits_at(s, 11, 2) && s[13] == ':'
        && digits_at(s, 14, 2) && s[16] == ':' && digits_at(s, 17, 2)
}

/// The fields written at the start of `s`, read whatever their range.
pub open spec fn timestamp_fields(s: Seq<char>) -> LocalDateTime {
    LocalDateTime {
        year: four_digits(s, 0) as u16,
        month: two_digits(s, 5) as u8,
        day: two_digits(s, 8) as u8,
        hour: two_digits(s, 11) as u8,
        minute: two_digits(s, 14) as u8,
        second: two_digits(s, 17) as u8,
    }
}

/// The local time that starts `s`, where it has the right shape and names a
/// real date and time of day.
pub open spec fn timestamp_of(s: Seq<char>) -> Option<LocalDateTime> {
    if timestamp_shape(s) && timestamp_fields(s).is_valid() {
        Some(timestamp_fields(s))
    } else {
        None
    }
}

fn is_digit_char(c: char) -> (r: bool)
    ensures
        r == is_digit(c),
{
    '0' <= c && c <= '9'
}

fn read_two(s: &Vec<char>, i: usize) -> (r: u8)
    requires
        i + 2 <= s@.len(),
        digits_at(s@, i as int, 2),
    ensures
        r == two_digits(s@, i as int),
{
    let len: usize = s.len();
    assert(is_digit(s@[i as int]) && is_digit(s@[i + 1]));
    let hi = s[i] as u32 - '0' as u32;
    let lo = s[i + 1] as u32 - '0' as u32;
    (hi * 10 + lo) as u8
}

fn read_four(s: &Vec<char>, i: usize) -> (r: u16)
    requires
        i + 4 <= s@.len(),
        digits_at(s@, i as int, 4),
    ensures
        r == four_digits(s@, i as int),
{
    let len: usize = s.len();
    assert(digits_at(s@, i + 2, 2));
    let hi = read_two(s, i);
    let lo = read_two(s, i + 2);
    (hi as u16) * 100 + lo as u16
}

fn digits_at_exec(s: &Vec<char>, i: usize, n: usize) -> (r: bool)
    requires
        i + n <= s@.len(),
    ensures
        r == digits_at(s@, i as int, n as int),
{
    let len: usize = s.len();
    let mut k: usize = 0;
    while k < n
        invariant
            k <= n,
            i + n <= s@.len(),
            len == s@.len(),
            digits_at(s@, i as int, k as int),
        decreases n - k,
    {
        if !is_digit_char(s[i + k]) {
            return false;
        }
        k = k + 1;
    }
    true
}

/// The local time written at the start of `s`, if it has the shape
/// `YYYY.MM.DD HH:MM:SS` and names a real date and time of day.
pub fn parse_timestamp(s: &Vec<char>) -> (r: Option<LocalDateTime>)
    ensures
        r == timestamp_of(s@),
{
    if s.len() < 19 {
        return None;
    }
    let shape = digits_at_exec(s, 0, 4) && s[4] == '.' && digits_at_exec(s, 5, 2) && s[7] == '.'
        && digits_at_exec(s, 8, 2) && s[10] == ' ' && digits_at_exec(s, 11, 2) && s[13] == ':'
        && digits_at_exec(s, 14, 2) && s[16] == ':' && digits_at_exec(s, 17, 2);
    if !shape {
        return None;
    }
    let t = LocalDateTime {
        year: read_four(s, 0),
        month: read_two(s, 5),
        day: read_two(s, 8),
        hour: read_two(s, 11),
        minute: read_two(s, 14),
        second: read_two(s, 17),
    };
    assert(t == timestamp_fields(s@));
    if t.is_valid_exec() {
        Some(t)
    } else {
        None
    }
}

} // verus!
