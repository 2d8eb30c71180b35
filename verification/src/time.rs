//! Dates in certificates.

use vstd::prelude::*;

verus! {

/// A date and time of day in UTC.
#[derive(Clone, Copy, Debug, PartialEq, Eq, Structural)]
pub struct DateTime {
    pub year: u16,
    pub month: u8,
    pub day: u8,
    pub hour: u8,
    pub minutes: u8,
    pub seconds: u8,
}

/// The Gregorian calendar has a 29 February in the year.
pub open spec fn is_leap_year(year: int) -> bool {
    year % 4 == 0 && (year % 100 != 0 || year % 400 == 0)
}

/// The number of days of a month.
pub open spec fn days_in_month(year: int, month: int) -> int {
    if month == 2 {
        if is_leap_year(year) {
            29
        } else {
            28
        }
    } else if month == 4 || month == 6 || month == 9 || month == 11 {
        30
    } else {
        31
    }
}

/// The number of days of the year before the first of the month.
pub open spec fn days_before_month(year: int, month: int) -> int
    decreases month,
{
    if month <= 1 {
        0
    } else {
        days_before_month(year, month - 1) + days_in_month(year, month - 1)
    }
}

/// The number of days from the first of January 1970 to the first of January of
/// the year.
pub open spec fn days_before_year(year: int) -> int
    decreases year,
{
    if year <= 1970 {
        0
    } else {
        days_before_year(year - 1) + if is_leap_year(year - 1) {
            366int
        } else {
            365int
        }
    }
}

impl DateTime {
    /// The date exists, and lies in the years 1970 to 9999.
    pub open spec fn valid(self) -> bool {
        &&& 1970 <= self.year <= 9999
        &&& 1 <= self.month <= 12
        &&& 1 <= self.day <= days_in_month(self.year as int, self.month as int)
        &&& self.hour <= 23
        &&& self.minutes <= 59
        &&& self.seconds <= 59
    }

    /// The number of seconds since the start of 1970, leap seconds not counted.
    pub open spec fn unix_time(self) -> int {
        let days = days_before_year(self.year as int) + days_before_month(
            self.year as int,
            self.month as int,
        ) + (self.day - 1);
        days * 86400 + self.hour * 3600 + self.minutes * 60 + self.seconds
    }
}

/// One end of the period in which a certificate is valid.
#[derive(Clone, Copy, Debug, PartialEq, Eq, Structural)]
pub enum Time {
    /// A time written with a year of two digits.
    UtcTime(DateTime),
    /// A time written with a year of four digits.
    GeneralTime(DateTime),
}

impl Time {
    /// The date and time of day.
    pub open spec fn date_time(self) -> DateTime {
        match self {
            Time::UtcTime(dt) => dt,
            Time::GeneralTime(dt) => dt,
        }
    }

    /// The date exists and can be written in this form.
    pub open spec fn valid(self) -> bool {
        self.date_time().valid() && (self is UtcTime ==> self.date_time().year <= 2049)
    }
}

/// The bytes are decimal digits.
pub open spec fn all_digits(text: Seq<u8>) -> bool {
    forall|i: int| 0 <= i < text.len() ==> 0x30 <= #[trigger] text[i] <= 0x39
}

/// The number that the two digits at `i` write.
pub open spec fn two_digits(text: Seq<u8>, i: int) -> int {
    (text[i] - 0x30) * 10 + (text[i + 1] - 0x30)
}

/// The date and time that the ten digits of month, day, hour, minutes and
/// seconds at `i` write for the year.
pub open spec fn date_time_at(text: Seq<u8>, i: int, year: int) -> DateTime {
    DateTime {
        year: year as u16,
        month: two_digits(text, i) as u8,
        day: two_digits(text, i + 2) as u8,
        hour: two_digits(text, i + 4) as u8,
        minutes: two_digits(text, i + 6) as u8,
        seconds: two_digits(text, i + 8) as u8,
    }
}

/// The date that the content of a `UTCTime` writes as YYMMDDHHMMSSZ. Years from
/// 50 on are of the twentieth century.
pub open spec fn utc_time_value(value: Seq<u8>) -> Option<DateTime> {
    let yy = two_digits(value, 0);
    let dt = date_time_at(
        value,
        2,
        if yy >= 50 {
            1900 + yy
        } else {
            2000 + yy
        },
    );
    if value.len() == 13 && all_digits(value.take(12)) && value[12] == 0x5a && dt.valid() {
        Some(dt)
    } else {
        None
    }
}

/// The date that the content of a `GeneralizedTime` writes as YYYYMMDDHHMMSSZ.
pub open spec fn generalized_time_value(value: Seq<u8>) -> Option<DateTime> {
    let dt = date_time_at(value, 4, two_digits(value, 0) * 100 + two_digits(value, 2));
    if value.len() == 15 && all_digits(value.take(14)) && value[14] == 0x5a && dt.valid() {
        Some(dt)
    } else {
        None
    }
}

/// `der::asn1::UtcTime`, decoded from the content of an element, and its
/// `to_date_time`.
#[verifier::external_body]
pub(crate) fn read_utc_time(value: &[u8]) -> (r: Option<DateTime>)
    ensures
        r == utc_time_value(value@),
{
    let any = der::AnyRef::new(der::Tag::UtcTime, value).ok()?;
    let dt = any.decode_as::<der::asn1::UtcTime>().ok()?.to_date_time();
    Some(
        DateTime {
            year: dt.year(),
            month: dt.month(),
            day: dt.day(),
            hour: dt.hour(),
            minutes: dt.minutes(),
            seconds: dt.seconds(),
        },
    )
}

/// `der::asn1::GeneralizedTime`, decoded from the content of an element, and its
/// `to_date_time`.
#[verifier::external_body]
pub(crate) fn read_generalized_time(value: &[u8]) -> (r: Option<DateTime>)
    ensures
        r == generalized_time_value(value@),
{
    let any = der::AnyRef::new(der::Tag::GeneralizedTime, value).ok()?;
    let dt = any.decode_as::<der::asn1::GeneralizedTime>().ok()?.to_date_time();
    Some(
        DateTime {
            year: dt.year(),
            month: dt.month(),
            day: dt.day(),
            hour: dt.hour(),
            minutes: dt.minutes(),
            seconds: dt.seconds(),
        },
    )
}

/// `der::asn1::UtcTime::to_unix_duration`: the seconds from the start of 1970 to a
/// date that exists and is in the years up to 2049.
#[verifier::external_body]
fn utc_time_seconds(dt: DateTime) -> (r: u64)
    requires
        dt.valid(),
        dt.year <= 2049,
    ensures
        r == dt.unix_time(),
{
    let date = der::DateTime::new(dt.year, dt.month, dt.day, dt.hour, dt.minutes, dt.seconds);
    let time = der::asn1::UtcTime::from_date_time(date.unwrap()).unwrap();
    time.to_unix_duration().as_secs()
}

/// `der::asn1::GeneralizedTime::to_unix_duration`: the seconds from the start of
/// 1970 to a date that exists.
#[verifier::external_body]
fn generalized_time_seconds(dt: DateTime) -> (r: u64)
    requires
        dt.valid(),
    ensures
        r == dt.unix_time(),
{
    let date = der::DateTime::new(dt.year, dt.month, dt.day, dt.hour, dt.minutes, dt.seconds);
    let time = der::asn1::GeneralizedTime::from_date_time(date.unwrap());
    time.to_unix_duration().as_secs()
}

/// The time as seconds since the start of 1970.
pub fn get_cert_time(time: Time) -> (r: u64)
    requires
        time.valid(),
    ensures
        r == time.date_time().unix_time(),
{
    match time {
        Time::UtcTime(utc_time) => utc_time_seconds(utc_time),
        Time::GeneralTime(generalized_time) => generalized_time_seconds(generalized_time),
    }
}

} // verus!
