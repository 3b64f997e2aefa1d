use crate::decimal::{
    all_digits, digits_value, fixed_digits, is_digit, lemma_fixed_digits, pow10,
};
use vstd::prelude::*;

verus! {

/// A date and a time of day as a calendar and a wall clock show them, with no
/// word on where on earth. `nanos` from 1,000,000,000 up stands for a leap
/// second, which is written as second 60.
#[derive(Clone, Copy, Debug, PartialEq, Eq, Structural)]
pub struct LocalTime {
    pub year: i32,
    pub month: u32,
    pub day: u32,
    pub hour: u32,
    pub minute: u32,
    pub second: u32,
    pub nanos: u32,
}

/// A local time together with the offset of its place, in seconds east of UTC.
#[derive(Clone, Copy, Debug, PartialEq, Eq, Structural)]
pub struct Timestamp {
    pub local: LocalTime,
    pub offset: i32,
}

/// Whether `year` is a leap year of the Gregorian calendar.
pub open spec fn is_leap_year(year: int) -> bool {
    year % 4 == 0 && (year % 100 != 0 || year % 400 == 0)
}

/// The number of days of the month `month` in the year `year`.
pub open spec fn days_in_month(year: int, month: int) -> int {
    if month == 2 {
        if is_leap_year(year) {
            29
        } else {
            28
        }
    } else if month == 4 || month == 6 || month == 9 || month == 11 {
        30
    } else {
        31
    }
}

/// Whether the three numbers name a day of the Gregorian calendar in a year
/// that four digits can write.
pub open spec fn valid_date(year: int, month: int, day: int) -> bool {
    0 <= year <= 9999 && 1 <= month <= 12 && 1 <= day <= days_in_month(year, month)
}

/// Whether the four numbers name a time of day. A leap second is the second
/// after :59 only.
pub open spec fn valid_time(hour: int, minute: int, second: int, nanos: int) -> bool {
    0 <= hour <= 23 && 0 <= minute <= 59 && 0 <= second <= 59 && 0 <= nanos < 2_000_000_000 && (
    nanos >= 1_000_000_000 ==> second == 59)
}

impl LocalTime {
    /// Whether the fields name a day and a time of day that exist.
    pub open spec fn wf(self) -> bool {
        valid_date(self.year as int, self.month as int, self.day as int) && valid_time(
            self.hour as int,
            self.minute as int,
            self.second as int,
            self.nanos as int,
        )
    }

    /// The same time with the fraction of the second cut off. A leap second
    /// stays one.
    pub open spec fn spec_whole_second(self) -> LocalTime {
        LocalTime {
            nanos: if self.nanos >= 1_000_000_000 {
                1_000_000_000u32
            } else {
                0u32
            },
            ..self
        }
    }

    /// The same time with the fraction of the second cut off.
    pub fn whole_second(&self) -> (r: LocalTime)
        ensures
            r == self.spec_whole_second(),
    {
        LocalTime {
            nanos: if self.nanos >= 1_000_000_000 {
                1_000_000_000
            } else {
                0
            },
            ..*self
        }
    }

    /// Whether the fields name a day and a time that exist.
    pub fn is_valid(&self) -> (b: bool)
        ensures
            b == self.wf(),
    {
        if self.year < 0 || self.year > 9999 || self.month < 1 || self.month > 12 {
            return false;
        }
        let leap = self.year % 4 == 0 && (self.year % 100 != 0 || self.year % 400 == 0);
        let days: u32 = if self.month == 2 {
            if leap {
                29
            } else {
                28
            }
        } else if self.month == 4 || self.month == 6 || self.month == 9 || self.month == 11 {
            30
        } else {
            31
        };
        self.day >= 1 && self.day <= days && self.hour <= 23 && self.minute <= 59 && self.second
            <= 59 && self.nanos < 2_000_000_000 && (self.nanos < 1_000_000_000 || self.second
            == 59)
    }
}

impl Timestamp {
    /// Whether the local time is one that exists and the offset is less than
    /// a day.
    pub open spec fn wf(self) -> bool {
        self.local.wf() && -86_400 < self.offset < 86_400
    }

    /// Whether the fields name a local time that exists, and an offset of
    /// less than a day.
    pub fn is_valid(&self) -> (b: bool)
        ensures
            b == self.wf(),
    {
        self.local.is_valid() && -86_400 < self.offset && self.offset < 86_400
    }

    /// The timestamp with these fields, where they name one.
    pub fn new(
        year: i32,
        month: u32,
        day: u32,
        hour: u32,
        minute: u32,
        second: u32,
        nanos: u32,
        offset: i32,
    ) -> (r: Option<Timestamp>)
        ensures
            r == (if (Timestamp {
                local: LocalTime { year, month, day, hour, minute, second, nanos },
                offset,
            }).wf() {
                Some(
                    Timestamp {
                        local: LocalTime { year, month, day, hour, minute, second, nanos },
                        offset,
                    },
                )
            } else {
                None
            }),
    {
        let t = Timestamp {
            local: LocalTime { year, month, day, hour, minute, second, nanos },
            offset,
        };
        if t.is_valid() {
            Some(t)
        } else {
            None
        }
    }
}

/// The second as it is written: a leap second shows as 60.
pub open spec fn written_second(l: LocalTime) -> nat {
    (l.second + l.nanos / 1_000_000_000) as nat
}

/// The text `YYYYMMDD_HHMMSS` of a local time.
pub open spec fn stamp_of(l: LocalTime) -> Seq<char> {
    fixed_digits(l.year as nat, 4) + fixed_digits(l.month as nat, 2) + fixed_digits(
        l.day as nat,
        2,
    ) + seq!['_'] + fixed_digits(l.hour as nat, 2) + fixed_digits(l.minute as nat, 2)
        + fixed_digits(written_second(l), 2)
}

/// Whether `text` is eight digits, an underscore and six digits.
pub open spec fn stamp_shaped(text: Seq<char>) -> bool {
    text.len() == 15 && all_digits(text.subrange(0, 8)) && text[8] == '_' && all_digits(
        text.subrange(9, 15),
    )
}

/// The local time that a text of the shape `YYYYMMDD_HHMMSS` names, where its
/// numbers name one. Second 60 is read as a leap second.
pub open spec fn stamp_value(text: Seq<char>) -> Option<LocalTime> {
    let year = digits_value(text.subrange(0, 4));
    let month = digits_value(text.subrange(4, 6));
    let day = digits_value(text.subrange(6, 8));
    let hour = digits_value(text.subrange(9, 11));
    let minute = digits_value(text.subrange(11, 13));
    let second = digits_value(text.subrange(13, 15));
    if valid_date(year as int, month as int, day as int) && hour <= 23 && minute <= 59 && second
        <= 60 {
        Some(
            LocalTime {
                year: year as i32,
                month: month as u32,
                day: day as u32,
                hour: hour as u32,
                minute: minute as u32,
                second: if second == 60 {
                    59u32
                } else {
                    second as u32
                },
                nanos: if second == 60 {
                    1_000_000_000u32
                } else {
                    0u32
                },
            },
        )
    } else {
        None
    }
}

/// The fraction of a second as RFC 3339 text: nothing, or a point and three,
/// six or nine digits, the fewest that lose nothing.
pub open spec fn fraction_text(nanos: nat) -> Seq<char> {
    if nanos == 0 {
        Seq::empty()
    } else if nanos % 1_000_000 == 0 {
        seq!['.'] + fixed_digits(nanos / 1_000_000, 3)
    } else if nanos % 1_000 == 0 {
        seq!['.'] + fixed_digits(nanos / 1_000, 6)
    } else {
        seq!['.'] + fixed_digits(nanos, 9)
    }
}

/// The minutes of an offset as they are written: the seconds are rounded to
/// the nearest minute.
pub open spec fn offset_minutes(offset: int) -> nat {
    let size = if offset < 0 {
        -offset
    } else {
        offset
    };
    ((size + 30) / 60) as nat
}

/// An offset as RFC 3339 text: a sign, two digits of hours, a colon and two
/// digits of minutes.
pub open spec fn offset_text(offset: int) -> Seq<char> {
    seq![if offset < 0 {
        '-'
    } else {
        '+'
    }] + fixed_digits(offset_minutes(offset) / 60, 2) + seq![':'] + fixed_digits(
        offset_minutes(offset) % 60,
        2,
    )
}

/// A timestamp as RFC 3339 text with its offset.
pub open spec fn rfc3339_of(t: Timestamp) -> Seq<char> {
    fixed_digits(t.local.year as nat, 4) + seq!['-'] + fixed_digits(t.local.month as nat, 2)
        + seq!['-'] + fixed_digits(t.local.day as nat, 2) + seq!['T'] + fixed_digits(
        t.local.hour as nat,
        2,
    ) + seq![':'] + fixed_digits(t.local.minute as nat, 2) + seq![':'] + fixed_digits(
        written_second(t.local),
        2,
    ) + fraction_text((t.local.nanos % 1_000_000_000) as nat) + offset_text(t.offset as int)
}

/// `NaiveDateTime::format` of chrono with the pattern `%Y%m%d_%H%M%S`, and
/// `to_string` on what it gives. For a year from 0 to 9999 chrono writes the
/// year in four digits and each other field in two, all with zeros in front,
/// and writes a leap second as 60.
#[verifier::external_body]
pub(crate) fn stamp_text(l: &LocalTime) -> (r: String)
    requires
        l.wf(),
    ensures
        r@ == stamp_of(*l),
{
    chrono::NaiveDate::from_ymd_opt(l.year, l.month, l.day)
        .unwrap()
        .and_hms_nano_opt(l.hour, l.minute, l.second, l.nanos)
        .unwrap()
        .format("%Y%m%d_%H%M%S")
        .to_string()
}

/// `NaiveDateTime::parse_from_str` of chrono with the pattern
/// `%Y%m%d_%H%M%S`. On eight digits, an underscore and six digits chrono
/// reads four digits of year and two of each other field, and accepts them
/// where they name a day of the calendar, an hour up to 23, a minute up to 59
/// and a second up to 60; second 60 comes back as second 59 with the nanoseconds
/// of a leap second.
#[verifier::external_body]
pub(crate) fn parse_stamp(text: &str) -> (r: Option<LocalTime>)
    requires
        stamp_shaped(text@),
    ensures
        r == stamp_value(text@),
{
    let n = match chrono::NaiveDateTime::parse_from_str(text, "%Y%m%d_%H%M%S") {
        Ok(n) => n,
        Err(_) => return None,
    };
    let (year, month) = (chrono::Datelike::year(&n), chrono::Datelike::month(&n));
    let (day, hour) = (chrono::Datelike::day(&n), chrono::Timelike::hour(&n));
    let (minute, second) = (chrono::Timelike::minute(&n), chrono::Timelike::second(&n));
    let nanos = chrono::Timelike::nanosecond(&n);
    Some(LocalTime { year, month, day, hour, minute, second, nanos })
}

/// `DateTime::to_rfc3339` of chrono, on the date and time of day `t.local`
/// at the fixed offset `t.offset`. Chrono writes `YYYY-MM-DDTHH:MM:SS`, the
/// fraction of the second in three, six or nine digits where there is one,
/// and the offset as sign, hours, colon and minutes, rounded to the minute.
#[verifier::external_body]
pub(crate) fn rfc3339_text(t: &Timestamp) -> (r: String)
    requires
        t.wf(),
    ensures
        r@ == rfc3339_of(*t),
{
    chrono::NaiveDate::from_ymd_opt(t.local.year, t.local.month, t.local.day)
        .unwrap()
        .and_hms_nano_opt(t.local.hour, t.local.minute, t.local.second, t.local.nanos)
        .unwrap()
        .and_local_timezone(chrono::FixedOffset::east_opt(t.offset).unwrap())
        .unwrap()
        .to_rfc3339()
}

/// Digits written in a field of `w` places are `w` digits that read back as
/// the number.
pub proof fn lemma_field(n: nat, w: nat)
    requires
        n < pow10(w),
    ensures
        fixed_digits(n, w).len() == w,
        all_digits(fixed_digits(n, w)),
        digits_value(fixed_digits(n, w)) == n,
        forall|i: int| 0 <= i < w ==> is_digit(#[trigger] fixed_digits(n, w)[i]),
{
    lemma_fixed_digits(n, w);
}

/// The powers of ten that the fields of a time go up to.
pub proof fn lemma_pow10_values()
    ensures
        pow10(2) == 100,
        pow10(3) == 1_000,
        pow10(4) == 10_000,
        pow10(6) == 1_000_000,
        pow10(9) == 1_000_000_000,
{
    reveal_with_fuel(pow10, 10);
}

/// The stamp of a local time has the shape of a stamp and names that time,
/// to the second.
pub proof fn lemma_stamp_round_trip(l: LocalTime)
    requires
        l.wf(),
    ensures
        stamp_shaped(stamp_of(l)),
        stamp_value(stamp_of(l)) == Some(l.spec_whole_second()),
        forall|i: int| 0 <= i < 15 && i != 8 ==> is_digit(#[trigger] stamp_of(l)[i]),
{
    lemma_pow10_values();
    let text = stamp_of(l);
    let y = fixed_digits(l.year as nat, 4);
    let mo = fixed_digits(l.month as nat, 2);
    let d = fixed_digits(l.day as nat, 2);
    let h = fixed_digits(l.hour as nat, 2);
    let mi = fixed_digits(l.minute as nat, 2);
    let sec = fixed_digits(written_second(l), 2);
    lemma_field(l.year as nat, 4);
    lemma_field(l.month as nat, 2);
    lemma_field(l.day as nat, 2);
    lemma_field(l.hour as nat, 2);
    lemma_field(l.minute as nat, 2);
    lemma_field(written_second(l), 2);
    assert(text.len() == 15);
    assert(text.subrange(0, 4) =~= y);
    assert(text.subrange(4, 6) =~= mo);
    assert(text.subrange(6, 8) =~= d);
    assert(text.subrange(9, 11) =~= h);
    assert(text.subrange(11, 13) =~= mi);
    assert(text.subrange(13, 15) =~= sec);
    assert(text[8] == '_');
    assert forall|i: int| 0 <= i < 15 && i != 8 implies is_digit(#[trigger] text[i]) by {
        if i < 4 {
            assert(text[i] == y[i]);
        } else if i < 6 {
            assert(text[i] == mo[i - 4]);
        } else if i < 8 {
            assert(text[i] == d[i - 6]);
        } else if i < 11 {
            assert(text[i] == h[i - 9]);
        } else if i < 13 {
            assert(text[i] == mi[i - 11]);
        } else {
            assert(text[i] == sec[i - 13]);
        }
    }
    assert(all_digits(text.subrange(0, 8))) by {
        assert forall|i: int| 0 <= i < 8 implies is_digit(#[trigger] text.subrange(0, 8)[i]) by {
            assert(text.subrange(0, 8)[i] == text[i]);
        }
    }
    assert(all_digits(text.subrange(9, 15))) by {
        assert forall|i: int| 0 <= i < 6 implies is_digit(#[trigger] text.subrange(9, 15)[i]) by {
            assert(text.subrange(9, 15)[i] == text[i + 9]);
        }
    }
    assert(stamp_value(text).unwrap() == l.spec_whole_second());
}

/// The number that the digits of `text` from `from` up to `to` write.
pub open spec fn field(text: Seq<char>, from: int, to: int) -> nat {
    digits_value(text.subrange(from, to))
}

/// The timestamp whose fields stand at their places in an RFC 3339 text of
/// 25, 29, 32 or 35 characters.
pub open spec fn rfc3339_fields(text: Seq<char>) -> Timestamp {
    let n = text.len() as int;
    let second = field(text, 17, 19);
    let fraction: nat = if n == 29 {
        field(text, 20, 23) * 1_000_000
    } else if n == 32 {
        field(text, 20, 26) * 1_000
    } else if n == 35 {
        field(text, 20, 29)
    } else {
        0
    };
    let size = field(text, n - 5, n - 3) * 3600 + field(text, n - 2, n) * 60;
    Timestamp {
        local: LocalTime {
            year: field(text, 0, 4) as i32,
            month: field(text, 5, 7) as u32,
            day: field(text, 8, 10) as u32,
            hour: field(text, 11, 13) as u32,
            minute: field(text, 14, 16) as u32,
            second: if second == 60 {
                59u32
            } else {
                second as u32
            },
            nanos: (fraction + if second == 60 {
                1_000_000_000nat
            } else {
                0nat
            }) as u32,
        },
        offset: (if text[n - 6] == '-' {
            -(size as int)
        } else {
            size as int
        }) as i32,
    }
}

/// Whether `text` is exactly what a valid timestamp with an offset of whole
/// minutes is written as.
pub open spec fn is_canonical_rfc3339(text: Seq<char>) -> bool {
    (text.len() == 25 || text.len() == 29 || text.len() == 32 || text.len() == 35)
        && rfc3339_fields(text).wf() && rfc3339_fields(text).offset % 60 == 0 && rfc3339_of(
        rfc3339_fields(text),
    ) == text
}

/// What `DateTime::parse_from_rfc3339` of chrono gives for a text that is not
/// in the canonical form: nothing, or year, month, day, hour, minute, second,
/// nanoseconds and offset.
pub uninterp spec fn rfc3339_other(text: Seq<char>) -> Option<
    (int, int, int, int, int, int, int, int),
>;

/// The timestamp with the given fields.
pub open spec fn timestamp_from(fields: Option<(int, int, int, int, int, int, int, int)>) -> Option<
    Timestamp,
> {
    match fields {
        Some(f) => Some(
            Timestamp {
                local: LocalTime {
                    year: f.0 as i32,
                    month: f.1 as u32,
                    day: f.2 as u32,
                    hour: f.3 as u32,
                    minute: f.4 as u32,
                    second: f.5 as u32,
                    nanos: f.6 as u32,
                },
                offset: f.7 as i32,
            },
        ),
        None => None,
    }
}

/// The timestamp that an RFC 3339 text names, where it names one.
pub open spec fn rfc3339_value(text: Seq<char>) -> Option<Timestamp> {
    if is_canonical_rfc3339(text) {
        Some(rfc3339_fields(text))
    } else {
        timestamp_from(rfc3339_other(text))
    }
}

/// `DateTime::parse_from_rfc3339` of chrono; the fields are those of the
/// local date and time of day, and the offset is the one in the text. On a
/// text in the canonical form chrono reads each field at its place. Whatever
/// it accepts has a year of four digits, a day that exists, a time of day
/// that exists and an offset of less than a day.
#[verifier::external_body]
pub(crate) fn parse_rfc3339(text: &str) -> (r: Option<Timestamp>)
    ensures
        is_canonical_rfc3339(text@) ==> r == Some(rfc3339_fields(text@)),
        !is_canonical_rfc3339(text@) ==> r == timestamp_from(rfc3339_other(text@)),
        r matches Some(t) ==> t.wf(),
{
    let d = match chrono::DateTime::parse_from_rfc3339(text) {
        Ok(d) => d,
        Err(_) => return None,
    };
    let (year, month) = (chrono::Datelike::year(&d), chrono::Datelike::month(&d));
    let (day, hour) = (chrono::Datelike::day(&d), chrono::Timelike::hour(&d));
    let (minute, second) = (chrono::Timelike::minute(&d), chrono::Timelike::second(&d));
    let nanos = chrono::Timelike::nanosecond(&d);
    let local = LocalTime { year, month, day, hour, minute, second, nanos };
    Some(Timestamp { local, offset: d.offset().local_minus_utc() })
}

/// The first nineteen characters of an RFC 3339 text: date, `T` and time of
/// day to the second.
pub open spec fn rfc3339_head(l: LocalTime) -> Seq<char> {
    fixed_digits(l.year as nat, 4) + seq!['-'] + fixed_digits(l.month as nat, 2) + seq!['-']
        + fixed_digits(l.day as nat, 2) + seq!['T'] + fixed_digits(l.hour as nat, 2) + seq![':']
        + fixed_digits(l.minute as nat, 2) + seq![':'] + fixed_digits(written_second(l), 2)
}

/// An RFC 3339 text is its head, the fraction of the second and the offset.
pub proof fn lemma_rfc3339_parts(t: Timestamp)
    requires
        t.wf(),
    ensures
        rfc3339_of(t) == rfc3339_head(t.local) + fraction_text(
            (t.local.nanos % 1_000_000_000) as nat,
        ) + offset_text(t.offset as int),
        rfc3339_head(t.local).len() == 19,
        offset_text(t.offset as int).len() == 6,
        fraction_text((t.local.nanos % 1_000_000_000) as nat).len() == 0 || fraction_text(
            (t.local.nanos % 1_000_000_000) as nat,
        ).len() == 4 || fraction_text((t.local.nanos % 1_000_000_000) as nat).len() == 7
            || fraction_text((t.local.nanos % 1_000_000_000) as nat).len() == 10,
{
    let l = t.local;
    lemma_fixed_digits(l.year as nat, 4);
    lemma_fixed_digits(l.month as nat, 2);
    lemma_fixed_digits(l.day as nat, 2);
    lemma_fixed_digits(l.hour as nat, 2);
    lemma_fixed_digits(l.minute as nat, 2);
    lemma_fixed_digits(written_second(l), 2);
    let f = (l.nanos % 1_000_000_000) as nat;
    lemma_fixed_digits(f / 1_000_000, 3);
    lemma_fixed_digits(f / 1_000, 6);
    lemma_fixed_digits(f, 9);
    let m = offset_minutes(t.offset as int);
    lemma_fixed_digits(m / 60, 2);
    lemma_fixed_digits(m % 60, 2);
    assert(rfc3339_of(t) =~= rfc3339_head(t.local) + fraction_text(f) + offset_text(
        t.offset as int,
    ));
}

/// The head of an RFC 3339 text holds each field at its place.
pub proof fn lemma_rfc3339_head(l: LocalTime)
    requires
        l.wf(),
    ensures
        field(rfc3339_head(l), 0, 4) == l.year,
        field(rfc3339_head(l), 5, 7) == l.month,
        field(rfc3339_head(l), 8, 10) == l.day,
        field(rfc3339_head(l), 11, 13) == l.hour,
        field(rfc3339_head(l), 14, 16) == l.minute,
        field(rfc3339_head(l), 17, 19) == written_second(l),
        rfc3339_head(l).len() == 19,
        forall|i: int|
            0 <= i < 19 ==> is_digit(#[trigger] rfc3339_head(l)[i]) || rfc3339_head(l)[i] == '-'
                || rfc3339_head(l)[i] == 'T' || rfc3339_head(l)[i] == ':',
{
    lemma_pow10_values();
    let text = rfc3339_head(l);
    lemma_field(l.year as nat, 4);
    lemma_field(l.month as nat, 2);
    lemma_field(l.day as nat, 2);
    lemma_field(l.hour as nat, 2);
    lemma_field(l.minute as nat, 2);
    lemma_field(written_second(l), 2);
    assert(text.subrange(0, 4) =~= fixed_digits(l.year as nat, 4));
    assert(text.subrange(5, 7) =~= fixed_digits(l.month as nat, 2));
    assert(text.subrange(8, 10) =~= fixed_digits(l.day as nat, 2));
    assert(text.subrange(11, 13) =~= fixed_digits(l.hour as nat, 2));
    assert(text.subrange(14, 16) =~= fixed_digits(l.minute as nat, 2));
    assert(text.subrange(17, 19) =~= fixed_digits(written_second(l), 2));
    assert forall|i: int| 0 <= i < 19 implies is_digit(#[trigger] text[i]) || text[i] == '-'
        || text[i] == 'T' || text[i] == ':' by {
        if i < 4 {
            assert(text[i] == fixed_digits(l.year as nat, 4)[i]);
        } else if 5 <= i < 7 {
            assert(text[i] == fixed_digits(l.month as nat, 2)[i - 5]);
        } else if 8 <= i < 10 {
            assert(text[i] == fixed_digits(l.day as nat, 2)[i - 8]);
        } else if 11 <= i < 13 {
            assert(text[i] == fixed_digits(l.hour as nat, 2)[i - 11]);
        } else if 14 <= i < 16 {
            assert(text[i] == fixed_digits(l.minute as nat, 2)[i - 14]);
        } else if 17 <= i < 19 {
            assert(text[i] == fixed_digits(written_second(l), 2)[i - 17]);
        }
    }
}

/// A character that an RFC 3339 text can hold.
pub open spec fn is_rfc3339_char(c: char) -> bool {
    is_digit(c) || c == '-' || c == 'T' || c == ':' || c == '.' || c == '+'
}

/// The fraction of a second reads back as the nanoseconds.
pub proof fn lemma_fraction(f: nat)
    requires
        f < 1_000_000_000,
    ensures
        f == 0 ==> fraction_text(f).len() == 0,
        f != 0 && f % 1_000_000 == 0 ==> fraction_text(f).len() == 4 && field(
            fraction_text(f),
            1,
            4,
        ) * 1_000_000 == f,
        f % 1_000_000 != 0 && f % 1_000 == 0 ==> fraction_text(f).len() == 7 && field(
            fraction_text(f),
            1,
            7,
        ) * 1_000 == f,
        f % 1_000 != 0 ==> fraction_text(f).len() == 10 && field(fraction_text(f), 1, 10) == f,
        forall|i: int|
            0 <= i < fraction_text(f).len() ==> is_rfc3339_char(#[trigger] fraction_text(f)[i]),
{
    lemma_pow10_values();
    let text = fraction_text(f);
    if f == 0 {
    } else if f % 1_000_000 == 0 {
        lemma_field(f / 1_000_000, 3);
        assert(text.subrange(1, 4) =~= fixed_digits(f / 1_000_000, 3));
        assert forall|i: int| 0 <= i < text.len() implies is_rfc3339_char(#[trigger] text[i]) by {
            if i > 0 {
                assert(text[i] == fixed_digits(f / 1_000_000, 3)[i - 1]);
            }
        }
    } else if f % 1_000 == 0 {
        lemma_field(f / 1_000, 6);
        assert(text.subrange(1, 7) =~= fixed_digits(f / 1_000, 6));
        assert forall|i: int| 0 <= i < text.len() implies is_rfc3339_char(#[trigger] text[i]) by {
            if i > 0 {
                assert(text[i] == fixed_digits(f / 1_000, 6)[i - 1]);
            }
        }
    } else {
        lemma_field(f, 9);
        assert(text.subrange(1, 10) =~= fixed_digits(f, 9));
        assert forall|i: int| 0 <= i < text.len() implies is_rfc3339_char(#[trigger] text[i]) by {
            if i > 0 {
                assert(text[i] == fixed_digits(f, 9)[i - 1]);
            }
        }
    }
}

/// An offset of whole minutes reads back from its text.
pub proof fn lemma_offset(offset: int)
    requires
        -86_400 < offset < 86_400,
    ensures
        offset_text(offset).len() == 6,
        offset_text(offset)[0] == (if offset < 0 {
            '-'
        } else {
            '+'
        }),
        offset % 60 == 0 ==> field(offset_text(offset), 1, 3) * 3600 + field(
            offset_text(offset),
            4,
            6,
        ) * 60 == (if offset < 0 {
            -offset
        } else {
            offset
        }),
        forall|i: int| 0 <= i < 6 ==> is_rfc3339_char(#[trigger] offset_text(offset)[i]),
{
    lemma_pow10_values();
    let text = offset_text(offset);
    let m = offset_minutes(offset);
    assert(m <= 1440);
    lemma_field(m / 60, 2);
    lemma_field(m % 60, 2);
    assert(text.subrange(1, 3) =~= fixed_digits(m / 60, 2));
    assert(text.subrange(4, 6) =~= fixed_digits(m % 60, 2));
    assert forall|i: int| 0 <= i < 6 implies is_rfc3339_char(#[trigger] text[i]) by {
        if 1 <= i < 3 {
            assert(text[i] == fixed_digits(m / 60, 2)[i - 1]);
        } else if 4 <= i {
            assert(text[i] == fixed_digits(m % 60, 2)[i - 4]);
        }
    }
}

/// A valid timestamp with an offset of whole minutes is written in the
/// canonical form, and the text names it again.
pub proof fn lemma_rfc3339_round_trip(t: Timestamp)
    requires
        t.wf(),
        t.offset % 60 == 0,
    ensures
        is_canonical_rfc3339(rfc3339_of(t)),
        rfc3339_fields(rfc3339_of(t)) == t,
        rfc3339_value(rfc3339_of(t)) == Some(t),
{
    let text = rfc3339_of(t);
    let l = t.local;
    let head = rfc3339_head(l);
    let f = (l.nanos % 1_000_000_000) as nat;
    let frac = fraction_text(f);
    let off = offset_text(t.offset as int);
    lemma_rfc3339_parts(t);
    lemma_rfc3339_head(l);
    lemma_fraction(f);
    lemma_offset(t.offset as int);
    let n = text.len() as int;
    assert(n == 19 + frac.len() + 6);
    assert(text.subrange(0, 4) =~= head.subrange(0, 4));
    assert(text.subrange(5, 7) =~= head.subrange(5, 7));
    assert(text.subrange(8, 10) =~= head.subrange(8, 10));
    assert(text.subrange(11, 13) =~= head.subrange(11, 13));
    assert(text.subrange(14, 16) =~= head.subrange(14, 16));
    assert(text.subrange(17, 19) =~= head.subrange(17, 19));
    assert(text.subrange(n - 5, n - 3) =~= off.subrange(1, 3));
    assert(text.subrange(n - 2, n) =~= off.subrange(4, 6));
    assert(text[n - 6] == off[0]);
    if frac.len() == 4 {
        assert(text.subrange(20, 23) =~= frac.subrange(1, 4));
    } else if frac.len() == 7 {
        assert(text.subrange(20, 26) =~= frac.subrange(1, 7));
    } else if frac.len() == 10 {
        assert(text.subrange(20, 29) =~= frac.subrange(1, 10));
    }
    let r = rfc3339_fields(text);
    assert(r.local.year == l.year);
    assert(r.local.month == l.month);
    assert(r.local.day == l.day);
    assert(r.local.hour == l.hour);
    assert(r.local.minute == l.minute);
    assert(r.local.second == l.second);
    assert(r.local.nanos == l.nanos);
    assert(r.offset == t.offset);
    assert(r == t);
}

/// An RFC 3339 text holds digits and the signs `-`, `T`, `:`, `.` and `+`
/// only, and at least 25 of them.
pub proof fn lemma_rfc3339_chars(t: Timestamp)
    requires
        t.wf(),
    ensures
        rfc3339_of(t).len() >= 25,
        forall|i: int|
            0 <= i < rfc3339_of(t).len() ==> is_rfc3339_char(#[trigger] rfc3339_of(t)[i]),
{
    let text = rfc3339_of(t);
    let l = t.local;
    let head = rfc3339_head(l);
    let f = (l.nanos % 1_000_000_000) as nat;
    let frac = fraction_text(f);
    let off = offset_text(t.offset as int);
    lemma_rfc3339_parts(t);
    lemma_rfc3339_head(l);
    lemma_fraction(f);
    lemma_offset(t.offset as int);
    assert forall|i: int| 0 <= i < text.len() implies is_rfc3339_char(#[trigger] text[i]) by {
        if i < 19 {
            assert(text[i] == head[i]);
        } else if i < 19 + frac.len() {
            assert(text[i] == frac[i - 19]);
        } else {
            assert(text[i] == off[i - 19 - frac.len()]);
        }
    }
}

/// The seconds from the start of 1970 in UTC to the given local date and time
/// of day at the given offset, leap seconds not counted: what
/// `DateTime::timestamp` of chrono gives.
pub uninterp spec fn unix_seconds(
    year: int,
    month: int,
    day: int,
    hour: int,
    minute: int,
    second: int,
    offset: int,
) -> int;

/// A point in time: whole seconds since the start of 1970 in UTC, and the
/// nanoseconds into the second (1,000,000,000 and more in a leap second).
#[derive(Clone, Copy, Debug, PartialEq, Eq, Structural)]
pub struct Instant {
    pub secs: i64,
    pub nanos: u32,
}

impl Instant {
    /// Whether `self` is strictly earlier than `other`.
    pub open spec fn spec_before(self, other: Instant) -> bool {
        self.secs < other.secs || (self.secs == other.secs && self.nanos < other.nanos)
    }

    /// Whether `self` is strictly earlier than `other`.
    pub fn before(&self, other: &Instant) -> (b: bool)
        ensures
            b == self.spec_before(*other),
    {
        self.secs < other.secs || (self.secs == other.secs && self.nanos < other.nanos)
    }

    /// Whether `self` is strictly earlier than the point `age` seconds
    /// before `now`.
    pub open spec fn spec_older_than(self, now: Instant, age: int) -> bool {
        self.secs < now.secs - age || (self.secs == now.secs - age && self.nanos < now.nanos)
    }

    /// Whether `self` is strictly earlier than the point `age` seconds before
    /// `now`.
    pub fn older_than(&self, now: &Instant, age: u64) -> (b: bool)
        ensures
            b == self.spec_older_than(*now, age as int),
    {
        let limit: i128 = now.secs as i128 - age as i128;
        let secs: i128 = self.secs as i128;
        secs < limit || (secs == limit && self.nanos < now.nanos)
    }
}

impl Timestamp {
    /// The point in time that the timestamp names.
    pub open spec fn spec_instant(self) -> Instant {
        Instant {
            secs: unix_seconds(
                self.local.year as int,
                self.local.month as int,
                self.local.day as int,
                self.local.hour as int,
                self.local.minute as int,
                self.local.second as int,
                self.offset as int,
            ) as i64,
            nanos: self.local.nanos,
        }
    }

    /// The point in time that the timestamp names.
    pub fn instant(&self) -> (r: Instant)
        requires
            self.wf(),
        ensures
            r == self.spec_instant(),
    {
        Instant { secs: unix_secs(self), nanos: self.local.nanos }
    }
}

/// `DateTime::timestamp` of chrono, on the date and time of day `t.local` at
/// the fixed offset `t.offset`.
#[verifier::external_body]
pub(crate) fn unix_secs(t: &Timestamp) -> (r: i64)
    requires
        t.wf(),
    ensures
        r == unix_seconds(
            t.local.year as int,
            t.local.month as int,
            t.local.day as int,
            t.local.hour as int,
            t.local.minute as int,
            t.local.second as int,
            t.offset as int,
        ),
{
    chrono::NaiveDate::from_ymd_opt(t.local.year, t.local.month, t.local.day)
        .unwrap()
        .and_hms_nano_opt(t.local.hour, t.local.minute, t.local.second, t.local.nanos)
        .unwrap()
        .and_local_timezone(chrono::FixedOffset::east_opt(t.offset).unwrap())
        .unwrap()
        .timestamp()
}

/// `Local::now` of chrono, taken apart into the fields of its local date and
/// time of day and its offset. Nothing is promised of what the clock shows.
#[verifier::external_body]
pub(crate) fn read_clock() -> (r: Timestamp) {
    let d = chrono::Local::now();
    let (year, month) = (chrono::Datelike::year(&d), chrono::Datelike::month(&d));
    let (day, hour) = (chrono::Datelike::day(&d), chrono::Timelike::hour(&d));
    let (minute, second) = (chrono::Timelike::minute(&d), chrono::Timelike::second(&d));
    let nanos = chrono::Timelike::nanosecond(&d);
    let local = LocalTime { year, month, day, hour, minute, second, nanos };
    Timestamp { local, offset: d.offset().local_minus_utc() }
}

/// `TimeZone::from_local_datetime` of chrono on `Local`: the offset that the
/// machine's time zone has at the local time `l`, where the zone has that
/// local time exactly once. An offset of chrono is less than a day.
#[verifier::external_body]
pub(crate) fn local_offset(l: &LocalTime) -> (r: Option<i32>)
    requires
        l.wf(),
    ensures
        r matches Some(o) ==> -86_400 < o < 86_400,
{
    let n = chrono::NaiveDate::from_ymd_opt(l.year, l.month, l.day)
        .unwrap()
        .and_hms_nano_opt(l.hour, l.minute, l.second, l.nanos)
        .unwrap();
    match chrono::TimeZone::from_local_datetime(&chrono::Local, &n) {
        chrono::LocalResult::Single(d) => Some(d.offset().local_minus_utc()),
        chrono::LocalResult::Ambiguous(_, _) => None,
        chrono::LocalResult::None => None,
    }
}

/// The time that the machine's clock shows in its time zone, where it is a
/// time in the years 0 to 9999.
pub fn now() -> (r: Option<Timestamp>)
    ensures
        r matches Some(t) ==> t.wf(),
{
    valid_reading(read_clock())
}

/// The local time `l` with the offset that the machine's time zone has at
/// it, where the zone has that local time exactly once.
pub fn resolve_local(l: &LocalTime) -> (r: Option<Timestamp>)
    requires
        l.wf(),
    ensures
        r matches Some(t) ==> t.wf() && t.local == *l,
{
    at_offset(l, local_offset(l))
}

/// What a reading of a clock is taken for: the reading itself where it is a
/// valid timestamp, and nothing where it is not.
pub open spec fn spec_valid_reading(reading: Timestamp) -> Option<Timestamp> {
    if reading.wf() {
        Some(reading)
    } else {
        None
    }
}

/// What a reading of a clock is taken for.
pub fn valid_reading(reading: Timestamp) -> (r: Option<Timestamp>)
    ensures
        r == spec_valid_reading(reading),
{
    if reading.is_valid() {
        Some(reading)
    } else {
        None
    }
}

/// The local time `l` at the offset that a time zone gave for it: there is
/// a timestamp where the zone gave an offset and it is less than a day.
pub open spec fn spec_at_offset(l: LocalTime, offset: Option<i32>) -> Option<Timestamp> {
    match offset {
        Some(o) => if -86_400 < o < 86_400 {
            Some(Timestamp { local: l, offset: o })
        } else {
            None
        },
        None => None,
    }
}

/// The local time `l` at the offset that a time zone gave for it.
pub fn at_offset(l: &LocalTime, offset: Option<i32>) -> (r: Option<Timestamp>)
    ensures
        r == spec_at_offset(*l, offset),
{
    match offset {
        Some(o) => if -86_400 < o && o < 86_400 {
            Some(Timestamp { local: *l, offset: o })
        } else {
            None
        },
        None => None,
    }
}

} // verus!
