//! Points in time: reading them from text and showing them.

use super::date_text::{check_date_text, is_date_text};
use crate::db::opt_text;
use crate::format::{
    digit_char, digits_value, is_digit, lemma_padding, nat_text, pad_left, padded_left,
};
use crate::text::trimmed;
use chrono::{DateTime, Datelike, FixedOffset, Local, Timelike};
use chrono_english::{parse_date_string, Dialect};
use vstd::prelude::*;
use vstd::string::StringExecFns;

verus! {

/// The last second of a day, counted from its first.
pub const LAST_SECOND: i64 = 86_399;

/// The earliest time that chrono can hold.
pub const MIN_TIME: i64 = -8_334_601_228_800;

/// The latest time that chrono can hold.
pub const MAX_TIME: i64 = 8_210_266_876_799;

/// Date and time of day on a wall clock.
#[derive(Clone, Copy, Debug, PartialEq, Eq, Structural)]
pub struct WallTime {
    pub year: i32,
    pub month: u32,
    pub day: u32,
    pub hour: u32,
    pub minute: u32,
    pub second: u32,
}

/// Whether a year has a 29th of February.
pub open spec fn is_leap_year(year: int) -> bool {
    year % 4 == 0 && (year % 100 != 0 || year % 400 == 0)
}

/// How many days a month has.
pub open spec fn days_in_month(year: int, month: int) -> int {
    if month == 2 {
        if is_leap_year(year) {
            29
        } else {
            28
        }
    } else if month == 4 || month == 6 || month == 9 || month == 11 {
        30
    } else {
        31
    }
}

/// Whether the fields are a date and a time of day.
pub open spec fn is_wall_time(t: WallTime) -> bool {
    &&& 1 <= t.month <= 12
    &&& 1 <= t.day <= days_in_month(t.year as int, t.month as int)
    &&& t.hour < 24
    &&& t.minute < 60
    &&& t.second < 60
}

/// How many days lie between the first of January of the year 1 and that of another year.
pub open spec fn days_before_year(year: int) -> int {
    365 * (year - 1) + (year - 1) / 4 - (year - 1) / 100 + (year - 1) / 400
}

/// How many days of the year lie before a month.
pub open spec fn days_before_month(year: int, month: int) -> int
    decreases month,
{
    if month <= 1 {
        0
    } else {
        days_before_month(year, month - 1) + days_in_month(year, month - 1)
    }
}

/// The seconds from the start of 1970 to a wall time, on a clock that shows UTC.
pub open spec fn wall_seconds(t: WallTime) -> int {
    let days = days_before_year(t.year as int) - days_before_year(1970) + days_before_month(
        t.year as int,
        t.month as int,
    ) + t.day - 1;
    days * 86_400 + t.hour * 3_600 + t.minute * 60 + t.second
}

/// Whether a clock in some time zone may show `t` at the time `ts`: time zones are less than a
/// day away from UTC.
pub open spec fn may_be_shown_at(t: WallTime, ts: int) -> bool {
    ts - 86_400 < wall_seconds(t) < ts + 86_400
}

/// The number that the digits from `a` to `b` make.
pub open spec fn number_at(s: Seq<char>, a: int, b: int) -> int {
    digits_value(s.subrange(a, b))
}

/// Whether a text has the shape `YYYY-MM-DD`, or `YYYY-MM-DD HH:MM`.
pub open spec fn has_iso_shape(s: Seq<char>) -> bool {
    &&& s.len() == 10 || s.len() == 16
    &&& forall|i: int|
        0 <= i < s.len() ==> if i == 4 || i == 7 {
            s[i] == '-'
        } else if i == 10 {
            s[i] == ' '
        } else if i == 13 {
            s[i] == ':'
        } else {
            is_digit(#[trigger] s[i])
        }
}

/// The wall time that a text of that shape names.
pub open spec fn iso_time(s: Seq<char>) -> WallTime {
    WallTime {
        year: number_at(s, 0, 4) as i32,
        month: number_at(s, 5, 7) as u32,
        day: number_at(s, 8, 10) as u32,
        hour: if s.len() == 16 {
            number_at(s, 11, 13) as u32
        } else {
            0
        },
        minute: if s.len() == 16 {
            number_at(s, 14, 16) as u32
        } else {
            0
        },
        second: 0,
    }
}

/// A point in time that was read from a text.
pub struct ReadDate {
    pub timestamp: i64,
    pub clock: String,
}

/// What a date that was read holds, where there is one.
pub open spec fn date_view(d: Option<ReadDate>) -> Option<(i64, Seq<char>)> {
    match d {
        Some(x) => Some((x.timestamp, x.clock@)),
        None => None,
    }
}

/// Whether chrono_english, at some time and in some time zone, may read a text as the timestamp
/// and the time of day in `found`.
pub uninterp spec fn may_read_date(text: Seq<char>, found: Option<(i64, Seq<char>)>) -> bool;

/// Calls `chrono_english::parse_date_string` on the text, with chrono's `Local::now()` as the
/// base and the US dialect, and takes `timestamp` and the time of day, in chrono's format
/// `%H:%M:%S`, out of the answer.
///
/// Trusted: the timestamp is one that a chrono `DateTime` can hold. A text `YYYY-MM-DD`, or
/// `YYYY-MM-DD HH:MM`, is read, if at all, as the local time that it names. What other texts
/// are read as is left unsaid: it depends on the clock and on the time zone of the machine; and
/// so does whether a local time that a text names exists. The parser can panic on a name that does
/// not begin with ASCII characters, and its arithmetic in 32 bits can overflow on huge numbers of
/// years, months, hours and offsets, so such texts are not handed to it.
#[verifier::external_body]
fn read_date(text: &str) -> (r: Option<ReadDate>)
    requires
        is_date_text(text@),
    ensures
        may_read_date(text@, date_view(r)),
        r matches Some(d) ==> MIN_TIME <= d.timestamp <= MAX_TIME,
        r matches Some(d) ==> has_iso_shape(text@) ==> {
            let t = iso_time(text@);
            &&& is_wall_time(t)
            &&& may_be_shown_at(t, d.timestamp as int)
            &&& d.clock@ == "00:00:00"@ <==> t.hour == 0 && t.minute == 0
        },
{
    parse_date_string(text, Local::now(), Dialect::Us).ok().map(|dt| ReadDate {
        timestamp: dt.timestamp(),
        clock: dt.time().format("%H:%M:%S").to_string(),
    })
}

/// The time that a date stands for. At the end of a range a date without a time of day, that
/// is one at midnight, stands for its last second.
pub open spec fn time_bound(timestamp: i64, clock: Seq<char>, end_of_day: bool) -> int {
    if end_of_day && clock == "00:00:00"@ {
        timestamp + LAST_SECOND
    } else {
        timestamp as int
    }
}

/// The time that a date stands for.
pub fn bound_time(date: &ReadDate, end_of_day: bool) -> (t: i64)
    requires
        date.timestamp + LAST_SECOND <= i64::MAX,
    ensures
        t == time_bound(date.timestamp, date.clock@, end_of_day),
{
    if end_of_day && date.clock == String::from_str("00:00:00") {
        date.timestamp + LAST_SECOND
    } else {
        date.timestamp
    }
}

/// Whether a text may be read as the timestamp and the time of day in `found`. One that names a
/// day, and maybe a time of day, is read as that local time.
pub open spec fn date_found(text: Seq<char>, found: Option<(i64, Seq<char>)>) -> bool {
    &&& may_read_date(text, found)
    &&& found matches Some((ts, _)) ==> MIN_TIME <= ts <= MAX_TIME
    &&& found matches Some((ts, clock)) ==> has_iso_shape(text) ==> {
        let t = iso_time(text);
        &&& is_wall_time(t)
        &&& may_be_shown_at(t, ts as int)
        &&& clock == "00:00:00"@ <==> t.hour == 0 && t.minute == 0
    }
}

/// Whether reading the text may give `time`. No time comes from white space, nor from a text
/// that cannot be handed to the parser.
pub open spec fn may_read(input: Seq<char>, end_of_day: bool, time: Option<i64>) -> bool {
    let text = trimmed(input);
    if text.len() == 0 || !is_date_text(text) {
        time is None
    } else {
        exists|found: Option<(i64, Seq<char>)>| #[trigger] date_found(text, found) && match found {
            Some((ts, clock)) => time == Some(time_bound(ts, clock, end_of_day) as i64),
            None => time is None,
        }
    }
}

/// Reads a time in English; `None` where there is none.
pub fn parse_time_input(input: &str, end_of_day: bool) -> (time: Option<i64>)
    ensures
        may_read(input@, end_of_day, time),
{
    let trimmed = input.trim();
    if trimmed.is_empty() || !check_date_text(trimmed) {
        return None;
    }
    let found = read_date(trimmed);
    assert(date_found(trimmed@, date_view(found)));
    match found {
        Some(date) => Some(bound_time(&date, end_of_day)),
        None => None,
    }
}

/// A day that is named as the end of a range is in the range up to its last second, and one
/// that is named as the start from its first: in the local time zone, less than a day from UTC.
pub proof fn lemma_named_day(input: Seq<char>, start: Option<i64>, end: Option<i64>)
    requires
        has_iso_shape(trimmed(input)),
        trimmed(input).len() == 10,
        may_read(input, false, start),
        may_read(input, true, end),
    ensures
        start matches Some(ts) ==> may_be_shown_at(iso_time(trimmed(input)), ts as int),
        end matches Some(ts) ==> may_be_shown_at(iso_time(trimmed(input)), ts - LAST_SECOND),
{
}

/// Whether two wall times lie on the same day.
pub open spec fn same_day(a: WallTime, b: WallTime) -> bool {
    a.year == b.year && a.month == b.month && a.day == b.day
}

/// A time, and what a clock `offset` seconds ahead of UTC shows then.
#[derive(Clone, Copy, Debug, PartialEq, Eq, Structural)]
pub struct LocalTime {
    pub timestamp: i64,
    pub offset: i32,
    pub wall: WallTime,
}

/// Whether chrono can hold a time.
pub open spec fn is_chrono_time(ts: int) -> bool {
    MIN_TIME <= ts <= MAX_TIME
}

impl LocalTime {
    /// Chrono can hold the time, the offset is less than a day, and the clock shows what it says.
    pub open spec fn wf(self) -> bool {
        &&& is_chrono_time(self.timestamp as int)
        &&& -86_400 < self.offset < 86_400
        &&& is_wall_time(self.wall)
        &&& wall_seconds(self.wall) == self.timestamp + self.offset
    }
}

/// Whether local clocks, in some time zone, may be `offset` seconds ahead of UTC at the time `ts`.
pub uninterp spec fn may_be_offset(ts: i64, offset: i32) -> bool;

/// Takes a timestamp through chrono's `DateTime::from_timestamp` and `with_timezone(&Local)`, and
/// reads the offset.
///
/// Trusted: there is an offset for every time that chrono can hold, and only for those; it is less
/// than a day. How much it is depends on the machine's time zone and is left unsaid.
#[verifier::external_body]
fn local_offset(ts: i64) -> (offset: Option<i32>)
    ensures
        offset is Some <==> is_chrono_time(ts as int),
        offset matches Some(o) ==> may_be_offset(ts, o) && -86_400 < o < 86_400,
{
    let here = DateTime::from_timestamp(ts, 0)?.with_timezone(&Local);
    Some(here.offset().local_minus_utc())
}

/// Reads the fields of the date and time that chrono has for a timestamp, with
/// `with_timezone(&FixedOffset)`, at an offset from UTC.
///
/// Trusted: they are those of the one date and time that lies so many seconds after the start of
/// 1970.
#[verifier::external_body]
fn wall_time(ts: i64, offset: i32) -> (t: WallTime)
    requires
        is_chrono_time(ts as int),
        -86_400 < offset < 86_400,
    ensures
        is_wall_time(t),
        wall_seconds(t) == ts + offset,
{
    let zone = FixedOffset::east_opt(offset).expect("invalid offset");
    let t = DateTime::from_timestamp(ts, 0).expect("invalid timestamp").with_timezone(&zone);
    WallTime {
        year: t.year(),
        month: t.month(),
        day: t.day(),
        hour: t.hour(),
        minute: t.minute(),
        second: t.second(),
    }
}

/// Whether `t` may be the local time at the time `ts`. There is one for every time that chrono can
/// hold.
pub open spec fn local_found(ts: i64, t: Option<LocalTime>) -> bool {
    match t {
        Some(l) => l.wf() && l.timestamp == ts && may_be_offset(ts, l.offset),
        None => !is_chrono_time(ts as int),
    }
}

/// The local time at a time; `None` if chrono cannot hold it.
pub fn local_time(ts: i64) -> (t: Option<LocalTime>)
    ensures
        local_found(ts, t),
{
    match local_offset(ts) {
        Some(offset) => Some(LocalTime { timestamp: ts, offset, wall: wall_time(ts, offset) }),
        None => None,
    }
}

/// Whether chrono, at some time and in some time zone, may give `now` as the present time.
pub uninterp spec fn may_be_now(now: WallTime) -> bool;

/// Reads the fields of chrono's `Local::now()`.
///
/// Trusted: they are those of a real date. Which one depends on the clock.
#[verifier::external_body]
fn local_now() -> (t: WallTime)
    ensures
        may_be_now(t),
        is_wall_time(t),
{
    let t = Local::now();
    WallTime {
        year: t.year(),
        month: t.month(),
        day: t.day(),
        hour: t.hour(),
        minute: t.minute(),
        second: t.second(),
    }
}

/// Two digits, or a digit behind `pad`.
pub open spec fn two_digits(v: int, pad: char) -> Seq<char> {
    seq![
        if v < 10 {
            pad
        } else {
            digit_char(v / 10)
        },
        digit_char(v % 10),
    ]
}

/// A year: at least four digits, with a sign where it is not in the range of four digits.
pub open spec fn year_text(year: int) -> Seq<char> {
    let v = if year < 0 { -year } else { year };
    let digits = if v < 10_000 {
        seq![
            digit_char(v / 1000),
            digit_char(v / 100 % 10),
            digit_char(v / 10 % 10),
            digit_char(v % 10),
        ]
    } else {
        nat_text(v as nat)
    };
    if year < 0 {
        seq!['-'] + digits
    } else if year < 10_000 {
        digits
    } else {
        seq!['+'] + digits
    }
}

/// Year, month and day.
pub open spec fn date_shown(t: WallTime) -> Seq<char> {
    year_text(t.year as int) + seq!['/'] + two_digits(t.month as int, '0') + seq!['/'] + two_digits(
        t.day as int,
        '0',
    )
}

/// The hour on a dial, and the minute.
pub open spec fn clock_shown(t: WallTime) -> Seq<char> {
    let hour = if t.hour % 12 == 0 { 12 } else { t.hour % 12 };
    two_digits(hour as int, ' ') + seq![':'] + two_digits(t.minute as int, '0')
}

/// The half of the day.
pub open spec fn half_shown(t: WallTime) -> Seq<char> {
    if t.hour < 12 {
        seq![' ', 'A', 'M']
    } else {
        seq![' ', 'P', 'M']
    }
}

/// How a date and time are shown in one of the three patterns.
pub open spec fn shown_as(t: WallTime, pattern: Seq<char>) -> Seq<char> {
    if pattern == "%l:%M %p"@ {
        clock_shown(t) + half_shown(t)
    } else if pattern == "%Y/%m/%d"@ {
        date_shown(t)
    } else {
        date_shown(t) + seq![' '] + clock_shown(t) + seq![':'] + two_digits(t.second as int, '0')
            + half_shown(t)
    }
}

/// Whether a pattern is one of the three that times are shown in.
pub open spec fn is_time_pattern(pattern: Seq<char>) -> bool {
    pattern == "%l:%M %p"@ || pattern == "%Y/%m/%d"@ || pattern == "%Y/%m/%d %l:%M:%S %p"@
}

/// Calls `DateTime::format` of chrono on a time at an offset from UTC.
///
/// Trusted: the text shows the date and time that the clock shows, as the pattern says: `%Y`, `%m`,
/// `%d`, `%M` and `%S` in digits, `%l` as the hour on a dial behind a blank, `%p` as AM or PM.
#[verifier::external_body]
fn format_time(t: &LocalTime, pattern: &str) -> (s: String)
    requires
        t.wf(),
        is_time_pattern(pattern@),
    ensures
        s@ == shown_as(t.wall, pattern@),
{
    let zone = FixedOffset::east_opt(t.offset).expect("invalid offset");
    let utc = DateTime::from_timestamp(t.timestamp, 0).expect("invalid timestamp");
    utc.with_timezone(&zone).format(pattern).to_string()
}

/// How a time is shown in short: the time of day for today, the date for any other day. It is not
/// shown where chrono cannot hold the local date.
pub open spec fn short_time(t: LocalTime, now: WallTime) -> Option<Seq<char>> {
    if !is_chrono_time(t.timestamp + t.offset) {
        None
    } else if same_day(t.wall, now) {
        Some(shown_as(t.wall, "%l:%M %p"@))
    } else {
        Some(shown_as(t.wall, "%Y/%m/%d"@))
    }
}

/// Writes a time in short, as seen at the time `now`.
pub fn write_short_time(t: &LocalTime, now: &WallTime) -> (s: Option<String>)
    requires
        t.wf(),
    ensures
        opt_text(s) == short_time(*t, *now),
{
    let local = t.timestamp + t.offset as i64;
    if local < MIN_TIME || local > MAX_TIME {
        None
    } else if t.wall.year == now.year && t.wall.month == now.month && t.wall.day == now.day {
        Some(format_time(t, "%l:%M %p"))
    } else {
        Some(format_time(t, "%Y/%m/%d"))
    }
}

/// How a local time, where there is one, is shown in short.
pub open spec fn opt_short_time(t: Option<LocalTime>, now: WallTime) -> Option<Seq<char>> {
    match t {
        Some(l) => short_time(l, now),
        None => None,
    }
}

/// Whether `s` may be how the time `ts` is shown in short.
pub open spec fn may_show_short(ts: i64, s: Option<Seq<char>>) -> bool {
    exists|t: Option<LocalTime>, now: WallTime|
        #![trigger local_found(ts, t), may_be_now(now)]
        local_found(ts, t) && may_be_now(now) && s == opt_short_time(t, now)
}

/// Writes a time in short: the time of day for today, the date for any other day. `None` if chrono
/// cannot hold the time or the local date.
pub fn format_short_time(ts: i64) -> (s: Option<String>)
    ensures
        may_show_short(ts, opt_text(s)),
{
    let t = local_time(ts);
    let now = local_now();
    assert(local_found(ts, t) && may_be_now(now));
    match t {
        Some(l) => write_short_time(&l, &now),
        None => None,
    }
}

/// How a local time, where there is one, is shown in full.
pub open spec fn opt_full_time(t: Option<LocalTime>) -> Option<Seq<char>> {
    match t {
        Some(l) => Some(shown_as(l.wall, "%Y/%m/%d %l:%M:%S %p"@)),
        None => None,
    }
}

/// Whether `s` may be how the time `ts` is shown in full.
pub open spec fn may_show_full(ts: i64, s: Option<Seq<char>>) -> bool {
    exists|t: Option<LocalTime>| #[trigger] local_found(ts, t) && s == opt_full_time(t)
}

/// Writes the date and the time of day in full. `None` if chrono cannot hold the time.
pub fn format_full_time(ts: i64) -> (s: Option<String>)
    ensures
        may_show_full(ts, opt_text(s)),
{
    let t = local_time(ts);
    assert(local_found(ts, t));
    match t {
        Some(l) => Some(format_time(&l, "%Y/%m/%d %l:%M:%S %p")),
        None => None,
    }
}

/// A text, where there is one, at the right of eleven places.
pub open spec fn opt_column(s: Option<Seq<char>>) -> Option<Seq<char>> {
    match s {
        Some(t) => Some(padded_left(t, 11)),
        None => None,
    }
}

/// Whether `s` may be how the time `ts` is shown in its column, at the right of eleven places.
pub open spec fn may_show_column(ts: i64, s: Option<Seq<char>>) -> bool {
    exists|short: Option<Seq<char>>| #[trigger] may_show_short(ts, short) && s == opt_column(short)
}

/// Writes a time in short at the right of eleven places. `None` if it is not shown in short.
pub fn format_time_column(ts: i64) -> (s: Option<String>)
    ensures
        may_show_column(ts, opt_text(s)),
{
    let short = format_short_time(ts);
    assert(may_show_short(ts, opt_text(short)));
    match short {
        Some(text) => Some(pad_left(text.as_str(), 11)),
        None => None,
    }
}

/// A time is shown in full exactly if chrono can hold it; in short also the local date must be one
/// that chrono can hold, as it is at least a day away from the ends.
pub proof fn lemma_times_shown(ts: i64, short: Option<Seq<char>>, full: Option<Seq<char>>)
    requires
        may_show_column(ts, short),
        may_show_full(ts, full),
    ensures
        full is Some <==> is_chrono_time(ts as int),
        MIN_TIME + 86_400 <= ts <= MAX_TIME - 86_400 ==> short is Some,
        short is Some ==> is_chrono_time(ts as int),
{
}

/// A time that is read is the one that the parser found, and at the end of a range, where that is
/// midnight, the last second of the day that begins there. White space names no time.
pub proof fn lemma_time_read(input: Seq<char>, end_of_day: bool, time: Option<i64>)
    requires
        may_read(input, end_of_day, time),
    ensures
        trimmed(input).len() == 0 ==> time is None,
        time matches Some(t) ==> exists|ts: i64, clock: Seq<char>|
            #![trigger may_read_date(trimmed(input), Some((ts, clock)))]
            may_read_date(trimmed(input), Some((ts, clock))) && if end_of_day && clock
                == "00:00:00"@ {
                t == ts + 86_399
            } else {
                t == ts
            },
        time is None && trimmed(input).len() > 0 && is_date_text(trimmed(input)) ==> may_read_date(
            trimmed(input),
            None,
        ),
{
}

/// A minute other than midnight stands for itself, at both ends of a range.
pub proof fn lemma_named_minute(input: Seq<char>, end_of_day: bool, time: Option<i64>)
    requires
        has_iso_shape(trimmed(input)),
        trimmed(input).len() == 16,
        exists|i: int|
            11 <= i < 16 && #[trigger] trimmed(input)[i] != '0' && trimmed(input)[i] != ':',
        may_read(input, end_of_day, time),
    ensures
        time matches Some(ts) ==> may_be_shown_at(iso_time(trimmed(input)), ts as int),
{
    let s = trimmed(input);
    let (h, m) = (s.subrange(11, 13), s.subrange(14, 16));
    lemma_two_digit_value(h);
    lemma_two_digit_value(m);
    assert(h[0] == s[11] && h[1] == s[12] && m[0] == s[14] && m[1] == s[15]);
    assert(s[13] == ':');
    assert(is_digit(s[11]) && is_digit(s[12]) && is_digit(s[14]) && is_digit(s[15]));
    let i = choose|i: int| 11 <= i < 16 && #[trigger] s[i] != '0' && s[i] != ':';
    assert(i == 11 || i == 12 || i == 14 || i == 15);
    assert(iso_time(s).hour != 0 || iso_time(s).minute != 0);
}

proof fn lemma_two_digit_value(s: Seq<char>)
    requires
        s.len() == 2,
    ensures
        digits_value(s) == 10 * (s[0] as int - 48) + (s[1] as int - 48),
{
    assert(s.drop_last().drop_last() =~= seq![]);
    assert(digits_value(s.drop_last().drop_last()) == 0);
    assert(digits_value(s.drop_last()) == s[0] as int - 48);
}

/// A time is shown in short as the time of day if the local date is that of the present time, and as
/// the date otherwise. It is left out only where chrono cannot hold the local date.
pub proof fn lemma_short_shown(ts: i64, s: Option<Seq<char>>)
    requires
        may_show_short(ts, s),
    ensures
        s matches Some(text) ==> exists|l: LocalTime, now: WallTime|
            #![trigger l.wf(), may_be_now(now)]
            l.wf() && l.timestamp == ts && may_be_offset(ts, l.offset) && may_be_now(now)
                && -8_334_601_228_800 <= ts + l.offset <= 8_210_266_876_799 && if l.wall.year
                == now.year && l.wall.month == now.month && l.wall.day == now.day {
                text == shown_as(l.wall, "%l:%M %p"@)
            } else {
                text == shown_as(l.wall, "%Y/%m/%d"@)
            },
        s is None && -8_334_601_228_800 <= ts <= 8_210_266_876_799 ==> exists|l: LocalTime|
            #[trigger] l.wf() && l.timestamp == ts && may_be_offset(ts, l.offset) && !(
            -8_334_601_228_800 <= ts + l.offset <= 8_210_266_876_799),
{
    let (t, now) = choose|t: Option<LocalTime>, now: WallTime|
        #![trigger local_found(ts, t), may_be_now(now)]
        local_found(ts, t) && may_be_now(now) && s == opt_short_time(t, now);
    if s is Some {
        assert(t->0.wf());
        assert(may_be_now(now));
    } else if t is Some {
        assert(t->0.wf());
    }
}

/// The column of a time holds it in short, behind as many blanks as it lacks to eleven characters.
pub proof fn lemma_column_shown(ts: i64, s: Option<Seq<char>>)
    requires
        may_show_column(ts, s),
    ensures
        s is None ==> may_show_short(ts, None),
        s matches Some(text) ==> text.len() >= 11 && exists|short: Seq<char>| #[trigger]
            may_show_short(ts, Some(short)) && text.len() == (if short.len() < 11 {
                11
            } else {
                short.len()
            }) && text.skip(text.len() - short.len()) == short && forall|i: int|
                0 <= i < text.len() - short.len() ==> #[trigger] text[i] == ' ',
{
    let short = choose|short: Option<Seq<char>>| #[trigger]
        may_show_short(ts, short) && s == opt_column(short);
    if let Some(text) = s {
        let inner = short->0;
        lemma_padding(inner, 11);
        assert(text.skip(text.len() - inner.len()) =~= inner);
        assert(may_show_short(ts, Some(inner)));
    }
}

/// The number that two places show, a blank standing for no digit.
pub open spec fn dial_value(tens: char, ones: char) -> int {
    (if tens == ' ' {
        0
    } else {
        10 * (tens as int - 48)
    }) + (ones as int - 48)
}

proof fn lemma_two_digits(v: int, pad: char)
    requires
        0 <= v < 100,
        pad == '0' || pad == ' ',
    ensures
        two_digits(v, pad).len() == 2,
        dial_value(two_digits(v, pad)[0], two_digits(v, pad)[1]) == v,
        two_digits(v, pad)[0] == ' ' <==> v < 10 && pad == ' ',
        two_digits(v, pad)[0] == '0' <==> v < 10 && pad == '0',
{
}

#[verifier::rlimit(60)]
proof fn lemma_year_digits(y: int)
    requires
        0 <= y < 10_000,
    ensures
        ({
            let s = year_text(y);
            &&& s.len() == 4
            &&& 1000 * (s[0] as int - 48) + 100 * (s[1] as int - 48) + 10 * (s[2] as int - 48) + (
            s[3] as int - 48) == y
        }),
{
    let s = year_text(y);
    assert(s[0] as int - 48 == y / 1000);
    assert(s[1] as int - 48 == y / 100 % 10);
    assert(s[2] as int - 48 == y / 10 % 10);
    assert(s[3] as int - 48 == y % 10);
    assert(y / 100 == 10 * (y / 1000) + y / 100 % 10);
    assert(y / 10 == 10 * (y / 100) + y / 10 % 10);
}

/// A date shows the year in four digits, the month and the day in two.
#[verifier::rlimit(60)]
pub proof fn lemma_date_shown(t: WallTime)
    requires
        is_wall_time(t),
        0 <= t.year < 10_000,
    ensures
        ({
            let s = shown_as(t, "%Y/%m/%d"@);
            &&& s.len() == 10
            &&& 1000 * (s[0] as int - 48) + 100 * (s[1] as int - 48) + 10 * (s[2] as int - 48) + (
            s[3] as int - 48) == t.year
            &&& s[4] == '/' && dial_value(s[5], s[6]) == t.month && s[5] != ' '
            &&& s[7] == '/' && dial_value(s[8], s[9]) == t.day && s[8] != ' '
        }),
{
    assert(shown_as(t, "%Y/%m/%d"@) == date_shown(t)) by {
        reveal_strlit("%Y/%m/%d");
        reveal_strlit("%l:%M %p");
        assert("%Y/%m/%d"@[1] == 'Y' && "%l:%M %p"@[1] == 'l');
    }
    lemma_date_places(t);
}

#[verifier::rlimit(60)]
proof fn lemma_date_places(t: WallTime)
    requires
        is_wall_time(t),
        0 <= t.year < 10_000,
    ensures
        ({
            let s = date_shown(t);
            &&& s.len() == 10
            &&& 1000 * (s[0] as int - 48) + 100 * (s[1] as int - 48) + 10 * (s[2] as int - 48) + (
            s[3] as int - 48) == t.year
            &&& s[4] == '/' && dial_value(s[5], s[6]) == t.month && s[5] != ' '
            &&& s[7] == '/' && dial_value(s[8], s[9]) == t.day && s[8] != ' '
        }),
{
    let s = date_shown(t);
    lemma_year_digits(t.year as int);
    lemma_two_digits(t.month as int, '0');
    lemma_two_digits(t.day as int, '0');
    let y = year_text(t.year as int);
    let m = two_digits(t.month as int, '0');
    let d = two_digits(t.day as int, '0');
    assert(s[0] == y[0] && s[1] == y[1] && s[2] == y[2] && s[3] == y[3]);
    assert(s[5] == m[0] && s[6] == m[1] && s[8] == d[0] && s[9] == d[1]);
}

/// A time of day shows the hour on a dial of twelve, the minute in two digits, and the half of the
/// day.
#[verifier::rlimit(60)]
pub proof fn lemma_clock_shown(t: WallTime)
    requires
        is_wall_time(t),
    ensures
        ({
            let s = shown_as(t, "%l:%M %p"@);
            let hour = dial_value(s[0], s[1]);
            &&& s.len() == 8
            &&& 1 <= hour <= 12 && hour % 12 == t.hour as int % 12 && s[0] != '0'
            &&& s[2] == ':' && dial_value(s[3], s[4]) == t.minute && s[3] != ' '
            &&& s[5] == ' ' && s[7] == 'M' && s[6] == (if t.hour < 12 { 'A' } else { 'P' })
        }),
{
    let s = shown_as(t, "%l:%M %p"@);
    let hour = if t.hour % 12 == 0 { 12int } else { t.hour as int % 12 };
    let (h, m) = (two_digits(hour, ' '), two_digits(t.minute as int, '0'));
    lemma_two_digits(hour, ' ');
    lemma_two_digits(t.minute as int, '0');
    assert(s[0] == h[0] && s[1] == h[1] && s[3] == m[0] && s[4] == m[1]);
}

/// A time in full shows the date, a blank, and the time of day with the second in two digits before
/// the half of the day.
#[verifier::rlimit(60)]
pub proof fn lemma_full_shown(t: WallTime)
    requires
        is_wall_time(t),
    ensures
        ({
            let s = shown_as(t, "%Y/%m/%d %l:%M:%S %p"@);
            let date = shown_as(t, "%Y/%m/%d"@);
            let clock = shown_as(t, "%l:%M %p"@);
            exists|second: Seq<char>|
                #![trigger dial_value(second[0], second[1])]
                {
                    &&& second.len() == 2 && second[0] != ' ' && dial_value(second[0], second[1])
                        == t.second
                    &&& s == date + seq![' '] + clock.take(5) + seq![':'] + second + clock.skip(5)
                }
        }),
{
    reveal_strlit("%Y/%m/%d %l:%M:%S %p");
    reveal_strlit("%Y/%m/%d");
    reveal_strlit("%l:%M %p");
    assert("%Y/%m/%d"@.len() == 8 && "%l:%M %p"@.len() == 8 && "%Y/%m/%d %l:%M:%S %p"@.len() == 20);
    assert("%Y/%m/%d"@[1] == 'Y' && "%l:%M %p"@[1] == 'l');
    let s = shown_as(t, "%Y/%m/%d %l:%M:%S %p"@);
    let date = shown_as(t, "%Y/%m/%d"@);
    let clock = shown_as(t, "%l:%M %p"@);
    let second = two_digits(t.second as int, '0');
    lemma_two_digits(t.second as int, '0');
    assert(clock.take(5) =~= clock_shown(t));
    assert(clock.skip(5) =~= half_shown(t));
    assert(s =~= date + seq![' '] + clock.take(5) + seq![':'] + second + clock.skip(5));
    assert(dial_value(second[0], second[1]) == t.second);
}

#[verifier::rlimit(60)]
proof fn lemma_year_length(year: int)
    ensures
        days_before_year(year + 1) - days_before_year(year) == if is_leap_year(year) {
            366int
        } else {
            365
        },
{
    assert(year / 4 - (year - 1) / 4 == if year % 4 == 0 { 1int } else { 0 });
    assert(year / 100 - (year - 1) / 100 == if year % 100 == 0 { 1int } else { 0 });
    assert(year / 400 - (year - 1) / 400 == if year % 400 == 0 { 1int } else { 0 });
    assert(year % 400 == 0 ==> year % 100 == 0);
    assert(year % 100 == 0 ==> year % 4 == 0);
}

proof fn lemma_months(year: int)
    ensures
        days_before_month(year, 1) == 0,
        days_before_month(year, 12) == if is_leap_year(year) { 335int } else { 334 },
{
    assert(days_before_month(year, 1) == 0);
    assert(days_before_month(year, 2) == 31);
    assert(days_before_month(year, 3) == 31 + days_in_month(year, 2));
    assert(days_before_month(year, 4) == 62 + days_in_month(year, 2));
    assert(days_before_month(year, 5) == 92 + days_in_month(year, 2));
    assert(days_before_month(year, 6) == 123 + days_in_month(year, 2));
    assert(days_before_month(year, 7) == 153 + days_in_month(year, 2));
    assert(days_before_month(year, 8) == 184 + days_in_month(year, 2));
    assert(days_before_month(year, 9) == 215 + days_in_month(year, 2));
    assert(days_before_month(year, 10) == 245 + days_in_month(year, 2));
    assert(days_before_month(year, 11) == 276 + days_in_month(year, 2));
}

/// Days follow each other: the same time on the next day, be it in the same month, in the next one
/// or in the next year, is a day later.
#[verifier::rlimit(60)]
pub proof fn lemma_next_day(t: WallTime, u: WallTime)
    requires
        is_wall_time(t),
        is_wall_time(u),
        t.hour == u.hour && t.minute == u.minute && t.second == u.second,
        ({
            ||| u.year == t.year && u.month == t.month && u.day == t.day + 1
            ||| u.year == t.year && u.month == t.month + 1 && u.day == 1 && t.day == days_in_month(
                t.year as int,
                t.month as int,
            )
            ||| u.year == t.year + 1 && u.month == 1 && u.day == 1 && t.month == 12 && t.day == 31
        }),
    ensures
        wall_seconds(u) == wall_seconds(t) + 86_400,
{
    lemma_months(t.year as int);
    lemma_year_length(t.year as int);
}

} // verus!
