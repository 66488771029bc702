//! Civil times for `ts`: validity, conversion to epoch seconds (through
//! chrono), the year of yearless dates, and the small fields of timestamps.
use vstd::prelude::*;
use chrono::TimeZone;
use crate::text::{
    lower_chars, lower_seq, parse_int, parse_int_spec, trim_trailing, trim_trailing_chars,
    split_chars, split_on, views_of, upper_chars, upper_seq, utf8_len, utf8_width, char_width,
};

verus! {

broadcast use vstd::seq::group_seq_axioms;

/// A date and time of day without a time zone.
#[derive(Clone, Copy, Debug, PartialEq, Eq, Structural)]
pub struct Civil {
    pub year: i32,
    pub month: u32,
    pub day: u32,
    pub hour: u32,
    pub minute: u32,
    pub second: u32,
}

pub open spec fn is_leap(y: int) -> bool {
    y % 4 == 0 && (y % 100 != 0 || y % 400 == 0)
}

pub open spec fn days_in_month(y: int, m: int) -> int {
    if m == 2 {
        if is_leap(y) {
            29
        } else {
            28
        }
    } else if m == 4 || m == 6 || m == 9 || m == 11 {
        30
    } else {
        31
    }
}

/// The times chrono can represent: years -262143 to 262142 of the proleptic
/// Gregorian calendar, existing days, and times of day without leap seconds.
pub open spec fn valid_civil(c: Civil) -> bool {
    &&& -262143 <= c.year <= 262142
    &&& 1 <= c.month <= 12
    &&& 1 <= c.day <= days_in_month(c.year as int, c.month as int)
    &&& c.hour < 24
    &&& c.minute < 60
    &&& c.second < 60
}

/// Days from 1970-01-01 to the given date of the proleptic Gregorian calendar.
pub open spec fn days_from_civil(y: int, m: int, d: int) -> int {
    let y2 = if m <= 2 {
        y - 1
    } else {
        y
    };
    let era = y2 / 400;
    let yoe = y2 - era * 400;
    let mp = if m > 2 {
        m - 3
    } else {
        m + 9
    };
    let doy = (153 * mp + 2) / 5 + d - 1;
    let doe = yoe * 365 + yoe / 4 - yoe / 100 + doy;
    era * 146097 + doe - 719468
}

/// Seconds from 1970-01-01T00:00:00 to `c`, both read in the same zone.
pub open spec fn civil_seconds(c: Civil) -> int {
    days_from_civil(c.year as int, c.month as int, c.day as int) * 86400 + c.hour * 3600 + c.minute
        * 60 + c.second
}

/// The instants chrono can represent (from the first second of its first year
/// to the last second of its last one).
pub open spec fn in_chrono_range(e: int) -> bool {
    -8334601228800 <= e <= 8210266876799
}

/// The instant that `c` denotes in the zone `offset` seconds east of UTC, when
/// chrono has it.
pub open spec fn fixed_epoch_spec(c: Civil, offset: int) -> Option<int> {
    if valid_civil(c) && -86400 < offset < 86400 && in_chrono_range(civil_seconds(c) - offset) {
        Some(civil_seconds(c) - offset)
    } else {
        None
    }
}

/// chrono: `NaiveDate::from_ymd_opt` and `and_hms_opt` build the time (None when
/// it does not exist), `FixedOffset::east_opt` the zone (None unless less
/// than a day), and `from_local_datetime(..).single()` with `timestamp` give
/// the epoch seconds (None when the instant is outside chrono's range).
#[verifier::external_body]
fn chrono_fixed_epoch(c: Civil, offset: i32) -> (r: Option<i64>)
    ensures
        match r {
            Some(e) => fixed_epoch_spec(c, offset as int) == Some(e as int),
            None => fixed_epoch_spec(c, offset as int) is None,
        },
{
    let naive = chrono::NaiveDate::from_ymd_opt(c.year, c.month, c.day)
        .and_then(|d| d.and_hms_opt(c.hour, c.minute, c.second));
    match (naive, chrono::FixedOffset::east_opt(offset)) {
        (Some(n), Some(zone)) => zone.from_local_datetime(&n).single().map(|dt| dt.timestamp()),
        _ => None,
    }
}

/// chrono: `chrono::Local.from_local_datetime` for the time `c` (earliest
/// instant when the local time is ambiguous, None when it does not exist).
/// `from_local_datetime` subtracts from the local time the `FixedOffset` that
/// the system's zone has then (`checked_sub_offset`, which refuses results
/// outside chrono's range), and a `FixedOffset` is less than a day: so a
/// result is the instant of `c` in some zone less than a day from UTC. Which
/// offset the system has is not stated.
#[verifier::external_body]
fn chrono_local_epoch(c: Civil) -> (r: Option<i64>)
    ensures
        r is Some ==> valid_civil(c),
        r matches Some(e) ==> in_chrono_range(e as int),
        r matches Some(e) ==> exists|off: int| #[trigger] fixed_epoch_spec(c, off) == Some(e as int),
{
    let naive = chrono::NaiveDate::from_ymd_opt(c.year, c.month, c.day)
        .and_then(|d| d.and_hms_opt(c.hour, c.minute, c.second))?;
    match chrono::Local.from_local_datetime(&naive) {
        chrono::LocalResult::Single(dt) => Some(dt.timestamp()),
        chrono::LocalResult::Ambiguous(dt, _) => Some(dt.timestamp()),
        chrono::LocalResult::None => None,
    }
}

/// The zone in which times without a zone are read: a fixed offset in seconds
/// east of UTC, or the system's local time zone.
#[derive(Clone, Copy, Debug, PartialEq, Eq, Structural)]
pub enum Zone {
    Fixed(i32),
    System,
}

/// The instant that local time `c` denotes in `zone`.
pub fn local_epoch(c: Civil, zone: Zone) -> (r: Option<i64>)
    ensures
        zone matches Zone::Fixed(off) ==> match r {
            Some(e) => fixed_epoch_spec(c, off as int) == Some(e as int),
            None => fixed_epoch_spec(c, off as int) is None,
        },
        r is Some ==> valid_civil(c),
        r matches Some(e) ==> in_chrono_range(e as int),
        r matches Some(e) ==> exists|off: int| #[trigger] fixed_epoch_spec(c, off) == Some(e as int),
{
    match zone {
        Zone::Fixed(off) => chrono_fixed_epoch(c, off),
        Zone::System => chrono_local_epoch(c),
    }
}

fn is_leap_exec(y: i32) -> (r: bool)
    requires
        -262143 <= y <= 262142,
    ensures
        r == is_leap(y as int),
{
    let z: i64 = y as i64 + 400000;
    assert(z % 4 == 0 <==> (y as int) % 4 == 0) by {
        assert((y as int + 400000) % 4 == (y as int) % 4);
    }
    assert(z % 100 == 0 <==> (y as int) % 100 == 0) by {
        assert((y as int + 400000) % 100 == (y as int) % 100);
    }
    assert(z % 400 == 0 <==> (y as int) % 400 == 0) by {
        assert((y as int + 400000) % 400 == (y as int) % 400);
    }
    z % 4 == 0 && (z % 100 != 0 || z % 400 == 0)
}

/// Whether `c` is a time chrono can represent.
pub fn is_valid_civil(c: Civil) -> (r: bool)
    ensures
        r == valid_civil(c),
{
    if c.year < -262143 || c.year > 262142 || c.month < 1 || c.month > 12 || c.day < 1 || c.hour
        >= 24 || c.minute >= 60 || c.second >= 60 {
        return false;
    }
    let dim: u32 = if c.month == 2 {
        if is_leap_exec(c.year) {
            29
        } else {
            28
        }
    } else if c.month == 4 || c.month == 6 || c.month == 9 || c.month == 11 {
        30
    } else {
        31
    };
    c.day <= dim
}

/// `a` comes after `b`.
pub open spec fn civil_after(a: Civil, b: Civil) -> bool {
    if a.year != b.year {
        a.year > b.year
    } else if a.month != b.month {
        a.month > b.month
    } else if a.day != b.day {
        a.day > b.day
    } else if a.hour != b.hour {
        a.hour > b.hour
    } else if a.minute != b.minute {
        a.minute > b.minute
    } else {
        a.second > b.second
    }
}

fn is_after(a: Civil, b: Civil) -> (r: bool)
    ensures
        r == civil_after(a, b),
{
    if a.year != b.year {
        a.year > b.year
    } else if a.month != b.month {
        a.month > b.month
    } else if a.day != b.day {
        a.day > b.day
    } else if a.hour != b.hour {
        a.hour > b.hour
    } else if a.minute != b.minute {
        a.minute > b.minute
    } else {
        a.second > b.second
    }
}

/// The time of a date given without its year: in the current year, or in
/// the year before when that would lie after `now` (both must exist).
pub open spec fn resolve_yearless_spec(
    month: int,
    day: int,
    hour: int,
    minute: int,
    second: int,
    now: Civil,
) -> Option<Civil> {
    let this = Civil {
        year: now.year,
        month: month as u32,
        day: day as u32,
        hour: hour as u32,
        minute: minute as u32,
        second: second as u32,
    };
    let prev = Civil {
        year: (now.year - 1) as i32,
        month: month as u32,
        day: day as u32,
        hour: hour as u32,
        minute: minute as u32,
        second: second as u32,
    };
    if !valid_civil(this) {
        None
    } else if civil_after(this, now) {
        if valid_civil(prev) {
            Some(prev)
        } else {
            None
        }
    } else {
        Some(this)
    }
}

pub fn resolve_yearless(month: u32, day: u32, hour: u32, minute: u32, second: u32, now: Civil) -> (r:
    Option<Civil>)
    requires
        valid_civil(now),
    ensures
        r == resolve_yearless_spec(
            month as int,
            day as int,
            hour as int,
            minute as int,
            second as int,
            now,
        ),
{
    let this = Civil { year: now.year, month, day, hour, minute, second };
    if !is_valid_civil(this) {
        return None;
    }
    if is_after(this, now) {
        let prev = Civil { year: now.year - 1, month, day, hour, minute, second };
        if is_valid_civil(prev) {
            Some(prev)
        } else {
            None
        }
    } else {
        Some(this)
    }
}

// ---------------------------------------------------------------------------
// Fields of timestamps
// ---------------------------------------------------------------------------

/// `str::parse::<u32>`.
pub open spec fn pu32(s: Seq<char>) -> Option<int> {
    parse_int_spec(s, false, 0, u32::MAX as int)
}

/// `str::parse::<i32>`.
pub open spec fn pi32(s: Seq<char>) -> Option<int> {
    parse_int_spec(s, true, i32::MIN as int, i32::MAX as int)
}

pub fn parse_u32(s: &[char]) -> (r: Option<u32>)
    ensures
        match r {
            Some(v) => pu32(s@) == Some(v as int),
            None => pu32(s@) is None,
        },
{
    match parse_int(s, false, 0, u32::MAX as i128) {
        Some(v) => Some(v as u32),
        None => None,
    }
}

pub fn parse_i32(s: &[char]) -> (r: Option<i32>)
    ensures
        match r {
            Some(v) => pi32(s@) == Some(v as int),
            None => pi32(s@) is None,
        },
{
    match parse_int(s, true, i32::MIN as i128, i32::MAX as i128) {
        Some(v) => Some(v as i32),
        None => None,
    }
}

pub open spec fn three(a: char, b: char, c: char) -> Seq<char> {
    seq![a, b, c]
}

/// The number of the month whose English name begins `t` (its first three
/// letters, in any case).
pub open spec fn month_spec(t: Seq<char>) -> Option<int> {
    if t.len() < 3 {
        None
    } else {
        let m = lower_seq(t.take(3));
        if m == three('j', 'a', 'n') {
            Some(1)
        } else if m == three('f', 'e', 'b') {
            Some(2)
        } else if m == three('m', 'a', 'r') {
            Some(3)
        } else if m == three('a', 'p', 'r') {
            Some(4)
        } else if m == three('m', 'a', 'y') {
            Some(5)
        } else if m == three('j', 'u', 'n') {
            Some(6)
        } else if m == three('j', 'u', 'l') {
            Some(7)
        } else if m == three('a', 'u', 'g') {
            Some(8)
        } else if m == three('s', 'e', 'p') {
            Some(9)
        } else if m == three('o', 'c', 't') {
            Some(10)
        } else if m == three('n', 'o', 'v') {
            Some(11)
        } else if m == three('d', 'e', 'c') {
            Some(12)
        } else {
            None
        }
    }
}

fn is3(m: &[char], a: char, b: char, c: char) -> (r: bool)
    requires
        m@.len() == 3,
    ensures
        r == (m@ == three(a, b, c)),
{
    let r = m[0] == a && m[1] == b && m[2] == c;
    proof {
        if r {
            assert(m@ =~= three(a, b, c));
        }
    }
    r
}

/// The month a timestamp field names.
pub fn month_number(t: &[char]) -> (r: Option<u32>)
    ensures
        match r {
            Some(v) => month_spec(t@) == Some(v as int),
            None => month_spec(t@) is None,
        },
{
    if t.len() < 3 {
        return None;
    }
    let first = crate::text::sub_vec(t, 0, 3);
    let m = lower_chars(first.as_slice());
    assert(m@.len() == 3);
    if is3(m.as_slice(), 'j', 'a', 'n') {
        Some(1)
    } else if is3(m.as_slice(), 'f', 'e', 'b') {
        Some(2)
    } else if is3(m.as_slice(), 'm', 'a', 'r') {
        Some(3)
    } else if is3(m.as_slice(), 'a', 'p', 'r') {
        Some(4)
    } else if is3(m.as_slice(), 'm', 'a', 'y') {
        Some(5)
    } else if is3(m.as_slice(), 'j', 'u', 'n') {
        Some(6)
    } else if is3(m.as_slice(), 'j', 'u', 'l') {
        Some(7)
    } else if is3(m.as_slice(), 'a', 'u', 'g') {
        Some(8)
    } else if is3(m.as_slice(), 's', 'e', 'p') {
        Some(9)
    } else if is3(m.as_slice(), 'o', 'c', 't') {
        Some(10)
    } else if is3(m.as_slice(), 'n', 'o', 'v') {
        Some(11)
    } else if is3(m.as_slice(), 'd', 'e', 'c') {
        Some(12)
    } else {
        None
    }
}

/// `t`, without its trailing commas, begins with the name of a weekday.
pub open spec fn weekday_spec(t: Seq<char>) -> bool {
    let u = trim_trailing(t, ',');
    u.len() >= 3 && {
        let w = lower_seq(u.take(3));
        ||| w == three('m', 'o', 'n')
        ||| w == three('t', 'u', 'e')
        ||| w == three('w', 'e', 'd')
        ||| w == three('t', 'h', 'u')
        ||| w == three('f', 'r', 'i')
        ||| w == three('s', 'a', 't')
        ||| w == three('s', 'u', 'n')
    }
}

pub fn weekday(t: &[char]) -> (r: bool)
    ensures
        r == weekday_spec(t@),
{
    let u = trim_trailing_chars(t, ',');
    if u.len() < 3 {
        return false;
    }
    let first = crate::text::sub_vec(u.as_slice(), 0, 3);
    let w = lower_chars(first.as_slice());
    is3(w.as_slice(), 'm', 'o', 'n') || is3(w.as_slice(), 't', 'u', 'e') || is3(
        w.as_slice(),
        'w',
        'e',
        'd',
    ) || is3(w.as_slice(), 't', 'h', 'u') || is3(w.as_slice(), 'f', 'r', 'i') || is3(
        w.as_slice(),
        's',
        'a',
        't',
    ) || is3(w.as_slice(), 's', 'u', 'n')
}

/// `h:m:s`, or `h:m` (seconds 0) when seconds are not required.
pub open spec fn hms_spec(t: Seq<char>, require_seconds: bool) -> Option<(int, int, int)> {
    let p = split_on(t, ':', ':');
    if p.len() == 2 && !require_seconds {
        match (pu32(p[0]), pu32(p[1])) {
            (Some(h), Some(m)) => Some((h, m, 0)),
            _ => None,
        }
    } else if p.len() == 3 {
        match (pu32(p[0]), pu32(p[1]), pu32(p[2])) {
            (Some(h), Some(m), Some(s)) => Some((h, m, s)),
            _ => None,
        }
    } else {
        None
    }
}

pub fn parse_hms(t: &[char], require_seconds: bool) -> (r: Option<(u32, u32, u32)>)
    ensures
        match r {
            Some((h, m, s)) => hms_spec(t@, require_seconds) == Some((h as int, m as int, s as int)),
            None => hms_spec(t@, require_seconds) is None,
        },
{
    let p = split_chars(t, ':', ':');
    assert(views_of(p@).len() == p@.len());
    if p.len() == 2 && !require_seconds {
        assert(p[0]@ == views_of(p@)[0] && p[1]@ == views_of(p@)[1]);
        match (parse_u32(p[0].as_slice()), parse_u32(p[1].as_slice())) {
            (Some(h), Some(m)) => Some((h, m, 0)),
            _ => None,
        }
    } else if p.len() == 3 {
        assert(p[0]@ == views_of(p@)[0] && p[1]@ == views_of(p@)[1] && p[2]@ == views_of(p@)[2]);
        match (parse_u32(p[0].as_slice()), parse_u32(p[1].as_slice()), parse_u32(p[2].as_slice())) {
            (Some(h), Some(m), Some(s)) => Some((h, m, s)),
            _ => None,
        }
    } else {
        None
    }
}

/// A year; one or two characters mean 1977 to 2076.
pub open spec fn year_spec(t: Seq<char>) -> Option<int> {
    match pi32(t) {
        None => None,
        Some(y) => if t.len() <= 2 {
            if y >= 77 {
                Some(1900 + y)
            } else {
                Some(2000 + y)
            }
        } else {
            Some(y)
        },
    }
}

pub fn parse_year(t: &[char]) -> (r: Option<i32>)
    ensures
        match r {
            Some(v) => year_spec(t@) == Some(v as int),
            None => year_spec(t@) is None,
        },
{
    let y = parse_i32(t)?;
    if t.len() <= 2 {
        proof {
            if y < -9 || y > 99 {
                lemma_short_number(t@, y as int);
            }
        }
        if y >= 77 {
            Some(1900 + y)
        } else {
            Some(2000 + y)
        }
    } else {
        Some(y)
    }
}

proof fn lemma_short_number(t: Seq<char>, y: int)
    requires
        t.len() <= 2,
        pi32(t) == Some(y),
    ensures
        -9 <= y <= 99,
{
    let has_sign = t.len() > 0 && (t[0] == '+' || t[0] == '-');
    let body = if has_sign {
        t.drop_first()
    } else {
        t
    };
    lemma_digits_small(body);
}

/// What reading a numeric zone `+hhmm`/`-hhmm` gives: an offset, no offset, or
/// a text on which `ts` stops: one that cutting after byte 1 (the sign) or
/// byte 3 (the hours) would cut inside a character.
#[derive(Clone, Copy, Debug, PartialEq, Eq, Structural)]
pub enum OffsetParse {
    Seconds(i32),
    NotOffset,
    Abort,
}

/// The numeric zone of `tz`: five bytes, a sign, two digits of hours and two
/// of minutes, less than a day in all.
pub open spec fn offset_spec(tz: Seq<char>) -> OffsetParse {
    if utf8_len(tz) != 5 {
        OffsetParse::NotOffset
    } else if (tz[0] as u32) >= 0x80 {
        OffsetParse::Abort
    } else if tz[0] != '+' && tz[0] != '-' {
        OffsetParse::NotOffset
    } else if !(utf8_width(tz[1]) == 2 || (utf8_width(tz[1]) == 1 && utf8_width(tz[2]) == 1)) {
        OffsetParse::Abort
    } else {
        let k = if utf8_width(tz[1]) == 2 {
            2int
        } else {
            3int
        };
        let sign = if tz[0] == '+' {
            1int
        } else {
            -1int
        };
        match (pi32(tz.subrange(1, k)), pi32(tz.skip(k))) {
            (Some(h), Some(m)) => {
                let v = sign * (h * 3600 + m * 60);
                if -86400 < v < 86400 {
                    OffsetParse::Seconds(v as i32)
                } else {
                    OffsetParse::NotOffset
                }
            },
            _ => OffsetParse::NotOffset,
        }
    }
}

proof fn lemma_utf8_len_bounds(s: Seq<char>)
    ensures
        utf8_len(s) >= s.len(),
        s.len() > 0 ==> utf8_len(s) == utf8_width(s[0]) + utf8_len(s.drop_first()),
    decreases s.len(),
{
    if s.len() > 0 {
        lemma_utf8_len_bounds(s.drop_first());
    }
}

fn utf8_len_exec(s: &[char]) -> (r: usize)
    requires
        s@.len() <= 8,
    ensures
        r == utf8_len(s@),
{
    let mut i = s.len();
    let mut total: usize = 0;
    assert(s@.skip(s@.len() as int) =~= Seq::<char>::empty());
    while i > 0
        invariant
            i <= s@.len() <= 8,
            total <= 4 * (s@.len() - i),
            total == utf8_len(s@.skip(i as int)),
        decreases i,
    {
        let w = char_width(s[i - 1]);
        proof {
            lemma_utf8_len_bounds(s@.skip(i - 1));
            assert(s@.skip(i - 1).drop_first() =~= s@.skip(i as int));
            assert(s@.skip(i - 1)[0] == s@[i - 1]);
        }
        total = total + w;
        i -= 1;
    }
    assert(s@.skip(0) =~= s@);
    total
}

pub fn parse_numeric_offset(tz: &[char]) -> (r: OffsetParse)
    ensures
        r == offset_spec(tz@),
{
    if tz.len() > 5 {
        proof {
            lemma_utf8_len_bounds(tz@);
        }
        return OffsetParse::NotOffset;
    }
    if utf8_len_exec(tz) != 5 {
        return OffsetParse::NotOffset;
    }
    proof {
        lemma_utf8_len_bounds(tz@);
    }
    assert(tz@.len() >= 1);
    if tz[0] as u32 >= 0x80 {
        return OffsetParse::Abort;
    }
    if tz[0] != '+' && tz[0] != '-' {
        return OffsetParse::NotOffset;
    }
    proof {
        lemma_utf8_len_bounds(tz@.drop_first());
        assert(tz@.drop_first()[0] == tz@[1]);
        if tz@.len() >= 3 {
            lemma_utf8_len_bounds(tz@.drop_first().drop_first());
            assert(tz@.drop_first().drop_first()[0] == tz@[2]);
        }
    }
    let w1 = char_width(tz[1]);
    let two_byte = w1 == 2;
    let ok = two_byte || (w1 == 1 && tz.len() >= 3 && char_width(tz[2]) == 1);
    proof {
        if w1 == 1 && tz@.len() < 3 {
            assert(utf8_len(tz@) == 1 + 1);
        }
    }
    if !ok {
        return OffsetParse::Abort;
    }
    let k: usize = if two_byte {
        2
    } else {
        3
    };
    let hours_text = crate::text::sub_vec(tz, 1, k);
    let mins_text = crate::text::sub_vec(tz, k, tz.len());
    assert(mins_text@ =~= tz@.skip(k as int));
    let sign: i64 = if tz[0] == '+' {
        1
    } else {
        -1
    };
    match (parse_i32(hours_text.as_slice()), parse_i32(mins_text.as_slice())) {
        (Some(h), Some(m)) => {
            proof {
                lemma_short_signed(hours_text@, h as int);
                lemma_short_signed(mins_text@, m as int);
            }
            let v: i64 = sign * (h as i64 * 3600 + m as i64 * 60);
            if -86400 < v && v < 86400 {
                OffsetParse::Seconds(v as i32)
            } else {
                OffsetParse::NotOffset
            }
        },
        _ => OffsetParse::NotOffset,
    }
}

proof fn lemma_short_signed(t: Seq<char>, y: int)
    requires
        t.len() <= 4,
        pi32(t) == Some(y),
    ensures
        -9999 <= y <= 9999,
{
    let has_sign = t.len() > 0 && (t[0] == '+' || t[0] == '-');
    let body = if has_sign {
        t.drop_first()
    } else {
        t
    };
    lemma_digits_small(body);
}

proof fn lemma_digits_small(s: Seq<char>)
    requires
        s.len() <= 4,
        crate::text::all_digits(s),
    ensures
        crate::text::digits_value(s) <= 9999,
        s.len() <= 3 ==> crate::text::digits_value(s) <= 999,
        s.len() <= 2 ==> crate::text::digits_value(s) <= 99,
        s.len() <= 1 ==> crate::text::digits_value(s) <= 9,
    decreases s.len(),
{
    if s.len() > 0 {
        assert(crate::text::is_digit(s[s.len() - 1]));
        assert forall|i: int| 0 <= i < s.drop_last().len() implies crate::text::is_digit(
            #[trigger] s.drop_last()[i],
        ) by {
            assert(s.drop_last()[i] == s[i]);
        }
        lemma_digits_small(s.drop_last());
    }
}

} // verus!
