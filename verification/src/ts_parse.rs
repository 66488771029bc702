//! The timestamp formats that `ts -r` recognises, read into instants.
use vstd::prelude::*;
use crate::text::{
    after_first, before_first, contains_seq, ends_with, fields, has_suffix, index_of,
    lemma_after_first, replace_char, replace_chars, same_chars, split_chars, split_fields,
    split_on, sub_vec, trim_trailing, trim_trailing_chars, upper_chars, upper_seq, views_of, Sep,
};
use crate::ts_time::{
    fixed_epoch_spec, hms_spec, local_epoch, month_number, month_spec, offset_spec, parse_hms,
    parse_i32, parse_numeric_offset, parse_u32, parse_year, pi32, pu32, resolve_yearless,
    resolve_yearless_spec, valid_civil, in_chrono_range, weekday, weekday_spec, year_spec, is_valid_civil, Civil,
    OffsetParse, Zone,
};

verus! {

broadcast use vstd::seq::group_seq_axioms;

/// What reading a timestamp gives: its instant in epoch seconds, nothing (the
/// text is not a timestamp), or a text on which `ts` stops (see
/// `OffsetParse::Abort`).
#[derive(Clone, Copy, Debug, PartialEq, Eq, Structural)]
pub enum Stamp {
    Time(i64),
    NotTime,
    Abort,
}

pub open spec fn opt_stamp(o: Option<int>) -> Stamp {
    match o {
        Some(e) => Stamp::Time(e as i64),
        None => Stamp::NotTime,
    }
}

/// How local times are turned into instants in a zone `off` seconds east of UTC.
pub open spec fn fixed_lc(off: int) -> spec_fn(Civil) -> Option<int> {
    |c: Civil| fixed_epoch_spec(c, off)
}

pub open spec fn mk_civil(y: int, mo: int, d: int, h: int, mi: int, s: int) -> Civil {
    Civil {
        year: y as i32,
        month: mo as u32,
        day: d as u32,
        hour: h as u32,
        minute: mi as u32,
        second: s as u32,
    }
}

/// A way of turning local times into instants that could be the system's:
/// every instant it gives is the instant of that local time in some zone less
/// than a day from UTC (so of an existing time, and in chrono's range).
pub open spec fn local_ok(lc: spec_fn(Civil) -> Option<int>) -> bool {
    forall|c: Civil| (#[trigger] lc(c)) is Some ==> exists|off: int| #[trigger] fixed_epoch_spec(c, off) == lc(c)
}

pub open spec fn opt_int(o: Option<i64>) -> Option<int> {
    match o {
        Some(e) => Some(e as int),
        None => None,
    }
}

/// What the record `m` of local times already turned into instants says of
/// `c` (the first entry for it), or None when it has none.
pub open spec fn memo_look(m: Seq<(Civil, Option<i64>)>, c: Civil) -> Option<Option<int>>
    decreases m.len(),
{
    if m.len() == 0 {
        None
    } else if m[0].0 == c {
        Some(opt_int(m[0].1))
    } else {
        memo_look(m.drop_first(), c)
    }
}

/// `lc` gives for each local time of the record what the record says.
pub open spec fn agrees(lc: spec_fn(Civil) -> Option<int>, m: Seq<(Civil, Option<i64>)>) -> bool {
    forall|c: Civil| (#[trigger] memo_look(m, c)) is Some ==> lc(c) == memo_look(m, c).unwrap()
}

/// The local times of the record, and None for the others.
pub open spec fn memo_fn(m: Seq<(Civil, Option<i64>)>) -> spec_fn(Civil) -> Option<int> {
    |c: Civil| match memo_look(m, c) {
        Some(x) => x,
        None => None,
    }
}

/// The record holds what `local_epoch` promises in `zone`.
pub open spec fn memo_inv(m: Seq<(Civil, Option<i64>)>, zone: Zone) -> bool {
    &&& forall|i: int| 0 <= i < m.len() && (#[trigger] m[i]).1 is Some ==> valid_civil(m[i].0)
        && in_chrono_range(m[i].1.unwrap() as int)
        && exists|off: int| #[trigger] fixed_epoch_spec(m[i].0, off) == Some(m[i].1.unwrap() as int)
    &&& match zone {
        Zone::Fixed(off) => forall|i: int| 0 <= i < m.len() ==> opt_int((#[trigger] m[i]).1)
            == fixed_epoch_spec(m[i].0, off as int),
        Zone::System => true,
    }
}

proof fn lemma_look_concat(a: Seq<(Civil, Option<i64>)>, b: Seq<(Civil, Option<i64>)>, c: Civil)
    ensures
        memo_look(a + b, c) == match memo_look(a, c) {
            Some(x) => Some(x),
            None => memo_look(b, c),
        },
    decreases a.len(),
{
    if a.len() > 0 {
        assert((a + b).drop_first() =~= a.drop_first() + b);
        lemma_look_concat(a.drop_first(), b, c);
    } else {
        assert(a + b =~= b);
    }
}

proof fn lemma_look_entry(m: Seq<(Civil, Option<i64>)>, c: Civil)
    ensures
        memo_look(m, c) is Some ==> exists|i: int| 0 <= i < m.len() && (#[trigger] m[i]).0 == c
            && opt_int(m[i].1) == memo_look(m, c).unwrap(),
    decreases m.len(),
{
    if m.len() > 0 && m[0].0 != c {
        lemma_look_entry(m.drop_first(), c);
        if memo_look(m, c) is Some {
            let i = choose|i: int| 0 <= i < m.drop_first().len() && (#[trigger] m.drop_first()[i]).0 == c
                && opt_int(m.drop_first()[i].1) == memo_look(m, c).unwrap();
            assert(m[i + 1] == m.drop_first()[i]);
        }
    } else if m.len() > 0 {
        assert(m[0].0 == c);
    }
}

/// What the record gives is a way that could be the system's, it agrees with
/// the record, and in a fixed zone the zone's own way agrees too.
proof fn lemma_memo_fn(m: Seq<(Civil, Option<i64>)>, zone: Zone)
    requires
        memo_inv(m, zone),
    ensures
        local_ok(memo_fn(m)),
        agrees(memo_fn(m), m),
        zone matches Zone::Fixed(off) ==> agrees(fixed_lc(off as int), m),
{
    assert forall|c: Civil| (#[trigger] memo_fn(m)(c)) is Some implies exists|off: int| #[trigger] fixed_epoch_spec(c, off)
        == memo_fn(m)(c) by {
        lemma_look_entry(m, c);
        let i = choose|i: int| 0 <= i < m.len() && (#[trigger] m[i]).0 == c && opt_int(m[i].1) == memo_look(m, c).unwrap();
        assert(m[i].1 is Some);
    }
    match zone {
        Zone::Fixed(off) => {
            assert forall|c: Civil| (#[trigger] memo_look(m, c)) is Some implies fixed_lc(off as int)(c)
                == memo_look(m, c).unwrap() by {
                lemma_look_entry(m, c);
            }
        },
        Zone::System => {},
    }
}

/// Looks `c` up in the record.
fn memo_get(m: &Vec<(Civil, Option<i64>)>, c: Civil) -> (r: Option<Option<i64>>)
    ensures
        match r {
            Some(x) => memo_look(m@, c) == Some(opt_int(x)),
            None => memo_look(m@, c) is None,
        },
{
    let mut i: usize = 0;
    assert(m@.skip(0) =~= m@);
    while i < m.len()
        invariant
            i <= m@.len(),
            memo_look(m@, c) == memo_look(m@.skip(i as int), c),
        decreases m@.len() - i,
    {
        assert(m@.skip(i as int)[0] == m@[i as int]);
        assert(m@.skip(i as int).drop_first() =~= m@.skip(i + 1));
        if m[i].0 == c {
            return Some(m[i].1);
        }
        i += 1;
    }
    None
}

/// The instant of local time `c` in `zone`, asking each local time of the
/// system once and recording the answer.
fn conv_m(c: Civil, zone: Zone, memo: &mut Vec<(Civil, Option<i64>)>) -> (r: Stamp)
    requires
        memo_inv(old(memo)@, zone),
    ensures
        memo_inv(final(memo)@, zone),
        forall|lc: spec_fn(Civil) -> Option<int>| #[trigger] agrees(lc, final(memo)@) ==> agrees(lc, old(memo)@)
            && r == opt_stamp(lc(c)),
        r !is Abort,
        r matches Stamp::Time(e) ==> in_chrono_range(e as int),
{
    match memo_get(memo, c) {
        Some(x) => {
            proof {
                lemma_look_entry(memo@, c);
            }
            match x {
                Some(e) => Stamp::Time(e),
                None => Stamp::NotTime,
            }
        },
        None => {
            let ghost m0 = memo@;
            let res = local_epoch(c, zone);
            memo.push((c, res));
            proof {
                let m1 = memo@;
                assert(m1 =~= m0 + seq![(c, res)]);
                assert forall|k: Civil| #[trigger] memo_look(m1, k) == match memo_look(m0, k) {
                    Some(x) => Some(x),
                    None => memo_look(seq![(c, res)], k),
                } by {
                    lemma_look_concat(m0, seq![(c, res)], k);
                }
                assert(memo_look(seq![(c, res)], c) == Some(opt_int(res)));
                assert(memo_look(m1, c) == Some(opt_int(res)));
                assert forall|lc: spec_fn(Civil) -> Option<int>| #[trigger] agrees(lc, m1) implies agrees(lc, m0) by {
                    assert forall|k: Civil| (#[trigger] memo_look(m0, k)) is Some implies lc(k) == memo_look(m0, k).unwrap() by {
                        assert(memo_look(m1, k) == memo_look(m0, k));
                    }
                }
                assert forall|i: int| 0 <= i < m1.len() && (#[trigger] m1[i]).1 is Some implies valid_civil(m1[i].0)
                    && in_chrono_range(m1[i].1.unwrap() as int)
                    && exists|off: int| #[trigger] fixed_epoch_spec(m1[i].0, off) == Some(m1[i].1.unwrap() as int) by {
                    if i < m0.len() {
                        assert(m1[i] == m0[i]);
                    }
                }
                match zone {
                    Zone::Fixed(off) => {
                        assert forall|i: int| 0 <= i < m1.len() implies opt_int((#[trigger] m1[i]).1)
                            == fixed_epoch_spec(m1[i].0, off as int) by {
                            if i < m0.len() {
                                assert(m1[i] == m0[i]);
                            }
                        }
                    },
                    Zone::System => {},
                }
            }
            match res {
                Some(e) => Stamp::Time(e),
                None => Stamp::NotTime,
            }
        },
    }
}

/// The instant of local time `c`.
fn conv(c: Civil, zone: Zone) -> (r: Stamp)
    ensures
        zone matches Zone::Fixed(off) ==> r == opt_stamp(fixed_epoch_spec(c, off as int)),
        r !is Abort,
        r matches Stamp::Time(e) ==> in_chrono_range(e as int),
{
    match local_epoch(c, zone) {
        Some(e) => Stamp::Time(e),
        None => Stamp::NotTime,
    }
}

/// The instant of `c` in the zone that `tz` names: `GMT`, `UTC` or `Z` (any
/// case), or a numeric `+hhmm`/`-hhmm`.
pub open spec fn fixed_tz_spec(c: Civil, tz: Seq<char>) -> Stamp {
    let up = upper_seq(tz);
    if up == seq!['G', 'M', 'T'] || up == seq!['U', 'T', 'C'] || up == seq!['Z'] {
        opt_stamp(fixed_epoch_spec(c, 0))
    } else {
        match offset_spec(tz) {
            OffsetParse::Abort => Stamp::Abort,
            OffsetParse::NotOffset => Stamp::NotTime,
            OffsetParse::Seconds(o) => opt_stamp(fixed_epoch_spec(c, o as int)),
        }
    }
}

fn fixed_tz(c: Civil, tz: &[char]) -> (r: Stamp)
    ensures
        r == fixed_tz_spec(c, tz@),
        r matches Stamp::Time(e) ==> in_chrono_range(e as int),
{
    let up = upper_chars(tz);
    let gmt = vec!['G', 'M', 'T'];
    let utc = vec!['U', 'T', 'C'];
    let z = vec!['Z'];
    assert(gmt@ =~= seq!['G', 'M', 'T']);
    assert(utc@ =~= seq!['U', 'T', 'C']);
    assert(z@ =~= seq!['Z']);
    if same_chars(up.as_slice(), gmt.as_slice()) || same_chars(up.as_slice(), utc.as_slice())
        || same_chars(up.as_slice(), z.as_slice()) {
        conv(c, Zone::Fixed(0))
    } else {
        match parse_numeric_offset(tz) {
            OffsetParse::Abort => Stamp::Abort,
            OffsetParse::NotOffset => Stamp::NotTime,
            OffsetParse::Seconds(o) => conv(c, Zone::Fixed(o)),
        }
    }
}

// ---------------------------------------------------------------------------
// ISO 8601: `YYYY-MM-DDThh:mm:ss.fff[Z]`
// ---------------------------------------------------------------------------

pub open spec fn iso_spec(t: Seq<char>, lc: spec_fn(Civil) -> Option<int>) -> Stamp {
    if !t.contains('T') {
        Stamp::NotTime
    } else {
        let date = before_first(t, 'T');
        let rest = after_first(t, 'T');
        let dp = split_on(date, '-', ':');
        if dp.len() != 3 {
            Stamp::NotTime
        } else {
            match (pi32(dp[0]), pu32(dp[1]), pu32(dp[2])) {
                (Some(y), Some(mo), Some(d)) => {
                    let zulu = rest.len() > 0 && rest.last() == 'Z';
                    let r2 = trim_trailing(rest, 'Z');
                    if !r2.contains('.') {
                        Stamp::NotTime
                    } else {
                        match hms_spec(before_first(r2, '.'), true) {
                            None => Stamp::NotTime,
                            Some((h, mi, s)) => {
                                let c = mk_civil(y, mo, d, h, mi, s);
                                if !valid_civil(c) {
                                    Stamp::NotTime
                                } else if zulu {
                                    opt_stamp(fixed_epoch_spec(c, 0))
                                } else {
                                    opt_stamp(lc(c))
                                }
                            },
                        }
                    }
                },
                _ => Stamp::NotTime,
            }
        }
    }
}

fn split_at_first(s: &[char], c: char) -> (r: Option<(Vec<char>, Vec<char>)>)
    ensures
        match r {
            Some((a, b)) => s@.contains(c) && a@ == before_first(s@, c) && b@ == after_first(s@, c),
            None => !s@.contains(c),
        },
{
    let n = s.len();
    let found = index_of(s, c);
    match found {
        Some(i) => {
            assert(i < s@.len());
            proof {
                lemma_after_first(s@, c, i as int);
            }
            let a = sub_vec(s, 0, i);
            let b = sub_vec(s, i + 1, n);
            assert(b@ =~= s@.skip(i + 1));
            Some((a, b))
        },
        None => None,
    }
}

fn iso_core(t: &[char], zone: Zone, memo: &mut Vec<(Civil, Option<i64>)>) -> (r: Stamp)
    requires
        memo_inv(old(memo)@, zone),
    ensures
        memo_inv(final(memo)@, zone),
        forall|lc: spec_fn(Civil) -> Option<int>| #[trigger] agrees(lc, final(memo)@) ==> agrees(lc, old(memo)@)
            && r == iso_spec(t@, lc),
        r !is Abort,
        r matches Stamp::Time(e) ==> in_chrono_range(e as int),
{
    let (date, rest) = match split_at_first(t, 'T') {
        Some(p) => p,
        None => return Stamp::NotTime,
    };
    let dp = split_chars(date.as_slice(), '-', ':');
    if dp.len() != 3 {
        return Stamp::NotTime;
    }
    assert(dp[0]@ == views_of(dp@)[0] && dp[1]@ == views_of(dp@)[1] && dp[2]@ == views_of(dp@)[2]);
    let (y, mo, d) = match (parse_i32(dp[0].as_slice()), parse_u32(dp[1].as_slice()), parse_u32(dp[2].as_slice())) {
        (Some(y), Some(mo), Some(d)) => (y, mo, d),
        _ => return Stamp::NotTime,
    };
    let zulu = rest.len() > 0 && rest[rest.len() - 1] == 'Z';
    let r2 = trim_trailing_chars(rest.as_slice(), 'Z');
    let (time, _frac) = match split_at_first(r2.as_slice(), '.') {
        Some(p) => p,
        None => return Stamp::NotTime,
    };
    let (h, mi, s) = match parse_hms(time.as_slice(), true) {
        Some(v) => v,
        None => return Stamp::NotTime,
    };
    let c = Civil { year: y, month: mo, day: d, hour: h, minute: mi, second: s };
    assert(c == mk_civil(y as int, mo as int, d as int, h as int, mi as int, s as int));
    if !is_valid_civil(c) {
        return Stamp::NotTime;
    }
    if zulu {
        conv(c, Zone::Fixed(0))
    } else {
        conv_m(c, zone, memo)
    }
}

pub fn parse_iso8601(t: &[char], zone: Zone) -> (r: Stamp)
    ensures
        zone matches Zone::Fixed(off) ==> r == iso_spec(t@, fixed_lc(off as int)),
        exists|lc: spec_fn(Civil) -> Option<int>| #[trigger] local_ok(lc) && r == iso_spec(t@, lc),
        r !is Abort,
        r matches Stamp::Time(e) ==> in_chrono_range(e as int),
{
    let mut memo: Vec<(Civil, Option<i64>)> = Vec::new();
    let r = iso_core(t, zone, &mut memo);
    proof {
        lemma_memo_fn(memo@, zone);
        assert(local_ok(memo_fn(memo@)) && r == iso_spec(t@, memo_fn(memo@)));
    }
    r
}

// ---------------------------------------------------------------------------
// syslog: `Mon dd hh:mm:ss`
// ---------------------------------------------------------------------------

pub open spec fn syslog_spec(t: Seq<char>, now: Civil, lc: spec_fn(Civil) -> Option<int>) -> Stamp {
    let p = fields(t, Sep::Whitespace);
    if p.len() != 3 {
        Stamp::NotTime
    } else {
        match (month_spec(p[0]), pu32(p[1]), hms_spec(p[2], true)) {
            (Some(mo), Some(d), Some((h, mi, s))) => match resolve_yearless_spec(mo, d, h, mi, s, now) {
                None => Stamp::NotTime,
                Some(c) => opt_stamp(lc(c)),
            },
            _ => Stamp::NotTime,
        }
    }
}

fn syslog_core(t: &[char], now: Civil, zone: Zone, memo: &mut Vec<(Civil, Option<i64>)>) -> (r: Stamp)
    requires
        valid_civil(now),
        memo_inv(old(memo)@, zone),
    ensures
        memo_inv(final(memo)@, zone),
        forall|lc: spec_fn(Civil) -> Option<int>| #[trigger] agrees(lc, final(memo)@) ==> agrees(lc, old(memo)@)
            && r == syslog_spec(t@, now, lc),
        r !is Abort,
        r matches Stamp::Time(e) ==> in_chrono_range(e as int),
{
    let p = split_fields(t, Sep::Whitespace);
    if p.len() != 3 {
        return Stamp::NotTime;
    }
    assert(p[0]@ == views_of(p@)[0] && p[1]@ == views_of(p@)[1] && p[2]@ == views_of(p@)[2]);
    match (month_number(p[0].as_slice()), parse_u32(p[1].as_slice()), parse_hms(p[2].as_slice(), true)) {
        (Some(mo), Some(d), Some((h, mi, s))) => match resolve_yearless(mo, d, h, mi, s, now) {
            None => Stamp::NotTime,
            Some(c) => conv_m(c, zone, memo),
        },
        _ => Stamp::NotTime,
    }
}

pub fn parse_syslog(t: &[char], now: Civil, zone: Zone) -> (r: Stamp)
    requires
        valid_civil(now),
    ensures
        zone matches Zone::Fixed(off) ==> r == syslog_spec(t@, now, fixed_lc(off as int)),
        exists|lc: spec_fn(Civil) -> Option<int>| #[trigger] local_ok(lc) && r == syslog_spec(t@, now, lc),
        r !is Abort,
        r matches Stamp::Time(e) ==> in_chrono_range(e as int),
{
    let mut memo: Vec<(Civil, Option<i64>)> = Vec::new();
    let r = syslog_core(t, now, zone, &mut memo);
    proof {
        lemma_memo_fn(memo@, zone);
        assert(local_ok(memo_fn(memo@)) && r == syslog_spec(t@, now, memo_fn(memo@)));
    }
    r
}

// ---------------------------------------------------------------------------
// day and month: `dd Mon hh:mm[:ss] [+hhmm]` (dashes count as spaces)
// ---------------------------------------------------------------------------

pub open spec fn day_month_spec(t: Seq<char>, now: Civil, lc: spec_fn(Civil) -> Option<int>) -> Stamp {
    let p = fields(replace_char(t, '-', ' '), Sep::Whitespace);
    if p.len() < 3 || p.len() > 4 {
        Stamp::NotTime
    } else {
        match (pu32(p[0]), month_spec(p[1])) {
            (Some(d), Some(mo)) => if p[1].contains('/') {
                Stamp::NotTime
            } else {
                match hms_spec(p[2], false) {
                    None => Stamp::NotTime,
                    Some((h, mi, s)) => match resolve_yearless_spec(mo, d, h, mi, s, now) {
                        None => Stamp::NotTime,
                        Some(c) => if p.len() == 4 {
                            fixed_tz_spec(c, p[3])
                        } else {
                            opt_stamp(lc(c))
                        },
                    },
                }
            },
            _ => Stamp::NotTime,
        }
    }
}

fn day_month_core(t: &[char], now: Civil, zone: Zone, memo: &mut Vec<(Civil, Option<i64>)>) -> (r: Stamp)
    requires
        valid_civil(now),
        memo_inv(old(memo)@, zone),
    ensures
        memo_inv(final(memo)@, zone),
        forall|lc: spec_fn(Civil) -> Option<int>| #[trigger] agrees(lc, final(memo)@) ==> agrees(lc, old(memo)@)
            && r == day_month_spec(t@, now, lc),
        r matches Stamp::Time(e) ==> in_chrono_range(e as int),
{
    let normalized = replace_chars(t, '-', ' ');
    let p = split_fields(normalized.as_slice(), Sep::Whitespace);
    if p.len() < 3 || p.len() > 4 {
        return Stamp::NotTime;
    }
    assert(p[0]@ == views_of(p@)[0] && p[1]@ == views_of(p@)[1] && p[2]@ == views_of(p@)[2]);
    let (d, mo) = match (parse_u32(p[0].as_slice()), month_number(p[1].as_slice())) {
        (Some(d), Some(mo)) => (d, mo),
        _ => return Stamp::NotTime,
    };
    if index_of(p[1].as_slice(), '/').is_some() {
        return Stamp::NotTime;
    }
    let (h, mi, s) = match parse_hms(p[2].as_slice(), false) {
        Some(v) => v,
        None => return Stamp::NotTime,
    };
    let c = match resolve_yearless(mo, d, h, mi, s, now) {
        Some(c) => c,
        None => return Stamp::NotTime,
    };
    if p.len() == 4 {
        assert(p[3]@ == views_of(p@)[3]);
        fixed_tz(c, p[3].as_slice())
    } else {
        conv_m(c, zone, memo)
    }
}

pub fn parse_day_month_time(t: &[char], now: Civil, zone: Zone) -> (r: Stamp)
    requires
        valid_civil(now),
    ensures
        zone matches Zone::Fixed(off) ==> r == day_month_spec(t@, now, fixed_lc(off as int)),
        exists|lc: spec_fn(Civil) -> Option<int>| #[trigger] local_ok(lc) && r == day_month_spec(t@, now, lc),
        r matches Stamp::Time(e) ==> in_chrono_range(e as int),
{
    let mut memo: Vec<(Civil, Option<i64>)> = Vec::new();
    let r = day_month_core(t, now, zone, &mut memo);
    proof {
        lemma_memo_fn(memo@, zone);
        assert(local_ok(memo_fn(memo@)) && r == day_month_spec(t@, now, memo_fn(memo@)));
    }
    r
}

// ---------------------------------------------------------------------------
// RFC 822-like: `[Wdy[,]] dd Mon yy[yy] hh:mm:ss [zone]`
// ---------------------------------------------------------------------------

pub open spec fn rfc_spec(t: Seq<char>, lc: spec_fn(Civil) -> Option<int>) -> Stamp {
    let p0 = fields(t, Sep::Whitespace);
    let p = if p0.len() > 0 && (ends_with(p0[0], seq![',']) || weekday_spec(p0[0])) {
        p0.drop_first()
    } else {
        p0
    };
    if p.len() < 4 || p.len() > 5 {
        Stamp::NotTime
    } else {
        match (pu32(p[0]), month_spec(p[1]), year_spec(p[2]), hms_spec(p[3], true)) {
            (Some(d), Some(mo), Some(y), Some((h, mi, s))) => {
                let c = mk_civil(y, mo, d, h, mi, s);
                if !valid_civil(c) {
                    Stamp::NotTime
                } else if p.len() == 5 {
                    fixed_tz_spec(c, p[4])
                } else {
                    opt_stamp(lc(c))
                }
            },
            _ => Stamp::NotTime,
        }
    }
}

fn rfc_core(t: &[char], zone: Zone, memo: &mut Vec<(Civil, Option<i64>)>) -> (r: Stamp)
    requires
        memo_inv(old(memo)@, zone),
    ensures
        memo_inv(final(memo)@, zone),
        forall|lc: spec_fn(Civil) -> Option<int>| #[trigger] agrees(lc, final(memo)@) ==> agrees(lc, old(memo)@)
            && r == rfc_spec(t@, lc),
        r matches Stamp::Time(e) ==> in_chrono_range(e as int),
{
    let p0 = split_fields(t, Sep::Whitespace);
    let comma = vec![','];
    assert(comma@ =~= seq![',']);
    let skip: usize = if p0.len() > 0 && (has_suffix(p0[0].as_slice(), comma.as_slice()) || weekday(p0[0].as_slice())) {
        assert(p0[0]@ == views_of(p0@)[0]);
        1
    } else {
        proof {
            if p0@.len() > 0 {
                assert(p0[0]@ == views_of(p0@)[0]);
            }
        }
        0
    };
    let ghost p = views_of(p0@).skip(skip as int);
    proof {
        if skip == 1 {
            assert(p =~= views_of(p0@).drop_first());
        } else {
            assert(p =~= views_of(p0@));
        }
    }
    let n = p0.len() - skip;
    if n < 4 || n > 5 {
        return Stamp::NotTime;
    }
    assert(p0@[skip as int]@ == p[0] && p0@[skip + 1]@ == p[1] && p0@[skip + 2]@ == p[2] && p0@[skip + 3]@ == p[3]);
    let (d, mo, y, hms) = match (
        parse_u32(p0[skip].as_slice()),
        month_number(p0[skip + 1].as_slice()),
        parse_year(p0[skip + 2].as_slice()),
        parse_hms(p0[skip + 3].as_slice(), true),
    ) {
        (Some(d), Some(mo), Some(y), Some(hms)) => (d, mo, y, hms),
        _ => return Stamp::NotTime,
    };
    let (h, mi, s) = hms;
    let c = Civil { year: y, month: mo, day: d, hour: h, minute: mi, second: s };
    assert(c == mk_civil(y as int, mo as int, d as int, h as int, mi as int, s as int));
    if !is_valid_civil(c) {
        return Stamp::NotTime;
    }
    if n == 5 {
        assert(p0@[skip + 4]@ == p[4]);
        fixed_tz(c, p0[skip + 4].as_slice())
    } else {
        conv_m(c, zone, memo)
    }
}

pub fn parse_rfc_like(t: &[char], zone: Zone) -> (r: Stamp)
    ensures
        zone matches Zone::Fixed(off) ==> r == rfc_spec(t@, fixed_lc(off as int)),
        exists|lc: spec_fn(Civil) -> Option<int>| #[trigger] local_ok(lc) && r == rfc_spec(t@, lc),
        r matches Stamp::Time(e) ==> in_chrono_range(e as int),
{
    let mut memo: Vec<(Civil, Option<i64>)> = Vec::new();
    let r = rfc_core(t, zone, &mut memo);
    proof {
        lemma_memo_fn(memo@, zone);
        assert(local_ok(memo_fn(memo@)) && r == rfc_spec(t@, memo_fn(memo@)));
    }
    r
}

// ---------------------------------------------------------------------------
// lastlog: `Wdy Mon dd hh:mm[:ss]`
// ---------------------------------------------------------------------------

pub open spec fn lastlog_spec(t: Seq<char>, now: Civil, lc: spec_fn(Civil) -> Option<int>) -> Stamp {
    let p = fields(t, Sep::Whitespace);
    if p.len() != 4 || !weekday_spec(p[0]) {
        Stamp::NotTime
    } else {
        match (month_spec(p[1]), pu32(p[2]), hms_spec(p[3], false)) {
            (Some(mo), Some(d), Some((h, mi, s))) => match resolve_yearless_spec(mo, d, h, mi, s, now) {
                None => Stamp::NotTime,
                Some(c) => opt_stamp(lc(c)),
            },
            _ => Stamp::NotTime,
        }
    }
}

fn lastlog_core(t: &[char], now: Civil, zone: Zone, memo: &mut Vec<(Civil, Option<i64>)>) -> (r: Stamp)
    requires
        valid_civil(now),
        memo_inv(old(memo)@, zone),
    ensures
        memo_inv(final(memo)@, zone),
        forall|lc: spec_fn(Civil) -> Option<int>| #[trigger] agrees(lc, final(memo)@) ==> agrees(lc, old(memo)@)
            && r == lastlog_spec(t@, now, lc),
        r !is Abort,
        r matches Stamp::Time(e) ==> in_chrono_range(e as int),
{
    let p = split_fields(t, Sep::Whitespace);
    if p.len() != 4 {
        return Stamp::NotTime;
    }
    assert(p[0]@ == views_of(p@)[0] && p[1]@ == views_of(p@)[1] && p[2]@ == views_of(p@)[2] && p[3]@ == views_of(p@)[3]);
    if !weekday(p[0].as_slice()) {
        return Stamp::NotTime;
    }
    match (month_number(p[1].as_slice()), parse_u32(p[2].as_slice()), parse_hms(p[3].as_slice(), false)) {
        (Some(mo), Some(d), Some((h, mi, s))) => match resolve_yearless(mo, d, h, mi, s, now) {
            None => Stamp::NotTime,
            Some(c) => conv_m(c, zone, memo),
        },
        _ => Stamp::NotTime,
    }
}

pub fn parse_lastlog(t: &[char], now: Civil, zone: Zone) -> (r: Stamp)
    requires
        valid_civil(now),
    ensures
        zone matches Zone::Fixed(off) ==> r == lastlog_spec(t@, now, fixed_lc(off as int)),
        exists|lc: spec_fn(Civil) -> Option<int>| #[trigger] local_ok(lc) && r == lastlog_spec(t@, now, lc),
        r !is Abort,
        r matches Stamp::Time(e) ==> in_chrono_range(e as int),
{
    let mut memo: Vec<(Civil, Option<i64>)> = Vec::new();
    let r = lastlog_core(t, now, zone, &mut memo);
    proof {
        lemma_memo_fn(memo@, zone);
        assert(local_ok(memo_fn(memo@)) && r == lastlog_spec(t@, now, memo_fn(memo@)));
    }
    r
}

// ---------------------------------------------------------------------------
// All formats
// ---------------------------------------------------------------------------

/// The first of the formats, in the order ISO 8601, syslog, day and month,
/// RFC 822-like, lastlog, that reads `t`.
pub open spec fn timestamp_spec(t: Seq<char>, now: Civil, lc: spec_fn(Civil) -> Option<int>) -> Stamp {
    let a = iso_spec(t, lc);
    if a !is NotTime {
        a
    } else {
        let b = syslog_spec(t, now, lc);
        if b !is NotTime {
            b
        } else {
            let c = day_month_spec(t, now, lc);
            if c !is NotTime {
                c
            } else {
                let d = rfc_spec(t, lc);
                if d !is NotTime {
                    d
                } else {
                    lastlog_spec(t, now, lc)
                }
            }
        }
    }
}

/// Reads the timestamp `t`; times without a zone are local times of `zone`,
/// and dates without a year belong to the last year up to `now`. Each local
/// time is turned into an instant at most once, so one way of doing so
/// serves for every format tried.
pub fn parse_timestamp(t: &[char], now: Civil, zone: Zone) -> (r: Stamp)
    requires
        valid_civil(now),
    ensures
        zone matches Zone::Fixed(off) ==> r == timestamp_spec(t@, now, fixed_lc(off as int)),
        exists|lc: spec_fn(Civil) -> Option<int>| #[trigger] local_ok(lc) && r == timestamp_spec(t@, now, lc),
        r matches Stamp::Time(e) ==> in_chrono_range(e as int),
{
    let mut memo: Vec<(Civil, Option<i64>)> = Vec::new();
    let r = timestamp_core(t, now, zone, &mut memo);
    proof {
        lemma_memo_fn(memo@, zone);
        assert(local_ok(memo_fn(memo@)) && r == timestamp_spec(t@, now, memo_fn(memo@)));
    }
    r
}

fn timestamp_core(t: &[char], now: Civil, zone: Zone, memo: &mut Vec<(Civil, Option<i64>)>) -> (r: Stamp)
    requires
        valid_civil(now),
        memo_inv(old(memo)@, zone),
    ensures
        memo_inv(final(memo)@, zone),
        forall|lc: spec_fn(Civil) -> Option<int>| #[trigger] agrees(lc, final(memo)@) ==> agrees(lc, old(memo)@)
            && r == timestamp_spec(t@, now, lc),
        r matches Stamp::Time(e) ==> in_chrono_range(e as int),
{
    let ghost m0 = memo@;
    let a = iso_core(t, zone, memo);
    if a != Stamp::NotTime {
        return a;
    }
    let ghost m1 = memo@;
    let b = syslog_core(t, now, zone, memo);
    if b != Stamp::NotTime {
        proof {
            assert forall|lc: spec_fn(Civil) -> Option<int>| #[trigger] agrees(lc, memo@) implies agrees(lc, m0)
                && b == timestamp_spec(t@, now, lc) by {
                assert(agrees(lc, m1));
            }
        }
        return b;
    }
    let ghost m2 = memo@;
    let c = day_month_core(t, now, zone, memo);
    if c != Stamp::NotTime {
        proof {
            assert forall|lc: spec_fn(Civil) -> Option<int>| #[trigger] agrees(lc, memo@) implies agrees(lc, m0)
                && c == timestamp_spec(t@, now, lc) by {
                assert(agrees(lc, m2));
                assert(agrees(lc, m1));
            }
        }
        return c;
    }
    let ghost m3 = memo@;
    let d = rfc_core(t, zone, memo);
    if d != Stamp::NotTime {
        proof {
            assert forall|lc: spec_fn(Civil) -> Option<int>| #[trigger] agrees(lc, memo@) implies agrees(lc, m0)
                && d == timestamp_spec(t@, now, lc) by {
                assert(agrees(lc, m3));
                assert(agrees(lc, m2));
                assert(agrees(lc, m1));
            }
        }
        return d;
    }
    let ghost m4 = memo@;
    let e = lastlog_core(t, now, zone, memo);
    proof {
        assert forall|lc: spec_fn(Civil) -> Option<int>| #[trigger] agrees(lc, memo@) implies agrees(lc, m0)
            && e == timestamp_spec(t@, now, lc) by {
            assert(agrees(lc, m4));
            assert(agrees(lc, m3));
            assert(agrees(lc, m2));
            assert(agrees(lc, m1));
        }
    }
    e
}

/// An ISO 8601 time that ends in `Z` is read as UTC, whatever the local
/// time of the system.
pub proof fn lemma_zulu_any_local_time(t: Seq<char>, lc1: spec_fn(Civil) -> Option<int>, lc2: spec_fn(Civil) -> Option<int>)
    requires
        t.contains('T'),
        after_first(t, 'T').len() > 0,
        after_first(t, 'T').last() == 'Z',
    ensures
        iso_spec(t, lc1) == iso_spec(t, lc2),
{
}

/// An RFC 822-like time with its own zone field reads the same whatever the
/// local time of the system.
pub proof fn lemma_rfc_zone_any_local_time(t: Seq<char>, lc1: spec_fn(Civil) -> Option<int>, lc2: spec_fn(Civil) -> Option<int>)
    requires
        ({
            let p0 = fields(t, Sep::Whitespace);
            let p = if p0.len() > 0 && (ends_with(p0[0], seq![',']) || weekday_spec(p0[0])) {
                p0.drop_first()
            } else {
                p0
            };
            p.len() == 5
        }),
    ensures
        rfc_spec(t, lc1) == rfc_spec(t, lc2),
{
}

} // verus!
