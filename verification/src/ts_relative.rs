//! `ts` at work: the stamp put before a line, and `ts -r`, which finds the
//! timestamps in a line and rewrites them.
use vstd::prelude::*;
use vstd::utf8::*;
use chrono::TimeZone;
use std::fmt::Write;
use crate::text::{append_all, decode_utf8_prefix, lemma_valid_prefix_len_of_valid, sub_vec};
use crate::ts_format::{
    concise_ago, concise_ago_spec, expand_subseconds, expand_subseconds_spec,
    sanitize_relative_format, sanitize_spec,
};
use crate::ts_parse::{fixed_lc, local_ok, parse_timestamp, timestamp_spec, Stamp};
use crate::ts_time::{in_chrono_range, valid_civil, Civil, Zone};

verus! {

broadcast use vstd::seq::group_seq_axioms;

#[verifier::external_type_specification]
#[verifier::external_body]
pub struct ExBytesRegex(regex::bytes::Regex);

/// The moment a line is read: its instant in epoch seconds and the local
/// date and time then.
#[derive(Clone, Copy, Debug, PartialEq, Eq, Structural)]
pub struct Now {
    pub epoch: i64,
    pub local: Civil,
}

// ---------------------------------------------------------------------------
// Formatting instants (chrono's strftime)
// ---------------------------------------------------------------------------

/// The text that chrono's `format` gives for the instant `epoch` seconds plus
/// `nanos` nanoseconds in UTC: None when the format has an error.
pub uninterp spec fn strftime_utc(epoch: int, nanos: int, fmt: Seq<char>) -> Option<Seq<char>>;

/// The same in the zone `offset` seconds east of UTC: None when chrono has no
/// such instant or zone, `Some(None)` when the format has an error.
pub uninterp spec fn strftime_at_offset(epoch: int, nanos: int, offset: int, fmt: Seq<char>) -> Option<Option<Seq<char>>>;

/// chrono: `Utc.timestamp_opt(epoch, nanos).single()` and `format(fmt)`,
/// written out with `write!` (an error item of the format makes it fail).
/// The instant exists for every `epoch` in chrono's range and `nanos` below a
/// second.
#[verifier::external_body]
fn format_utc(epoch: i64, nanos: u32, fmt: &str) -> (r: Option<Option<String>>)
    ensures
        in_chrono_range(epoch as int) && nanos < 1_000_000_000 ==> r is Some,
        match r {
            None => true,
            Some(None) => strftime_utc(epoch as int, nanos as int, fmt@) is None,
            Some(Some(s)) => strftime_utc(epoch as int, nanos as int, fmt@) == Some(s@),
        },
{
    let dt = chrono::Utc.timestamp_opt(epoch, nanos).single()?;
    let mut out = String::new();
    match write!(out, "{}", dt.format(fmt)) {
        Ok(()) => Some(Some(out)),
        Err(_) => Some(None),
    }
}

/// chrono: `FixedOffset::east_opt(offset)`, `timestamp_opt(epoch, nanos).single()`
/// and `format(fmt)`, written out with `write!`.
#[verifier::external_body]
fn format_at_offset(epoch: i64, nanos: u32, offset: i32, fmt: &str) -> (r: Option<Option<String>>)
    ensures
        match r {
            None => strftime_at_offset(epoch as int, nanos as int, offset as int, fmt@) is None,
            Some(None) => strftime_at_offset(epoch as int, nanos as int, offset as int, fmt@)
                == Some(None::<Seq<char>>),
            Some(Some(s)) => strftime_at_offset(epoch as int, nanos as int, offset as int, fmt@)
                == Some(Some(s@)),
        },
{
    let zone = chrono::FixedOffset::east_opt(offset)?;
    let dt = zone.timestamp_opt(epoch, nanos).single()?;
    let mut out = String::new();
    match write!(out, "{}", dt.format(fmt)) {
        Ok(()) => Some(Some(out)),
        Err(_) => Some(None),
    }
}

/// What formatting the instant `epoch` seconds plus `nanos` nanoseconds gives
/// in some zone less than a day from UTC: the result of `r` of a formatting
/// call, as text.
pub open spec fn formatted_in_some_zone(epoch: int, nanos: int, fmt: Seq<char>, r: Option<Seq<char>>) -> bool {
    exists|off: int| -86400 < off < 86400 && #[trigger] strftime_at_offset(epoch, nanos, off, fmt) == Some(r)
}

pub open spec fn opt_text(r: Option<String>) -> Option<Seq<char>> {
    match r {
        Some(s) => Some(s@),
        None => None,
    }
}

/// The text of a formatting call's result.
pub open spec fn opt_format(r: Option<Option<String>>) -> Option<Option<Seq<char>>> {
    match r {
        Some(x) => Some(opt_text(x)),
        None => None,
    }
}

/// chrono: `Local.timestamp_opt(epoch, nanos)` and `format(fmt)`, written
/// out with `write!`. `Local` is a time zone whose offset is a `FixedOffset`
/// chosen for each instant (so less than a day from UTC), and a
/// `DateTime<Local>` formats as the `DateTime<FixedOffset>` with that offset
/// does; `timestamp_opt` fails only where it fails for every zone. Which
/// offset the system picks is not stated.
#[verifier::external_body]
fn format_local(epoch: i64, nanos: u32, fmt: &str) -> (r: Option<Option<String>>)
    ensures
        in_chrono_range(epoch as int) && nanos < 1_000_000_000 ==> r is Some,
        r matches Some(x) ==> formatted_in_some_zone(epoch as int, nanos as int, fmt@, opt_text(x)),
{
    let dt = match chrono::Local.timestamp_opt(epoch, nanos) {
        chrono::LocalResult::Single(dt) => dt,
        chrono::LocalResult::Ambiguous(dt, _) => dt,
        chrono::LocalResult::None => return None,
    };
    let mut out = String::new();
    match write!(out, "{}", dt.format(fmt)) {
        Ok(()) => Some(Some(out)),
        Err(_) => Some(None),
    }
}

fn format_in_zone(epoch: i64, nanos: u32, zone: Zone, fmt: &str) -> (r: Option<Option<String>>)
    ensures
        zone matches Zone::Fixed(off) ==> match r {
            None => strftime_at_offset(epoch as int, nanos as int, off as int, fmt@) is None,
            Some(None) => strftime_at_offset(epoch as int, nanos as int, off as int, fmt@)
                == Some(None::<Seq<char>>),
            Some(Some(s)) => strftime_at_offset(epoch as int, nanos as int, off as int, fmt@)
                == Some(Some(s@)),
        },
        zone is System && in_chrono_range(epoch as int) && nanos < 1_000_000_000 ==> r is Some,
        zone is System ==> (r matches Some(x) ==> formatted_in_some_zone(epoch as int, nanos as int, fmt@, opt_text(x))),
{
    match zone {
        Zone::Fixed(off) => format_at_offset(epoch, nanos, off, fmt),
        Zone::System => format_local(epoch, nanos, fmt),
    }
}

/// The stamp of the default mode for the instant `epoch` seconds plus `nanos`
/// nanoseconds: `fmt` with its sub-second extensions expanded, formatted in
/// `zone`. None when the format has an error, where `ts` stops.
pub fn absolute_stamp(epoch: i64, nanos: u32, zone: Zone, fmt: &str) -> (r: Option<String>)
    ensures
        zone matches Zone::Fixed(off) ==> match r {
            Some(s) => strftime_at_offset(
                epoch as int,
                nanos as int,
                off as int,
                expand_subseconds_spec(fmt@, nanos as int / 1000),
            ) == Some(Some(s@)),
            None => !(strftime_at_offset(
                epoch as int,
                nanos as int,
                off as int,
                expand_subseconds_spec(fmt@, nanos as int / 1000),
            ) matches Some(Some(_))),
        },
        zone is System ==> match r {
            Some(s) => formatted_in_some_zone(
                epoch as int,
                nanos as int,
                expand_subseconds_spec(fmt@, nanos as int / 1000),
                Some(s@),
            ),
            None => !(in_chrono_range(epoch as int) && nanos < 1_000_000_000) || formatted_in_some_zone(
                epoch as int,
                nanos as int,
                expand_subseconds_spec(fmt@, nanos as int / 1000),
                None,
            ),
        },
{
    let expanded = expand_subseconds(fmt, nanos / 1000);
    match format_in_zone(epoch, nanos, zone, expanded.as_str()) {
        Some(Some(s)) => Some(s),
        _ => None,
    }
}

/// The stamp of `-i` and `-s` for an elapsed time of `secs` seconds and
/// `micros` microseconds: `fmt` with its sub-second extensions expanded,
/// formatted as that instant after the epoch in UTC. None when the format has
/// an error, where `ts` stops. The elapsed time is a `Duration`, whose
/// sub-second part is below a second, so `micros` is below a million (no
/// leap second arises from a duration).
pub fn format_elapsed(fmt: &str, secs: i64, micros: u32) -> (r: Option<String>)
    requires
        in_chrono_range(secs as int),
        micros < 1_000_000,
    ensures
        match r {
            Some(s) => strftime_utc(secs as int, micros * 1000, expand_subseconds_spec(fmt@, micros as int)) == Some(s@),
            None => strftime_utc(secs as int, micros * 1000, expand_subseconds_spec(fmt@, micros as int)) is None,
        },
{
    let expanded = expand_subseconds(fmt, micros);
    match format_utc(secs, micros * 1000, expanded.as_str()) {
        Some(Some(s)) => Some(s),
        _ => None,
    }
}

/// A line of the default mode: the stamp, a space, and the line as it was read.
pub fn stamp_line(stamp: &str, line: &[u8]) -> (r: Vec<u8>)
    ensures
        r@ == encode_utf8(stamp@) + seq![32u8] + line@,
{
    let mut out: Vec<u8> = Vec::new();
    append_all(&mut out, stamp.as_bytes());
    out.push(32u8);
    append_all(&mut out, line);
    out
}

// ---------------------------------------------------------------------------
// Finding timestamps
// ---------------------------------------------------------------------------

/// The pattern of the timestamps that `ts -r` recognises (verbose syntax:
/// its white space is not part of the pattern).
pub const TIMESTAMP_PATTERN: &'static str = r"(?x)
        \b(
            \d\d[-\s/]\w\w\w(?:/\d\d+)?[\s:]\d\d:\d\d(?::\d\d)?(?:\s+[+-]\d\d\d\d)?
          |
            \w{3}\s+\d{1,2}\s+\d\d:\d\d:\d\d
          |
            \d\d\d\d[-:]\d\d[-:]\d\dT\d\d:\d\d:\d\d\.\d+Z?
          |
            (?:\w\w\w,?\s+)?\d+\s+\w\w\w\s+\d\d+\s+\d\d:\d\d:\d\d(?:\s+\w\w\w|\s[+-]\d\d\d\d)?
          |
            \w\w\w\s+\w\w\w\s+\d\d\s+\d\d:\d\d
        )\b";

/// The successive non-overlapping matches, as byte ranges, that regex's
/// `find_iter` gives for the regex compiled from `pattern` in `line`.
pub uninterp spec fn regex_find_all(pattern: Seq<char>, line: Seq<u8>) -> Seq<(usize, usize)>;

/// The spans, as byte ranges, of the timestamps that `ts -r` finds in `line`,
/// in order.
pub open spec fn timestamp_spans(line: Seq<u8>) -> Seq<(usize, usize)> {
    regex_find_all(TIMESTAMP_PATTERN@, line)
}

/// Spans that lie in a text of `len` bytes, in order, without overlapping.
pub open spec fn spans_ok(spans: Seq<(usize, usize)>, len: int) -> bool {
    &&& forall|i: int| 0 <= i < spans.len() ==> #[trigger] spans[i].0 <= spans[i].1 <= len
    &&& forall|i: int, j: int| 0 <= i < j < spans.len() ==> #[trigger] spans[i].1 <= #[trigger] spans[j].0
}

/// A compiled pattern, with the text it was compiled from.
pub struct TimestampPattern {
    re: regex::bytes::Regex,
    source: String,
}

impl TimestampPattern {
    /// The text the pattern was compiled from.
    pub closed spec fn pattern(&self) -> Seq<char> {
        self.source@
    }

    /// The compiled pattern of `ts -r`.
    pub fn new() -> (p: TimestampPattern)
        ensures
            p.pattern() == TIMESTAMP_PATTERN@,
    {
        let source = String::from_str(TIMESTAMP_PATTERN);
        TimestampPattern { re: compile_regex(TIMESTAMP_PATTERN), source }
    }

    /// The matches of the pattern in `line`, as byte ranges in order.
    pub fn spans(&self, line: &[u8]) -> (r: Vec<(usize, usize)>)
        ensures
            r@ == regex_find_all(self.pattern(), line@),
            spans_ok(r@, line@.len() as int),
    {
        self.find_all(line)
    }

    /// regex: `find_iter` on the regex, which was compiled from `source` (the
    /// only constructor does so): the successive non-overlapping matches as
    /// byte ranges, which lie in the line in order.
    #[verifier::external_body]
    fn find_all(&self, line: &[u8]) -> (r: Vec<(usize, usize)>)
        ensures
            r@ == regex_find_all(self.source@, line@),
            spans_ok(r@, line@.len() as int),
    {
        self.re.find_iter(line).map(|m| (m.start(), m.end())).collect()
    }
}

/// regex: `Regex::new` on the pattern of `ts -r`, which compiles, so `unwrap`
/// does not panic.
#[verifier::external_body]
fn compile_regex(pattern: &str) -> (r: regex::bytes::Regex)
    requires
        pattern@ == TIMESTAMP_PATTERN@,
{
    regex::bytes::Regex::new(pattern).unwrap()
}

// ---------------------------------------------------------------------------
// Rewriting timestamps
// ---------------------------------------------------------------------------

/// The bytes in `r`, by their view.
pub open spec fn bytes_view(r: Option<Vec<u8>>) -> Option<Seq<u8>> {
    match r {
        Some(v) => Some(v@),
        None => None,
    }
}

/// The text of a found timestamp: its characters when it is valid UTF-8, else
/// nothing.
pub open spec fn matched_text(m: Seq<u8>) -> Seq<char> {
    if valid_utf8(m) {
        decode_utf8(m)
    } else {
        Seq::empty()
    }
}

/// What replaces the found timestamp `m` when times are read and written in
/// the zone `off` seconds east of UTC: its instant formatted with `fmt` (the
/// sub-second tokens made literal) when a format was given, else how long ago
/// it was; `m` itself when it is not a time or has no formatted instant.
/// None where `ts` stops (a malformed zone or format).
#[verifier::opaque]
pub open spec fn relative_piece(m: Seq<u8>, fmt: Seq<char>, use_format: bool, now: Now, off: int) -> Option<Seq<u8>> {
    match timestamp_spec(matched_text(m), now.local, fixed_lc(off)) {
        Stamp::Time(e) => if use_format {
            match strftime_at_offset(e as int, 0, off, sanitize_spec(fmt)) {
                None => Some(m),
                Some(None) => None,
                Some(Some(s)) => Some(encode_utf8(s)),
            }
        } else {
            Some(encode_utf8(concise_ago_spec(now.epoch - e)))
        },
        Stamp::NotTime => Some(m),
        Stamp::Abort => None,
    }
}

/// What replaces the found timestamp `m` when local times are turned into
/// instants by `lc` and an instant `e` is formatted as `fo(e)` says: as
/// `relative_piece`, with those two ways in place of a fixed zone's.
pub open spec fn piece_with(
    m: Seq<u8>,
    fmt: Seq<char>,
    use_format: bool,
    now: Now,
    lc: spec_fn(Civil) -> Option<int>,
    fo: spec_fn(int) -> Option<Option<Seq<char>>>,
) -> Option<Seq<u8>> {
    match timestamp_spec(matched_text(m), now.local, lc) {
        Stamp::Time(e) => if use_format {
            match fo(e as int) {
                None => Some(m),
                Some(None) => None,
                Some(Some(s)) => Some(encode_utf8(s)),
            }
        } else {
            Some(encode_utf8(concise_ago_spec(now.epoch - e)))
        },
        Stamp::NotTime => Some(m),
        Stamp::Abort => None,
    }
}

/// A way of formatting instants with `fmt` that could be the system's: each
/// result is what some zone less than a day from UTC gives.
pub open spec fn format_ok(fo: spec_fn(int) -> Option<Option<Seq<char>>>, fmt: Seq<char>) -> bool {
    forall|e: int| (#[trigger] fo(e)) is Some ==> formatted_in_some_zone(e, 0, fmt, fo(e).unwrap())
}

/// `p` is what replaces the found timestamp `m` in the system's time zone,
/// for some ways of reading and formatting local time that could be the
/// system's.
pub open spec fn piece_ok(m: Seq<u8>, fmt: Seq<char>, use_format: bool, now: Now, p: Option<Seq<u8>>) -> bool {
    exists|lc: spec_fn(Civil) -> Option<int>, fo: spec_fn(int) -> Option<Option<Seq<char>>>|
        #![trigger piece_with(m, fmt, use_format, now, lc, fo)]
        local_ok(lc) && format_ok(fo, sanitize_spec(fmt)) && p == piece_with(m, fmt, use_format, now, lc, fo)
}

/// The line from byte `pos` on, from span `k` on, with the span `spans[i]`
/// replaced by `pieces[i]`; None at the first piece that is None.
pub open spec fn rewrite_from(
    line: Seq<u8>,
    spans: Seq<(usize, usize)>,
    pieces: Seq<Option<Seq<u8>>>,
    k: int,
    pos: int,
) -> Option<Seq<u8>>
    decreases spans.len() - k,
{
    if k < 0 || k >= spans.len() {
        Some(line.subrange(pos, line.len() as int))
    } else {
        match pieces[k] {
            None => None,
            Some(p) => match rewrite_from(line, spans, pieces, k + 1, spans[k].1 as int) {
                None => None,
                Some(rest) => Some(line.subrange(pos, spans[k].0 as int) + p + rest),
            },
        }
    }
}

/// The line rewritten in the system's time zone: each span replaced by a
/// piece that could be the system's.
pub open spec fn rewritten_in_system_zone(
    line: Seq<u8>,
    spans: Seq<(usize, usize)>,
    fmt: Seq<char>,
    use_format: bool,
    now: Now,
    r: Option<Seq<u8>>,
) -> bool {
    exists|pieces: Seq<Option<Seq<u8>>>|
        #![trigger rewrite_from(line, spans, pieces, 0, 0)]
        pieces.len() == spans.len() && (forall|i: int| 0 <= i < spans.len() ==> piece_ok(
            line.subrange(spans[i].0 as int, spans[i].1 as int),
            fmt,
            use_format,
            now,
            #[trigger] pieces[i],
        )) && r == rewrite_from(line, spans, pieces, 0, 0)
}

/// The line from byte `pos` on with the timestamps at `spans` replaced.
pub open spec fn relative_from(
    line: Seq<u8>,
    spans: Seq<(usize, usize)>,
    pos: int,
    fmt: Seq<char>,
    use_format: bool,
    now: Now,
    off: int,
) -> Option<Seq<u8>>
    decreases spans.len(),
{
    if spans.len() == 0 {
        Some(line.subrange(pos, line.len() as int))
    } else {
        let s = spans[0].0 as int;
        let e = spans[0].1 as int;
        match relative_piece(line.subrange(s, e), fmt, use_format, now, off) {
            None => None,
            Some(p) => match relative_from(line, spans.drop_first(), e, fmt, use_format, now, off) {
                None => None,
                Some(rest) => Some(line.subrange(pos, s) + p + rest),
            },
        }
    }
}

/// The replacement for the found timestamp `m`.
pub fn relative_replacement(m: &[u8], fmt: &str, use_format: bool, now: Now, zone: Zone) -> (r: Option<Vec<u8>>)
    requires
        valid_civil(now.local),
        in_chrono_range(now.epoch as int),
    ensures
        zone matches Zone::Fixed(off) ==> bytes_view(r) == relative_piece(m@, fmt@, use_format, now, off as int),
        zone is System ==> piece_ok(m@, fmt@, use_format, now, bytes_view(r)),
{
    let (chars, n) = decode_utf8_prefix(m);
    let text: Vec<char> = if n == m.len() {
        assert(m@.subrange(0, n as int) =~= m@);
        chars
    } else {
        proof {
            if valid_utf8(m@) {
                lemma_valid_prefix_len_of_valid(m@);
            }
        }
        Vec::new()
    };
    assert(text@ == matched_text(m@));
    proof {
        reveal(relative_piece);
    }
    let st = parse_timestamp(text.as_slice(), now.local, zone);
    let ghost lc = choose|lc: spec_fn(Civil) -> Option<int>| local_ok(lc) && st == timestamp_spec(text@, now.local, lc);
    let ghost no_fo = |x: int| None::<Option<Seq<char>>>;
    match st {
        Stamp::Time(e) => if use_format {
            let f = sanitize_relative_format(fmt);
            let fr = format_in_zone(e, 0, zone, f.as_str());
            let ghost frv: Option<Option<Seq<char>>> = opt_format(fr);
            let ghost fo = |x: int| if x == e as int { frv } else { None::<Option<Seq<char>>> };
            let r = match fr {
                None => Some(sub_vec(m, 0, m.len())),
                Some(None) => None,
                Some(Some(s)) => {
                    let mut out: Vec<u8> = Vec::new();
                    append_all(&mut out, s.as_str().as_bytes());
                    Some(out)
                },
            };
            proof {
                if zone is System {
                    assert(format_ok(fo, sanitize_spec(fmt@))) by {
                        assert forall|x: int| (#[trigger] fo(x)) is Some implies formatted_in_some_zone(
                            x,
                            0,
                            sanitize_spec(fmt@),
                            fo(x).unwrap(),
                        ) by {
                            assert(x == e as int);
                        }
                    }
                    assert(bytes_view(r) == piece_with(m@, fmt@, use_format, now, lc, fo));
                }
            }
            r
        } else {
            let s = concise_ago(now.epoch - e);
            let mut out: Vec<u8> = Vec::new();
            append_all(&mut out, s.as_str().as_bytes());
            proof {
                if zone is System {
                    assert(bytes_view(Some(out)) == piece_with(m@, fmt@, use_format, now, lc, no_fo));
                }
            }
            Some(out)
        },
        Stamp::NotTime => {
            let r = Some(sub_vec(m, 0, m.len()));
            proof {
                if zone is System {
                    assert(bytes_view(r) == piece_with(m@, fmt@, use_format, now, lc, no_fo));
                }
            }
            r
        },
        Stamp::Abort => {
            proof {
                if zone is System {
                    assert(bytes_view(None) == piece_with(m@, fmt@, use_format, now, lc, no_fo));
                }
            }
            None
        },
    }
}

/// Whatever pieces come after the first `k`, rewriting the whole line is
/// `out` followed by rewriting from span `k` at byte `pos`.
#[verifier::opaque]
pub open spec fn rewrite_so_far(
    line: Seq<u8>,
    spans: Seq<(usize, usize)>,
    got: Seq<Option<Seq<u8>>>,
    k: int,
    pos: int,
    out: Seq<u8>,
) -> bool {
    forall|pcs: Seq<Option<Seq<u8>>>| pcs.len() == spans.len() && pcs.take(k) == got ==>
        #[trigger] rewrite_from(line, spans, pcs, 0, 0) == match rewrite_from(line, spans, pcs, k, pos) {
            None => None,
            Some(rest) => Some(out + rest),
        }
}

proof fn lemma_rewrite_start(line: Seq<u8>, spans: Seq<(usize, usize)>)
    ensures
        rewrite_so_far(line, spans, Seq::empty(), 0, 0, Seq::empty()),
{
    reveal(rewrite_so_far);
    assert forall|pcs: Seq<Option<Seq<u8>>>| pcs.len() == spans.len() && pcs.take(0) == Seq::<Option<Seq<u8>>>::empty() implies
        #[trigger] rewrite_from(line, spans, pcs, 0, 0) == match rewrite_from(line, spans, pcs, 0, 0) {
            None => None,
            Some(rest) => Some(Seq::<u8>::empty() + rest),
        } by {
        match rewrite_from(line, spans, pcs, 0, 0) {
            Some(rest) => { assert(Seq::<u8>::empty() + rest =~= rest); },
            None => {},
        }
    }
}

proof fn lemma_rewrite_step(
    line: Seq<u8>,
    spans: Seq<(usize, usize)>,
    got: Seq<Option<Seq<u8>>>,
    k: int,
    pos: int,
    out: Seq<u8>,
    p: Seq<u8>,
)
    requires
        0 <= k < spans.len(),
        got.len() == k,
        rewrite_so_far(line, spans, got, k, pos, out),
    ensures
        rewrite_so_far(line, spans, got.push(Some(p)), k + 1, spans[k].1 as int,
            out + line.subrange(pos, spans[k].0 as int) + p),
{
    reveal(rewrite_so_far);
    let g2 = got.push(Some(p));
    let out2 = out + line.subrange(pos, spans[k].0 as int) + p;
    assert forall|pcs: Seq<Option<Seq<u8>>>| pcs.len() == spans.len() && pcs.take(k + 1) == g2 implies
        #[trigger] rewrite_from(line, spans, pcs, 0, 0) == match rewrite_from(line, spans, pcs, k + 1, spans[k].1 as int) {
            None => None,
            Some(rest) => Some(out2 + rest),
        } by {
        assert(pcs.take(k) =~= got);
        assert(pcs[k] == pcs.take(k + 1)[k]);
        assert(pcs[k] == Some(p));
        match rewrite_from(line, spans, pcs, k + 1, spans[k].1 as int) {
            Some(rest2) => {
                assert(out + (line.subrange(pos, spans[k].0 as int) + p + rest2) =~= out2 + rest2);
            },
            None => {},
        }
    }
}

/// Rewriting stops at span `k`, whose piece is None.
proof fn lemma_rewrite_stop(
    line: Seq<u8>,
    spans: Seq<(usize, usize)>,
    got: Seq<Option<Seq<u8>>>,
    k: int,
    pos: int,
    out: Seq<u8>,
    fmt: Seq<char>,
    use_format: bool,
    now: Now,
)
    requires
        0 <= k < spans.len(),
        got.len() == k,
        rewrite_so_far(line, spans, got, k, pos, out),
        forall|i: int| 0 <= i < k ==> piece_ok(
            line.subrange(spans[i].0 as int, spans[i].1 as int),
            fmt,
            use_format,
            now,
            #[trigger] got[i],
        ),
        piece_ok(line.subrange(spans[k].0 as int, spans[k].1 as int), fmt, use_format, now, None),
    ensures
        rewritten_in_system_zone(line, spans, fmt, use_format, now, None),
{
    reveal(rewrite_so_far);
    let n = spans.len();
    let pieces = Seq::new(n, |i: int| if i < k {
        got[i]
    } else if i == k {
        None::<Seq<u8>>
    } else {
        piece_with(
            line.subrange(spans[i].0 as int, spans[i].1 as int),
            fmt,
            use_format,
            now,
            |c: Civil| None::<int>,
            |x: int| None::<Option<Seq<char>>>,
        )
    });
    assert(pieces.take(k) =~= got);
    assert(rewrite_from(line, spans, pieces, k, pos) is None);
    assert(rewrite_from(line, spans, pieces, 0, 0) is None);
    assert forall|i: int| 0 <= i < spans.len() implies piece_ok(
        line.subrange(spans[i].0 as int, spans[i].1 as int),
        fmt,
        use_format,
        now,
        #[trigger] pieces[i],
    ) by {
        if i > k {
            lemma_some_piece(line.subrange(spans[i].0 as int, spans[i].1 as int), fmt, use_format, now);
        } else if i < k {
            assert(pieces[i] == got[i]);
        }
    }
}

/// Rewriting ends after the last span with the rest of the line.
proof fn lemma_rewrite_end(
    line: Seq<u8>,
    spans: Seq<(usize, usize)>,
    got: Seq<Option<Seq<u8>>>,
    pos: int,
    out: Seq<u8>,
    fmt: Seq<char>,
    use_format: bool,
    now: Now,
)
    requires
        got.len() == spans.len(),
        0 <= pos <= line.len(),
        rewrite_so_far(line, spans, got, spans.len() as int, pos, out),
        forall|i: int| 0 <= i < spans.len() ==> piece_ok(
            line.subrange(spans[i].0 as int, spans[i].1 as int),
            fmt,
            use_format,
            now,
            #[trigger] got[i],
        ),
    ensures
        rewritten_in_system_zone(line, spans, fmt, use_format, now, Some(out + line.subrange(pos, line.len() as int))),
{
    reveal(rewrite_so_far);
    assert(got.take(spans.len() as int) =~= got);
    assert(rewrite_from(line, spans, got, spans.len() as int, pos) == Some(line.subrange(pos, line.len() as int)));
    assert(rewrite_from(line, spans, got, 0, 0) == Some(out + line.subrange(pos, line.len() as int)));
}

/// A piece that could be the system's for any found timestamp.
proof fn lemma_some_piece(m: Seq<u8>, fmt: Seq<char>, use_format: bool, now: Now)
    ensures
        piece_ok(m, fmt, use_format, now, piece_with(m, fmt, use_format, now, |c: Civil| None::<int>, |e: int| None::<Option<Seq<char>>>)),
{
    let lc0 = |c: Civil| None::<int>;
    let fo0 = |e: int| None::<Option<Seq<char>>>;
    assert(local_ok(lc0));
    assert(format_ok(fo0, sanitize_spec(fmt)));
}

/// `line` with the timestamps at `spans` replaced; None where `ts` stops.
#[verifier::rlimit(60)]
#[verifier::spinoff_prover]
pub fn replace_timestamps(
    line: &[u8],
    spans: &[(usize, usize)],
    fmt: &str,
    use_format: bool,
    now: Now,
    zone: Zone,
) -> (r: Option<Vec<u8>>)
    requires
        spans_ok(spans@, line@.len() as int),
        valid_civil(now.local),
        in_chrono_range(now.epoch as int),
    ensures
        zone matches Zone::Fixed(off) ==> bytes_view(r) == relative_from(
            line@,
            spans@,
            0,
            fmt@,
            use_format,
            now,
            off as int,
        ),
        zone is System ==> rewritten_in_system_zone(line@, spans@, fmt@, use_format, now, bytes_view(r)),
{
    let mut out: Vec<u8> = Vec::new();
    let mut pos: usize = 0;
    let mut k: usize = 0;
    let ghost n = spans@.len();
    let ghost mut got: Seq<Option<Seq<u8>>> = Seq::empty();
    assert(spans@.skip(0) =~= spans@);
    proof {
        lemma_rewrite_start(line@, spans@);
    }
    while k < spans.len()
        invariant
            k <= spans@.len(),
            n == spans@.len(),
            spans_ok(spans@, line@.len() as int),
            pos <= line@.len(),
            k > 0 ==> pos == spans@[k - 1].1,
            k == 0 ==> pos == 0,
            valid_civil(now.local),
            in_chrono_range(now.epoch as int),
            zone matches Zone::Fixed(off) ==> relative_from(line@, spans@, 0, fmt@, use_format, now, off as int)
                == match relative_from(line@, spans@.skip(k as int), pos as int, fmt@, use_format, now, off as int) {
                    None => None,
                    Some(rest) => Some(out@ + rest),
                },
            got.len() == k,
            zone is System ==> forall|i: int| 0 <= i < k ==> (#[trigger] got[i]) is Some && piece_ok(
                line@.subrange(spans@[i].0 as int, spans@[i].1 as int),
                fmt@,
                use_format,
                now,
                got[i],
            ),
            rewrite_so_far(line@, spans@, got, k as int, pos as int, out@),
        decreases spans@.len() - k,
    {
        let (s, e) = spans[k];
        assert(spans@[k as int] == (s, e));
        assert(s <= e <= line@.len());
        assert(pos <= s) by {
            if k > 0 {
                assert(spans@[k - 1].1 <= spans@[k as int].0);
            }
        }
        let m = sub_vec(line, s, e);
        assert(m@ == line@.subrange(s as int, e as int));
        let piece = relative_replacement(&m, fmt, use_format, now, zone);
        proof {
            let rest = spans@.skip(k as int);
            assert(rest[0] == (s, e));
            assert(rest.drop_first() =~= spans@.skip(k + 1));
        }
        match piece {
            None => {
                proof {
                    if zone is System {
                        assert(spans@[k as int] == (s, e));
                        lemma_rewrite_stop(line@, spans@, got, k as int, pos as int, out@, fmt@, use_format, now);
                    }
                }
                return None;
            },
            Some(p) => {
                let ghost old_out = out@;
                let ghost old_pos = pos as int;
                let ghost old_got = got;
                let ghost kk = k as int;
                append_all(&mut out, &sub_vec(line, pos, s));
                append_all(&mut out, &p);
                proof {
                    assert(out@ =~= old_out + line@.subrange(old_pos, s as int) + p@);
                    lemma_rewrite_step(line@, spans@, old_got, kk, old_pos, old_out, p@);
                    got = got.push(Some(p@));
                }
                pos = e;
                k = k + 1;
                proof {
                    match zone {
                        Zone::Fixed(off) => {
                            let r2 = relative_from(line@, spans@.skip(k as int), pos as int, fmt@, use_format, now, off as int);
                            match r2 {
                                Some(rest2) => {
                                    assert(old_out + (line@.subrange(old_pos, s as int) + p@ + rest2) =~= out@ + rest2);
                                },
                                None => {},
                            }
                        },
                        Zone::System => {},
                    }
                    if zone is System {
                        assert forall|i: int| 0 <= i < k implies (#[trigger] got[i]) is Some && piece_ok(
                            line@.subrange(spans@[i].0 as int, spans@[i].1 as int),
                            fmt@,
                            use_format,
                            now,
                            got[i],
                        ) by {
                            if i < kk {
                                assert(got[i] == old_got[i]);
                            } else {
                                assert(got[i] == Some(p@));
                            }
                        }
                    }
                }
            },
        }
    }
    assert(spans@.skip(k as int).len() == 0);
    let ghost old_out_end = out@;
    let ghost old_pos_end = pos as int;
    let tail = sub_vec(line, pos, line.len());
    append_all(&mut out, &tail);
    proof {
        if zone is System {
            lemma_rewrite_end(line@, spans@, got, old_pos_end, old_out_end, fmt@, use_format, now);
            assert(out@ =~= old_out_end + line@.subrange(old_pos_end, line@.len() as int));
        }
    }
    Some(out)
}

/// `line` with the timestamps that `pattern` finds rewritten; None where `ts`
/// stops.
pub fn convert_relative(
    line: &[u8],
    fmt: &str,
    use_format: bool,
    pattern: &TimestampPattern,
    now: Now,
    zone: Zone,
) -> (r: Option<Vec<u8>>)
    requires
        valid_civil(now.local),
        in_chrono_range(now.epoch as int),
    ensures
        zone matches Zone::Fixed(off) ==> bytes_view(r) == relative_from(
            line@,
            regex_find_all(pattern.pattern(), line@),
            0,
            fmt@,
            use_format,
            now,
            off as int,
        ),
        zone is System ==> rewritten_in_system_zone(
            line@,
            regex_find_all(pattern.pattern(), line@),
            fmt@,
            use_format,
            now,
            bytes_view(r),
        ),
{
    let spans = pattern.spans(line);
    replace_timestamps(line, spans.as_slice(), fmt, use_format, now, zone)
}

/// A line in which no timestamp is found comes out as it went in.
pub proof fn lemma_no_timestamp_unchanged(line: Seq<u8>, fmt: Seq<char>, use_format: bool, now: Now, off: int)
    ensures
        relative_from(line, Seq::empty(), 0, fmt, use_format, now, off) == Some(line),
{
    assert(line.subrange(0, line.len() as int) =~= line);
}

/// In the system's time zone too, a line in which no timestamp is found
/// comes out as it went in, whatever local time the system keeps.
pub proof fn lemma_no_timestamp_unchanged_system(line: Seq<u8>, fmt: Seq<char>, use_format: bool, now: Now, r: Option<Seq<u8>>)
    requires
        rewritten_in_system_zone(line, Seq::empty(), fmt, use_format, now, r),
    ensures
        r == Some(line),
{
    assert(line.subrange(0, line.len() as int) =~= line);
}

/// The text between and around the found timestamps is kept: when the
/// rewriting succeeds, the line starts with the text before the first
/// timestamp.
pub proof fn lemma_prefix_kept(line: Seq<u8>, spans: Seq<(usize, usize)>, fmt: Seq<char>, use_format: bool, now: Now, off: int)
    requires
        spans_ok(spans, line.len() as int),
        spans.len() > 0,
        relative_from(line, spans, 0, fmt, use_format, now, off) is Some,
    ensures
        relative_from(line, spans, 0, fmt, use_format, now, off).unwrap().take(spans[0].0 as int)
            == line.take(spans[0].0 as int),
{
    let s = spans[0].0 as int;
    let e = spans[0].1 as int;
    let p = relative_piece(line.subrange(s, e), fmt, use_format, now, off).unwrap();
    let rest = relative_from(line, spans.drop_first(), e, fmt, use_format, now, off).unwrap();
    assert((line.subrange(0, s) + p + rest).take(s) =~= line.take(s));
}

/// In the system's time zone too, a rewritten line starts with the text
/// before the first timestamp.
pub proof fn lemma_prefix_kept_system(
    line: Seq<u8>,
    spans: Seq<(usize, usize)>,
    fmt: Seq<char>,
    use_format: bool,
    now: Now,
    out: Seq<u8>,
)
    requires
        spans_ok(spans, line.len() as int),
        spans.len() > 0,
        rewritten_in_system_zone(line, spans, fmt, use_format, now, Some(out)),
    ensures
        out.take(spans[0].0 as int) == line.take(spans[0].0 as int),
{
    let pieces = choose|pieces: Seq<Option<Seq<u8>>>| #![trigger rewrite_from(line, spans, pieces, 0, 0)]
        pieces.len() == spans.len() && (forall|i: int| 0 <= i < spans.len() ==> piece_ok(
            line.subrange(spans[i].0 as int, spans[i].1 as int),
            fmt,
            use_format,
            now,
            #[trigger] pieces[i],
        )) && Some(out) == rewrite_from(line, spans, pieces, 0, 0);
    let s0 = spans[0].0 as int;
    let p = pieces[0].unwrap();
    let rest = rewrite_from(line, spans, pieces, 1, spans[0].1 as int).unwrap();
    assert((line.subrange(0, s0) + p + rest).take(s0) =~= line.take(s0));
}

} // verus!
