//! Formats used by `ts`: the sub-second extensions of its time formats, the
//! escaping of formats in relative mode, and the concise "time ago" text.
use vstd::prelude::*;
use crate::text::{decimal, digit_char, push_decimal, string_from_chars, chars_of, append_all};

verus! {

broadcast use vstd::seq::group_seq_axioms;

// ---------------------------------------------------------------------------
// Sub-second extensions
// ---------------------------------------------------------------------------

/// Six decimal digits of `m` (zero padded), for `m < 1_000_000`.
pub open spec fn micros6(m: int) -> Seq<char> {
    seq![
        digit_char((m / 100000) % 10),
        digit_char((m / 10000) % 10),
        digit_char((m / 1000) % 10),
        digit_char((m / 100) % 10),
        digit_char((m / 10) % 10),
        digit_char(m % 10),
    ]
}

pub open spec fn is_subsecond_letter(c: char) -> bool {
    c == 'S' || c == 'T' || c == 's'
}

/// The microseconds `m` in decimal, zero padded to six digits (`{:06}`): more
/// digits only in a leap second, where `m` reaches a million.
pub open spec fn micros_text(m: int) -> Seq<char> {
    if m < 1_000_000 {
        micros6(m)
    } else {
        decimal(m as nat)
    }
}

/// `fmt` with each `%.S`, `%.T` and `%.s` turned into `%S.`, `%T.` or `%s.`
/// followed by the microseconds `m` (`micros_text`); other text is kept.
pub open spec fn expand_subseconds_spec(s: Seq<char>, m: int) -> Seq<char>
    decreases s.len(),
{
    if s.len() == 0 {
        Seq::empty()
    } else if s[0] == '%' && s.len() >= 2 && s[1] == '.' {
        if s.len() >= 3 && is_subsecond_letter(s[2]) {
            seq!['%', s[2], '.'] + micros_text(m) + expand_subseconds_spec(s.skip(3), m)
        } else {
            seq!['%', '.'] + expand_subseconds_spec(s.skip(2), m)
        }
    } else {
        seq![s[0]] + expand_subseconds_spec(s.drop_first(), m)
    }
}

fn digit_u32(d: u32) -> (c: char)
    requires
        d < 10,
    ensures
        c == digit_char(d as int),
{
    ((d as u8) + 48) as char
}

fn push_micros6(out: &mut Vec<char>, m: u32)
    requires
        m < 1_000_000,
    ensures
        final(out)@ == old(out)@ + micros6(m as int),
{
    out.push(digit_u32((m / 100000) % 10));
    out.push(digit_u32((m / 10000) % 10));
    out.push(digit_u32((m / 1000) % 10));
    out.push(digit_u32((m / 100) % 10));
    out.push(digit_u32((m / 10) % 10));
    out.push(digit_u32(m % 10));
    assert(final(out)@ =~= old(out)@ + micros6(m as int));
}

fn push_micros(out: &mut Vec<char>, m: u32)
    ensures
        final(out)@ == old(out)@ + micros_text(m as int),
{
    if m < 1_000_000 {
        push_micros6(out, m);
    } else {
        push_decimal(out, m as u64);
    }
}

/// Expands the sub-second extensions `%.S`, `%.T` and `%.s` of `fmt` for the
/// microseconds `micros`.
pub fn expand_subseconds(fmt: &str, micros: u32) -> (r: String)
    ensures
        r@ == expand_subseconds_spec(fmt@, micros as int),
{
    let s = chars_of(fmt);
    let n = s.len();
    let mut out: Vec<char> = Vec::new();
    let mut i: usize = 0;
    assert(s@.skip(0) =~= s@);
    while i < n
        invariant
            i <= n == s@.len(),
            out@ + expand_subseconds_spec(s@.skip(i as int), micros as int)
                == expand_subseconds_spec(s@, micros as int),
        decreases n - i,
    {
        let ghost rest = s@.skip(i as int);
        let ghost before = out@;
        let c = s[i];
        assert(rest[0] == c);
        if c == '%' && i + 1 < n && s[i + 1] == '.' {
            assert(rest[1] == s@[i + 1]);
            if i + 2 < n && (s[i + 2] == 'S' || s[i + 2] == 'T' || s[i + 2] == 's') {
                assert(rest[2] == s@[i + 2]);
                out.push('%');
                out.push(s[i + 2]);
                out.push('.');
                push_micros(&mut out, micros);
                assert(rest.skip(3) =~= s@.skip(i + 3));
                assert(out@ =~= before + (seq!['%', s@[i + 2], '.'] + micros_text(micros as int)));
                i += 3;
            } else {
                proof {
                    if rest.len() >= 3 {
                        assert(rest[2] == s@[i + 2]);
                    }
                }
                out.push('%');
                out.push('.');
                assert(rest.skip(2) =~= s@.skip(i + 2));
                assert(out@ =~= before + seq!['%', '.']);
                i += 2;
            }
        } else {
            proof {
                if rest.len() >= 2 {
                    assert(rest[1] == s@[i + 1]);
                }
            }
            out.push(c);
            assert(rest.drop_first() =~= s@.skip(i + 1));
            assert(out@ =~= before + seq![c]);
            i += 1;
        }
    }
    assert(expand_subseconds_spec(s@.skip(n as int), micros as int) =~= Seq::<char>::empty());
    assert(out@ =~= expand_subseconds_spec(s@, micros as int));
    string_from_chars(out.as_slice())
}

// ---------------------------------------------------------------------------
// Formats in relative mode
// ---------------------------------------------------------------------------

/// The format of relative mode with its sub-second tokens made literal:
/// `%%` stays `%%`, `%.S`, `%.s` and `%.T` become `%%.S` and so on, and other
/// text is kept.
pub open spec fn sanitize_spec(s: Seq<char>) -> Seq<char>
    decreases s.len(),
{
    if s.len() == 0 {
        Seq::empty()
    } else if s[0] != '%' {
        seq![s[0]] + sanitize_spec(s.drop_first())
    } else if s.len() >= 2 && s[1] == '%' {
        seq!['%', '%'] + sanitize_spec(s.skip(2))
    } else if s.len() >= 2 && s[1] == '.' {
        if s.len() >= 3 && is_subsecond_letter(s[2]) {
            seq!['%', '%', '.', s[2]] + sanitize_spec(s.skip(3))
        } else {
            seq!['%', '.'] + sanitize_spec(s.skip(2))
        }
    } else {
        seq!['%'] + sanitize_spec(s.drop_first())
    }
}

/// Makes the sub-second tokens of a relative-mode format literal.
pub fn sanitize_relative_format(fmt: &str) -> (r: String)
    ensures
        r@ == sanitize_spec(fmt@),
{
    let s = chars_of(fmt);
    let n = s.len();
    let mut out: Vec<char> = Vec::new();
    let mut i: usize = 0;
    assert(s@.skip(0) =~= s@);
    while i < n
        invariant
            i <= n == s@.len(),
            out@ + sanitize_spec(s@.skip(i as int)) == sanitize_spec(s@),
        decreases n - i,
    {
        let ghost rest = s@.skip(i as int);
        let ghost before = out@;
        let c = s[i];
        assert(rest[0] == c);
        proof {
            if rest.len() >= 2 {
                assert(rest[1] == s@[i + 1]);
            }
            if rest.len() >= 3 {
                assert(rest[2] == s@[i + 2]);
            }
        }
        if c != '%' {
            out.push(c);
            assert(rest.drop_first() =~= s@.skip(i + 1));
            assert(out@ =~= before + seq![c]);
            i += 1;
        } else if i + 1 < n && s[i + 1] == '%' {
            out.push('%');
            out.push('%');
            assert(rest.skip(2) =~= s@.skip(i + 2));
            assert(out@ =~= before + seq!['%', '%']);
            i += 2;
        } else if i + 1 < n && s[i + 1] == '.' {
            if i + 2 < n && (s[i + 2] == 'S' || s[i + 2] == 's' || s[i + 2] == 'T') {
                out.push('%');
                out.push('%');
                out.push('.');
                out.push(s[i + 2]);
                assert(rest.skip(3) =~= s@.skip(i + 3));
                assert(out@ =~= before + seq!['%', '%', '.', s@[i + 2]]);
                i += 3;
            } else {
                out.push('%');
                out.push('.');
                assert(rest.skip(2) =~= s@.skip(i + 2));
                assert(out@ =~= before + seq!['%', '.']);
                i += 2;
            }
        } else {
            out.push('%');
            assert(rest.drop_first() =~= s@.skip(i + 1));
            assert(out@ =~= before + seq!['%']);
            i += 1;
        }
    }
    assert(sanitize_spec(s@.skip(n as int)) =~= Seq::<char>::empty());
    assert(out@ =~= sanitize_spec(s@));
    string_from_chars(out.as_slice())
}

// ---------------------------------------------------------------------------
// "Time ago"
// ---------------------------------------------------------------------------

/// `secs` in years (of 365 days), days, hours, minutes and seconds.
pub open spec fn ago_units(secs: int) -> Seq<int> {
    seq![
        secs / 31536000,
        (secs % 31536000) / 86400,
        (secs % 86400) / 3600,
        (secs % 3600) / 60,
        secs % 60,
    ]
}

/// How many of unit `i` make one of unit `i - 1`.
pub open spec fn unit_limit(i: int) -> int {
    if i == 1 {
        365
    } else if i == 2 {
        24
    } else {
        60
    }
}

pub open spec fn unit_label(i: int) -> char {
    if i == 0 {
        'y'
    } else if i == 1 {
        'd'
    } else if i == 2 {
        'h'
    } else if i == 3 {
        'm'
    } else {
        's'
    }
}

/// The first unit from `from` on that is not zero (5 when there is none).
pub open spec fn next_nonzero(v: Seq<int>, from: int) -> int
    decreases 5 - from,
{
    if from >= 5 || from < 0 {
        5
    } else if v[from] > 0 {
        from
    } else {
        next_nonzero(v, from + 1)
    }
}

/// Carries overflowing units into the next larger one, for units `idx`
/// down to 1.
pub open spec fn carry_from(v: Seq<int>, idx: int) -> Seq<int>
    decreases idx,
{
    if idx < 1 {
        v
    } else {
        let l = unit_limit(idx);
        let w = if v[idx] >= l {
            v.update(idx - 1, v[idx - 1] + v[idx] / l).update(idx, v[idx] % l)
        } else {
            v
        };
        carry_from(w, idx - 1)
    }
}

/// The units rounded to the two largest non-zero ones: when a third one is
/// non-zero it rounds the second (half up), and it and all smaller units are
/// dropped; overflows are then carried.
pub open spec fn ago_rounded(v: Seq<int>) -> Seq<int> {
    let p1 = next_nonzero(v, 0);
    let p2 = next_nonzero(v, p1 + 1);
    let p3 = next_nonzero(v, p2 + 1);
    if p3 < 5 {
        let bumped = if v[p3] >= unit_limit(p3) / 2 {
            v.update(p2, v[p2] + 1)
        } else {
            v
        };
        let cut = Seq::new(5, |i: int| if i >= p3 { 0 } else { bumped[i] });
        carry_from(cut, 4)
    } else {
        v
    }
}

/// The first two non-zero units from `i` on, each as its number and letter.
pub open spec fn render_units(v: Seq<int>, i: int, used: int) -> Seq<char>
    decreases 5 - i,
{
    if i >= 5 || i < 0 || used >= 2 {
        Seq::empty()
    } else if v[i] > 0 {
        decimal(v[i] as nat) + seq![unit_label(i)] + render_units(v, i + 1, used + 1)
    } else {
        render_units(v, i + 1, used)
    }
}

/// The concise text for a time `delta` seconds in the past (or, when
/// negative, in the future): `right now`, or at most two units followed by
/// `ago` or `from now`.
pub open spec fn concise_ago_spec(delta: int) -> Seq<char> {
    let secs = if delta >= 0 {
        delta
    } else {
        -delta
    };
    let suffix = if delta >= 0 {
        "ago"@
    } else {
        "from now"@
    };
    if secs == 0 {
        "right now"@
    } else {
        let r = render_units(ago_rounded(ago_units(secs)), 0, 0);
        (if r.len() == 0 {
            "0s"@
        } else {
            r
        }) + " "@ + suffix
    }
}

fn limit_of(i: usize) -> (l: i64)
    requires
        1 <= i <= 4,
    ensures
        l == unit_limit(i as int),
{
    if i == 1 {
        365
    } else if i == 2 {
        24
    } else {
        60
    }
}

fn label_of(i: usize) -> (c: char)
    requires
        i < 5,
    ensures
        c == unit_label(i as int),
{
    if i == 0 {
        'y'
    } else if i == 1 {
        'd'
    } else if i == 2 {
        'h'
    } else if i == 3 {
        'm'
    } else {
        's'
    }
}

fn next_nonzero_exec(v: &Vec<i64>, from: usize) -> (r: usize)
    requires
        v@.len() == 5,
        from <= 5,
    ensures
        r as int == next_nonzero(v@.map_values(|x: i64| x as int), from as int),
        r <= 5,
    decreases 5 - from,
{
    let ghost w = v@.map_values(|x: i64| x as int);
    if from >= 5 {
        5
    } else if v[from] > 0 {
        assert(w[from as int] == v@[from as int]);
        from
    } else {
        assert(w[from as int] == v@[from as int]);
        next_nonzero_exec(v, from + 1)
    }
}

pub open spec fn ints(v: Seq<i64>) -> Seq<int> {
    v.map_values(|x: i64| x as int)
}

proof fn lemma_next_nonzero_bounds(v: Seq<int>, from: int)
    requires
        0 <= from,
    ensures
        from <= next_nonzero(v, from) <= 5 || from > 5,
        next_nonzero(v, from) < 5 ==> v[next_nonzero(v, from)] > 0,
    decreases 5 - from,
{
    if from < 5 && v[from] <= 0 {
        lemma_next_nonzero_bounds(v, from + 1);
    }
}

/// The concise text for a time `delta` seconds ago (or from now).
pub fn concise_ago(delta: i64) -> (r: String)
    requires
        delta > i64::MIN,
    ensures
        r@ == concise_ago_spec(delta as int),
{
    let secs: i64 = if delta >= 0 {
        delta
    } else {
        -delta
    };
    if secs == 0 {
        return String::from_str("right now");
    }
    let mut v: Vec<i64> = vec![
        secs / 31536000,
        (secs % 31536000) / 86400,
        (secs % 86400) / 3600,
        (secs % 3600) / 60,
        secs % 60,
    ];
    assert(ints(v@) =~= ago_units(secs as int));
    proof {
        assert(0 <= v@[1] < 365);
        assert(0 <= v@[2] < 24);
        assert(0 <= v@[3] < 60);
        assert(0 <= v@[4] < 60);
        assert(v@[0] >= 0);
    }
    let ghost units = ints(v@);
    let p1 = next_nonzero_exec(&v, 0);
    let p2 = if p1 < 5 {
        next_nonzero_exec(&v, p1 + 1)
    } else {
        5
    };
    let p3 = if p2 < 5 {
        next_nonzero_exec(&v, p2 + 1)
    } else {
        5
    };
    proof {
        lemma_next_nonzero_bounds(units, 0);
        if p1 < 5 {
            lemma_next_nonzero_bounds(units, p1 + 1);
        } else {
            assert(next_nonzero(units, 6) == 5);
        }
        if p2 < 5 {
            lemma_next_nonzero_bounds(units, p2 + 1);
        } else {
            assert(next_nonzero(units, p2 + 1) == 5);
        }
    }
    assert(p3 as int == next_nonzero(units, p2 + 1));
    assert(p2 as int == next_nonzero(units, p1 + 1));
    if p3 < 5 {
        assert(1 <= p3 && p3 <= 4 && p2 < p3);
        let bump = v[p3] >= limit_of(p3) / 2;
        if bump {
            let x = v[p2] + 1;
            v.set(p2, x);
        }
        let ghost bumped = ints(v@);
        assert(forall|j: int| 0 <= j < 5 ==> bumped[j] == #[trigger] v@[j]);
        assert(bumped =~= (if units[p3 as int] >= unit_limit(p3 as int) / 2 {
            units.update(p2 as int, units[p2 as int] + 1)
        } else {
            units
        }));
        let mut q = p3;
        while q < 5
            invariant
                p3 <= q <= 5,
                v@.len() == 5,
                bumped.len() == 5,
                forall|j: int| 0 <= j < 5 ==> (#[trigger] v@[j]) as int == (if j >= p3 && j < q { 0 } else { bumped[j] }),
            decreases 5 - q,
        {
            v.set(q, 0);
            q += 1;
        }
        let ghost cut = Seq::new(5, |i: int| if i >= p3 { 0 } else { bumped[i] });
        assert(ints(v@) =~= cut);
        assert(v@[0] <= 292_471_208_678);
        assert(forall|j: int| 1 <= j < 5 ==> 0 <= #[trigger] v@[j] <= unit_limit(j));
        assert(v@[0] >= 0);
        let mut idx: usize = 4;
        while idx > 0
            invariant
                idx <= 4,
                v@.len() == 5,
                0 <= v@[0] <= 292_471_208_678 + (if idx == 0 { 1int } else { 0int }),
                forall|j: int| 1 <= j < idx ==> 0 <= #[trigger] v@[j] <= unit_limit(j),
                idx >= 1 ==> 0 <= v@[idx as int] <= unit_limit(idx as int) + 1,
                forall|j: int| idx < j < 5 && j >= 1 ==> 0 <= #[trigger] v@[j] < unit_limit(j),
                carry_from(ints(v@), idx as int) == carry_from(cut, 4),
            decreases idx,
        {
            let l = limit_of(idx);
            let ghost w0 = ints(v@);
            assert(w0[idx as int] == v@[idx as int]);
            assert(w0[idx - 1] == v@[idx - 1]);
            if v[idx] >= l {
                let hi = v[idx - 1] + v[idx] / l;
                let lo = v[idx] % l;
                v.set(idx - 1, hi);
                v.set(idx, lo);
                assert(ints(v@) =~= w0.update(idx - 1, w0[idx - 1] + w0[idx as int] / (l as int)).update(
                    idx as int,
                    w0[idx as int] % (l as int),
                ));
            } else {
                assert(ints(v@) =~= w0);
            }
            assert(carry_from(w0, idx as int) == carry_from(ints(v@), idx - 1));
            idx -= 1;
        }
        assert(carry_from(ints(v@), 0) == ints(v@));
    } else {
        assert(ints(v@) == units);
    }
    let ghost final_units = ints(v@);
    assert(final_units == ago_rounded(units));
    let mut out: Vec<char> = Vec::new();
    let mut used: usize = 0;
    let mut i: usize = 0;
    while i < 5 && used < 2
        invariant
            i <= 5,
            used <= 2,
            v@.len() == 5,
            forall|j: int| 0 <= j < 5 ==> 0 <= #[trigger] v@[j],
            out@ + render_units(ints(v@), i as int, used as int) == render_units(ints(v@), 0, 0),
        decreases 5 - i,
    {
        let ghost before = out@;
        let x = v[i];
        if x > 0 {
            push_decimal(&mut out, x as u64);
            out.push(label_of(i));
            used += 1;
            assert(out@ =~= before + (decimal(x as nat) + seq![unit_label(i as int)]));
        }
        i += 1;
    }
    assert(render_units(ints(v@), i as int, used as int) =~= Seq::<char>::empty());
    let mut text: Vec<char> = if out.len() == 0 {
        chars_of("0s")
    } else {
        out
    };
    text.push(' ');
    let suffix = if delta >= 0 {
        chars_of("ago")
    } else {
        chars_of("from now")
    };
    append_all(&mut text, suffix.as_slice());
    proof {
        reveal_strlit(" ");
    }
    string_from_chars(text.as_slice())
}

/// The amount part of the concise text for `secs` seconds (at most two
/// units, or `0s`).
pub open spec fn concise_amount(secs: int) -> Seq<char> {
    let r = render_units(ago_rounded(ago_units(secs)), 0, 0);
    if r.len() == 0 {
        "0s"@
    } else {
        r
    }
}

/// A time `d` seconds ago and one `d` seconds ahead are described by the
/// same amount, followed by `ago` and `from now`; no time difference is
/// `right now`.
pub proof fn lemma_concise_ago_direction(d: int)
    ensures
        d > 0 ==> concise_ago_spec(d) == concise_amount(d) + " "@ + "ago"@,
        d > 0 ==> concise_ago_spec(-d) == concise_amount(d) + " "@ + "from now"@,
        concise_ago_spec(0) == "right now"@,
{
}

/// The length in seconds of unit `i` (a year of 365 days, a day, an hour, a
/// minute, a second).
pub open spec fn unit_size(i: int) -> int {
    if i == 0 {
        31536000
    } else if i == 1 {
        86400
    } else if i == 2 {
        3600
    } else if i == 3 {
        60
    } else {
        1
    }
}

/// Units in years, days, hours, minutes and seconds, read back in seconds.
pub open spec fn seconds_of(u: Seq<int>) -> int {
    u[0] * 31536000 + u[1] * 86400 + u[2] * 3600 + u[3] * 60 + u[4]
}

/// How many of the five units are not zero.
pub open spec fn nonzero_count(u: Seq<int>) -> int {
    (if u[0] != 0 { 1int } else { 0 }) + (if u[1] != 0 { 1int } else { 0 }) + (if u[2] != 0 { 1int } else { 0 })
        + (if u[3] != 0 { 1int } else { 0 }) + (if u[4] != 0 { 1int } else { 0 })
}

/// In the exact split of `secs` into units, the third non-zero unit, if there
/// is one, comes right after the second (no zero unit lies between them).
pub open spec fn rounding_unit_adjacent(secs: int) -> bool {
    let v = ago_units(secs);
    let p2 = next_nonzero(v, next_nonzero(v, 0) + 1);
    let p3 = next_nonzero(v, p2 + 1);
    p3 >= 5 || p3 == p2 + 1
}

proof fn lemma_next_nonzero_skips(v: Seq<int>, from: int)
    requires
        0 <= from,
    ensures
        forall|j: int| from <= j < next_nonzero(v, from) && j < 5 ==> v[j] <= 0,
    decreases 5 - from,
{
    if from < 5 && v[from] <= 0 {
        lemma_next_nonzero_skips(v, from + 1);
    }
}

/// The exact split of `secs` into units: every unit after the years is below
/// its limit, and together they make `secs`.
proof fn lemma_ago_units(secs: int)
    requires
        secs > 0,
    ensures
        ago_units(secs).len() == 5,
        forall|j: int| 0 <= j < 5 ==> 0 <= #[trigger] ago_units(secs)[j],
        forall|j: int| 1 <= j < 5 ==> #[trigger] ago_units(secs)[j] < unit_limit(j),
        seconds_of(ago_units(secs)) == secs,
{
    let v = ago_units(secs);
    let a = secs % 31536000;
    assert(secs == 31536000 * (secs / 31536000) + a);
    assert(a == 86400 * (a / 86400) + a % 86400);
    assert(a % 86400 == secs % 86400);
    let b = secs % 86400;
    assert(b == 3600 * (b / 3600) + b % 3600);
    assert(b % 3600 == secs % 3600);
    let c = secs % 3600;
    assert(c == 60 * (c / 60) + c % 60);
    assert(c % 60 == secs % 60);
    assert forall|j: int| 1 <= j < 5 implies #[trigger] v[j] < unit_limit(j) by {
        if j == 1 {
            assert(a / 86400 < 365);
        }
    }
}

/// Carrying overflowing units: when every unit after the years is below its
/// limit, but for unit `m` which may reach it, carrying from `idx` down keeps
/// the value in seconds, leaves every unit after the years below its limit,
/// makes no more units non-zero and leaves the units after `m` as they were.
proof fn lemma_carry(w: Seq<int>, idx: int, m: int)
    requires
        w.len() == 5,
        0 <= m <= idx <= 4,
        w[0] >= 0,
        forall|j: int| 1 <= j < 5 && j != m ==> 0 <= #[trigger] w[j] < unit_limit(j),
        m >= 1 ==> 0 <= w[m] <= unit_limit(m),
    ensures
        carry_from(w, idx).len() == 5,
        carry_from(w, idx)[0] >= 0,
        forall|j: int| 1 <= j < 5 ==> 0 <= #[trigger] carry_from(w, idx)[j] < unit_limit(j),
        seconds_of(carry_from(w, idx)) == seconds_of(w),
        nonzero_count(carry_from(w, idx)) <= nonzero_count(w),
        forall|j: int| m < j < 5 ==> #[trigger] carry_from(w, idx)[j] == w[j],
    decreases idx,
{
    if idx >= 1 {
        let l = unit_limit(idx);
        if w[idx] >= l {
            assert(idx == m);
            assert(w[idx] == l);
            assert(w[idx] / l == 1 && w[idx] % l == 0) by {
                if idx == 1 {
                } else if idx == 2 {
                } else {
                }
            }
            let w2 = w.update(idx - 1, w[idx - 1] + w[idx] / l).update(idx, w[idx] % l);
            assert(seconds_of(w2) == seconds_of(w)) by {
                if idx == 1 {
                } else if idx == 2 {
                } else if idx == 3 {
                } else {
                }
            }
            lemma_carry(w2, idx - 1, idx - 1);
        } else {
            let m2 = if m == idx { 0 } else { m };
            lemma_carry(w, idx - 1, m2);
        }
    }
}

/// How the concise amount rounds. For `secs` seconds the amount shows the
/// units of `ago_rounded(ago_units(secs))`: at least one and at most two of
/// them are non-zero, each unit after the years is below its limit (365 days,
/// 24 hours, 60 minutes or seconds), and read back in seconds the amount is
/// less than its smallest shown unit away from `secs`; where the unit that
/// decides the rounding directly follows the second shown one, it is at most
/// half that unit away.
#[verifier::rlimit(40)]
pub proof fn lemma_ago_rounding(secs: int)
    requires
        secs > 0,
    ensures
        ago_rounded(ago_units(secs)).len() == 5,
        forall|i: int| 0 <= i < 5 ==> 0 <= #[trigger] ago_rounded(ago_units(secs))[i],
        forall|i: int| 1 <= i < 5 ==> #[trigger] ago_rounded(ago_units(secs))[i] < unit_limit(i),
        1 <= nonzero_count(ago_rounded(ago_units(secs))) <= 2,
        forall|i: int|
            0 <= i < 5 && #[trigger] ago_rounded(ago_units(secs))[i] != 0 ==> -unit_size(i) < seconds_of(
                ago_rounded(ago_units(secs)),
            ) - secs < unit_size(i),
        rounding_unit_adjacent(secs) ==> forall|i: int|
            0 <= i < 5 && #[trigger] ago_rounded(ago_units(secs))[i] != 0 ==> -unit_size(i) <= 2 * (
            seconds_of(ago_rounded(ago_units(secs))) - secs) <= unit_size(i),
{
    let v = ago_units(secs);
    lemma_ago_units(secs);
    let p1 = next_nonzero(v, 0);
    let p2 = next_nonzero(v, p1 + 1);
    let p3 = next_nonzero(v, p2 + 1);
    lemma_next_nonzero_bounds(v, 0);
    lemma_next_nonzero_skips(v, 0);
    lemma_next_nonzero_bounds(v, p1 + 1);
    lemma_next_nonzero_skips(v, p1 + 1);
    lemma_next_nonzero_bounds(v, p2 + 1);
    lemma_next_nonzero_skips(v, p2 + 1);
    let u = ago_rounded(v);
    assert(p1 < 5) by {
        if p1 >= 5 {
            assert(v[0] <= 0 && v[1] <= 0 && v[2] <= 0 && v[3] <= 0 && v[4] <= 0);
        }
    }
    if p3 >= 5 {
        assert(u == v);
        assert(nonzero_count(v) <= 2) by {
            assert forall|j: int| 0 <= j < 5 && j != p1 && j != p2 implies v[j] == 0 by {
                assert(v[j] <= 0);
            }
        }
        assert(nonzero_count(v) >= 1);
    } else {
        let bump = v[p3] >= unit_limit(p3) / 2;
        let bumped = if bump {
            v.update(p2, v[p2] + 1)
        } else {
            v
        };
        let cut = Seq::new(5, |i: int| if i >= p3 { 0 } else { bumped[i] });
        assert forall|j: int| 0 <= j < 5 && j != p1 && j != p2 implies cut[j] == 0 by {
            if j < p3 {
                assert(v[j] <= 0);
            }
        }
        assert(nonzero_count(cut) <= 2);
        assert(cut[p1] != 0);
        lemma_carry(cut, 4, p2);
        assert(u == carry_from(cut, 4));
        // the part of `secs` below the second shown unit
        let rest = secs - (v[p1] * unit_size(p1) + v[p2] * unit_size(p2));
        assert(0 < rest < unit_size(p2) && seconds_of(cut) == secs - rest + (if bump { unit_size(p2) } else { 0 }))
            by {
            if p1 == 0 {
                if p2 == 1 {
                } else if p2 == 2 {
                } else {
                }
            } else if p1 == 1 {
                if p2 == 2 {
                } else {
                }
            } else {
            }
        }
        assert(p3 == p2 + 1 ==> 2 * rest < unit_size(p2) <= 2 * rest + (if bump { 0 } else { unit_size(p2) })
            || (bump && unit_size(p2) <= 2 * rest)) by {
            if p3 == p2 + 1 {
                if p2 == 1 {
                } else if p2 == 2 {
                } else {
                }
            }
        }
        assert forall|i: int| 0 <= i < 5 && #[trigger] u[i] != 0 implies unit_size(p2) <= unit_size(i) by {
            if i > p2 {
                assert(u[i] == cut[i]);
                if i < p3 {
                    assert(v[i] <= 0);
                }
            }
        }
        assert(nonzero_count(u) >= 1) by {
            if nonzero_count(u) == 0 {
                assert(seconds_of(u) == 0);
            }
        }
    }
}

proof fn lemma_sanitize_first(s: Seq<char>)
    requires
        s.len() > 0,
    ensures
        sanitize_spec(s).len() > 0,
        sanitize_spec(s)[0] == s[0],
{
}

/// Making the sub-second tokens literal a second time changes nothing.
pub proof fn lemma_sanitize_idempotent(s: Seq<char>)
    ensures
        sanitize_spec(sanitize_spec(s)) == sanitize_spec(s),
    decreases s.len(),
{
    if s.len() == 0 {
        return;
    }
    if s[0] != '%' {
        let t = sanitize_spec(s.drop_first());
        lemma_sanitize_idempotent(s.drop_first());
        let x = seq![s[0]] + t;
        assert(x.drop_first() =~= t);
    } else if s.len() >= 2 && s[1] == '%' {
        let t = sanitize_spec(s.skip(2));
        lemma_sanitize_idempotent(s.skip(2));
        let x = seq!['%', '%'] + t;
        assert(x.skip(2) =~= t);
    } else if s.len() >= 2 && s[1] == '.' {
        if s.len() >= 3 && is_subsecond_letter(s[2]) {
            let t = sanitize_spec(s.skip(3));
            lemma_sanitize_idempotent(s.skip(3));
            let x = seq!['%', '%', '.', s[2]] + t;
            let y = x.skip(2);
            assert(y =~= seq!['.', s[2]] + t);
            let z = y.drop_first();
            assert(z =~= seq![s[2]] + t);
            assert(z.drop_first() =~= t);
            assert(sanitize_spec(z) == seq![s[2]] + sanitize_spec(t));
            assert(sanitize_spec(y) == seq!['.'] + sanitize_spec(z));
            assert(sanitize_spec(x) == seq!['%', '%'] + sanitize_spec(y));
            assert(sanitize_spec(x) =~= x);
        } else {
            let t = sanitize_spec(s.skip(2));
            lemma_sanitize_idempotent(s.skip(2));
            if s.len() >= 3 {
                lemma_sanitize_first(s.skip(2));
                assert(t[0] == s[2]);
            }
            let x = seq!['%', '.'] + t;
            assert(x.skip(2) =~= t);
        }
    } else {
        let t = sanitize_spec(s.drop_first());
        lemma_sanitize_idempotent(s.drop_first());
        if s.len() >= 2 {
            lemma_sanitize_first(s.drop_first());
            assert(t[0] == s[1]);
        }
        let x = seq!['%'] + t;
        assert(x.drop_first() =~= t);
    }
}

/// A format without `%` is left as it is.
pub proof fn lemma_expand_without_percent(s: Seq<char>, m: int)
    requires
        !s.contains('%'),
    ensures
        expand_subseconds_spec(s, m) == s,
    decreases s.len(),
{
    if s.len() > 0 {
        assert(s[0] != '%');
        assert(!s.drop_first().contains('%')) by {
            if s.drop_first().contains('%') {
                let j = choose|j: int| 0 <= j < s.drop_first().len() && s.drop_first()[j] == '%';
                assert(s[j + 1] == '%');
            }
        }
        lemma_expand_without_percent(s.drop_first(), m);
        assert(seq![s[0]] + s.drop_first() =~= s);
    }
}

} // verus!
