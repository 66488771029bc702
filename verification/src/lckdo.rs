//! `lckdo`: its options, the numbers they take, and the decisions taken
//! while a lock is acquired, tested and a program run under it.
use vstd::prelude::*;
use crate::text::{
    all_digits, chars_of, decimal, digit_prefix, digits_value, is_digit, lemma_digit_prefix,
    lemma_digits_value_prefix, signed_decimal, string_from_chars, string_views, sub_vec,
    push_decimal, push_signed_decimal,
};

verus! {

broadcast use vstd::seq::group_seq_axioms;

/// Exit status for a usage error.
pub const EX_USAGE: i32 = 64;
/// Exit status when the program was killed by a signal.
pub const EX_SOFTWARE: i32 = 70;
/// Exit status for an operating-system error.
pub const EX_OSERR: i32 = 71;
/// Exit status when the lock file cannot be opened.
pub const EX_CANTCREAT: i32 = 73;
/// Exit status when the lock is held elsewhere.
pub const EX_TEMPFAIL: i32 = 75;

/// The options of `lckdo`.
#[derive(Clone, Copy, Debug, PartialEq, Eq, Structural)]
pub struct Config {
    pub wait: bool,
    pub timeout: Option<u64>,
    pub exec_direct: bool,
    pub keep_fd: Option<i32>,
    pub no_create: bool,
    pub quiet: bool,
    pub shared: bool,
    pub test_only: bool,
}

pub open spec fn default_config() -> Config {
    Config {
        wait: false,
        timeout: None,
        exec_direct: false,
        keep_fd: None,
        no_create: false,
        quiet: false,
        shared: false,
        test_only: false,
    }
}

// ---------------------------------------------------------------------------
// Numbers
// ---------------------------------------------------------------------------

/// Reads the run of ASCII digits of `s` from `start`; fails as soon as the
/// value read exceeds `max`.
fn read_digits(s: &[char], start: usize, max: u64) -> (r: Result<(u64, usize), ()>)
    requires
        start <= s@.len(),
    ensures
        ({
            let t = s@.skip(start as int);
            let k = digit_prefix(t) as int;
            match r {
                Ok((v, end)) => end == start + k && v == digits_value(t.take(k)) && v <= max,
                Err(()) => digits_value(t.take(k)) > max,
            }
        }),
{
    let ghost t = s@.skip(start as int);
    proof {
        lemma_digit_prefix(t);
    }
    let mut v: u64 = 0;
    let mut i: usize = start;
    assert(t.take(0) =~= Seq::<char>::empty());
    while i < s.len() && '0' <= s[i] && s[i] <= '9'
        invariant
            start <= i <= s@.len(),
            t == s@.skip(start as int),
            digit_prefix(t) == (i - start) + digit_prefix(s@.skip(i as int)),
            all_digits(t.take(i - start)),
            v == digits_value(t.take(i - start)),
            v <= max,
        decreases s@.len() - i,
    {
        assert(s@.skip(i as int).drop_first() =~= s@.skip(i + 1));
        let d = (s[i] as u32 - 48) as u64;
        let next: u128 = (v as u128) * 10 + (d as u128);
        let ghost tk = t.take(i + 1 - start);
        assert(tk.drop_last() =~= t.take(i - start));
        assert(tk.last() == s@[i as int]);
        assert(next == digits_value(tk));
        i += 1;
        if next > max as u128 {
            proof {
                lemma_digit_prefix(t);
                let k = digit_prefix(t) as int;
                assert(t.take(k).take(i - start) =~= tk);
                lemma_digits_value_prefix(t.take(k), i - start);
            }
            return Err(());
        }
        v = next as u64;
        assert(all_digits(t.take(i - start)));
    }
    proof {
        if i < s@.len() {
            assert(s@.skip(i as int)[0] == s@[i as int]);
        }
        assert(digit_prefix(s@.skip(i as int)) == 0);
    }
    Ok((v, i))
}

/// What `-W` accepts: the number in the leading digits of `value`, which
/// must be there, be positive and fit in an `i64`.
pub open spec fn wait_time_spec(value: Seq<char>) -> Option<u64> {
    let k = digit_prefix(value) as int;
    let v = digits_value(value.take(k));
    if k == 0 || v > i64::MAX || v == 0 {
        None
    } else {
        Some(v as u64)
    }
}

pub open spec fn invalid_wait_time_msg(value: Seq<char>) -> Seq<char> {
    "lckdo: invalid wait time `"@ + value + "'"@
}

/// The seconds to wait for the lock, or the message for a bad value (exit
/// status 64).
pub fn parse_wait_time(value: &str) -> (r: Result<u64, String>)
    ensures
        match r {
            Ok(t) => wait_time_spec(value@) == Some(t),
            Err(m) => wait_time_spec(value@) is None && m@ == invalid_wait_time_msg(value@),
        },
{
    let c = chars_of(value);
    assert(c@.skip(0) =~= c@);
    match read_digits(c.as_slice(), 0, 0x7FFF_FFFF_FFFF_FFFF) {
        Ok((v, end)) => {
            if end == 0 || v == 0 {
                Err(bad_value("lckdo: invalid wait time `", value))
            } else {
                Ok(v)
            }
        },
        Err(()) => Err(bad_value("lckdo: invalid wait time `", value)),
    }
}

fn bad_value(head: &str, value: &str) -> (r: String)
    ensures
        r@ == head@ + value@ + "'"@,
{
    let mut out = chars_of(head);
    let v = chars_of(value);
    let q = chars_of("'");
    let mut i: usize = 0;
    let ghost start = out@;
    while i < v.len()
        invariant
            i <= v@.len(),
            out@ == start + v@.take(i as int),
        decreases v@.len() - i,
    {
        out.push(v[i]);
        i += 1;
        assert(v@.take(i as int) =~= v@.take(i - 1).push(v@[i - 1]));
    }
    assert(v@.take(v@.len() as int) =~= v@);
    let ghost mid = out@;
    let mut j: usize = 0;
    while j < q.len()
        invariant
            j <= q@.len(),
            out@ == mid + q@.take(j as int),
        decreases q@.len() - j,
    {
        out.push(q[j]);
        j += 1;
        assert(q@.take(j as int) =~= q@.take(j - 1).push(q@[j - 1]));
    }
    assert(q@.take(q@.len() as int) =~= q@);
    string_from_chars(out.as_slice())
}

/// What `-E` accepts: the number in the leading digits (after a `-`, which
/// is refused), fitting in an `i32`; no digits mean 0; descriptor 2 is refused.
pub open spec fn keep_fd_spec(value: Seq<char>) -> Option<i32> {
    let neg = value.len() > 0 && value[0] == '-';
    let body = if neg { value.drop_first() } else { value };
    let k = digit_prefix(body) as int;
    let v = digits_value(body.take(k));
    let fd = if k > 0 && !neg { v } else { 0 };
    if v > i32::MAX || neg || fd == 2 {
        None
    } else {
        Some(fd as i32)
    }
}

pub open spec fn invalid_fd_msg(value: Seq<char>) -> Seq<char> {
    "lckdo: invalid fd# `"@ + value + "'"@
}

/// The descriptor to keep the lock on, or the message for a bad value (exit
/// status 64).
pub fn parse_keep_fd(value: &str) -> (r: Result<i32, String>)
    ensures
        match r {
            Ok(fd) => keep_fd_spec(value@) == Some(fd),
            Err(m) => keep_fd_spec(value@) is None && m@ == invalid_fd_msg(value@),
        },
{
    let c = chars_of(value);
    let neg = c.len() > 0 && c[0] == '-';
    let start: usize = if neg { 1 } else { 0 };
    let ghost body = if neg { c@.drop_first() } else { c@ };
    assert(c@.skip(start as int) =~= body);
    match read_digits(c.as_slice(), start, 0x7FFF_FFFF) {
        Ok((v, end)) => {
            let fd: u64 = if end > start && !neg { v } else { 0 };
            if neg || fd == 2 {
                Err(bad_value("lckdo: invalid fd# `", value))
            } else {
                Ok(fd as i32)
            }
        },
        Err(()) => Err(bad_value("lckdo: invalid fd# `", value)),
    }
}

/// A positive number of seconds written in decimal is read back as itself.
pub proof fn lemma_wait_time_reads_back(n: u64)
    requires
        0 < n <= i64::MAX,
    ensures
        wait_time_spec(decimal(n as nat)) == Some(n),
{
    let d = decimal(n as nat);
    crate::text::lemma_decimal_digits(n as nat);
    crate::text::lemma_digit_prefix_concat(d, Seq::<char>::empty());
    assert(d + Seq::<char>::empty() =~= d);
    assert(d.take(d.len() as int) =~= d);
}

/// A descriptor number written in decimal is read back as itself, except
/// standard error, which `-E` refuses.
pub proof fn lemma_keep_fd_reads_back(n: i32)
    requires
        0 <= n,
        n != 2,
    ensures
        keep_fd_spec(decimal(n as nat)) == Some(n),
{
    let d = decimal(n as nat);
    crate::text::lemma_decimal_digits(n as nat);
    assert(is_digit(d[0]));
    crate::text::lemma_digit_prefix_concat(d, Seq::<char>::empty());
    assert(d + Seq::<char>::empty() =~= d);
    assert(d.take(d.len() as int) =~= d);
}

// ---------------------------------------------------------------------------
// Options
// ---------------------------------------------------------------------------

pub open spec fn missing_argument_msg(c: char) -> Seq<char> {
    "lckdo: option requires an argument -- '"@ + seq![c] + "'"@
}

pub open spec fn invalid_option_msg(c: char) -> Seq<char> {
    "lckdo: invalid option -- '"@ + seq![c] + "'"@
}

/// The options of the cluster `a` (argument `index`) from position `pos` on;
/// gives the options and the index of the last argument the cluster used.
pub open spec fn cluster_spec(args: Seq<Seq<char>>, index: int, a: Seq<char>, pos: int, cfg: Config) -> Result<(Config, int), Seq<char>>
    decreases a.len() - pos,
{
    if pos >= a.len() || pos < 0 {
        Ok((cfg, index))
    } else {
        let c = a[pos];
        if c == 'w' {
            cluster_spec(args, index, a, pos + 1, Config { wait: true, ..cfg })
        } else if c == 'e' {
            cluster_spec(args, index, a, pos + 1, Config { exec_direct: true, ..cfg })
        } else if c == 'n' {
            cluster_spec(args, index, a, pos + 1, Config { no_create: true, ..cfg })
        } else if c == 'q' {
            cluster_spec(args, index, a, pos + 1, Config { quiet: true, ..cfg })
        } else if c == 's' {
            cluster_spec(args, index, a, pos + 1, Config { shared: true, ..cfg })
        } else if c == 'x' {
            cluster_spec(args, index, a, pos + 1, Config { shared: false, ..cfg })
        } else if c == 't' {
            cluster_spec(args, index, a, pos + 1, Config { test_only: true, no_create: true, ..cfg })
        } else if c == 'W' || c == 'E' {
            let attached = pos + 1 < a.len();
            if !attached && index + 1 >= args.len() {
                Err(missing_argument_msg(c))
            } else {
                let value = if attached { a.skip(pos + 1) } else { args[index + 1] };
                let idx = if attached { index } else { index + 1 };
                if c == 'W' {
                    match wait_time_spec(value) {
                        None => Err(invalid_wait_time_msg(value)),
                        Some(t) => Ok((Config { wait: true, timeout: Some(t), ..cfg }, idx)),
                    }
                } else {
                    match keep_fd_spec(value) {
                        None => Err(invalid_fd_msg(value)),
                        Some(fd) => Ok((Config { exec_direct: true, keep_fd: Some(fd), ..cfg }, idx)),
                    }
                }
            }
        } else {
            Err(invalid_option_msg(c))
        }
    }
}

/// The options from argument `index` on; gives the options and where the
/// operands start.
pub open spec fn lckdo_args_spec(args: Seq<Seq<char>>, index: int, cfg: Config) -> Result<(Config, int), Seq<char>>
    decreases args.len() - index,
{
    if index >= args.len() || index < 0 {
        Ok((cfg, index))
    } else {
        let a = args[index];
        if a == "--"@ {
            Ok((cfg, index + 1))
        } else if a == "-"@ || !(a.len() > 0 && a[0] == '-') {
            Ok((cfg, index))
        } else {
            match cluster_spec(args, index, a, 1, cfg) {
                Err(e) => Err(e),
                Ok((c2, i2)) => if index <= i2 < args.len() {
                    lckdo_args_spec(args, i2 + 1, c2)
                } else {
                    Err(Seq::empty())
                },
            }
        }
    }
}

fn lit_is(a: &[char], s: &str) -> (r: bool)
    ensures
        r == (a@ == s@),
{
    let b = chars_of(s);
    crate::text::same_chars(a, b.as_slice())
}

fn option_letter_msg(head: &str, c: char) -> (r: String)
    ensures
        r@ == head@ + seq![c] + "'"@,
{
    let mut out = chars_of(head);
    out.push(c);
    let q = chars_of("'");
    let ghost mid = out@;
    let mut j: usize = 0;
    while j < q.len()
        invariant
            j <= q@.len(),
            out@ == mid + q@.take(j as int),
        decreases q@.len() - j,
    {
        out.push(q[j]);
        j += 1;
        assert(q@.take(j as int) =~= q@.take(j - 1).push(q@[j - 1]));
    }
    assert(q@.take(q@.len() as int) =~= q@);
    string_from_chars(out.as_slice())
}

fn cluster(args: &[String], index: usize, a: &[char], cfg0: Config) -> (r: Result<(Config, usize), String>)
    requires
        index < args@.len(),
    ensures
        match r {
            Ok((c, i)) => cluster_spec(string_views(args@), index as int, a@, 1, cfg0) == Ok::<(Config, int), Seq<char>>((c, i as int))
                && index <= i < args.len(),
            Err(m) => cluster_spec(string_views(args@), index as int, a@, 1, cfg0) == Err::<(Config, int), Seq<char>>(m@),
        },
{
    let ghost av = string_views(args@);
    let mut cfg = cfg0;
    let mut pos: usize = 1;
    if a.len() <= 1 {
        return Ok((cfg, index));
    }
    while pos < a.len()
        invariant
            1 <= pos <= a@.len(),
            index < args@.len(),
            index < args.len(),
            av == string_views(args@),
            cluster_spec(av, index as int, a@, 1, cfg0) == cluster_spec(av, index as int, a@, pos as int, cfg),
        decreases a@.len() - pos,
    {
        let c = a[pos];
        if c == 'w' {
            cfg.wait = true;
        } else if c == 'e' {
            cfg.exec_direct = true;
        } else if c == 'n' {
            cfg.no_create = true;
        } else if c == 'q' {
            cfg.quiet = true;
        } else if c == 's' {
            cfg.shared = true;
        } else if c == 'x' {
            cfg.shared = false;
        } else if c == 't' {
            cfg.test_only = true;
            cfg.no_create = true;
        } else if c == 'W' || c == 'E' {
            let attached = pos + 1 < a.len();
            if !attached && index + 1 >= args.len() {
                return Err(option_letter_msg("lckdo: option requires an argument -- '", c));
            }
            let value: String = if attached {
                string_from_chars(sub_vec(a, pos + 1, a.len()).as_slice())
            } else {
                args[index + 1].clone()
            };
            assert(value@ == (if attached { a@.skip(pos + 1) } else { av[index + 1] }));
            let idx = if attached { index } else { index + 1 };
            if c == 'W' {
                match parse_wait_time(value.as_str()) {
                    Err(m) => return Err(m),
                    Ok(t) => {
                        cfg.wait = true;
                        cfg.timeout = Some(t);
                        return Ok((cfg, idx));
                    },
                }
            } else {
                match parse_keep_fd(value.as_str()) {
                    Err(m) => return Err(m),
                    Ok(fd) => {
                        cfg.exec_direct = true;
                        cfg.keep_fd = Some(fd);
                        return Ok((cfg, idx));
                    },
                }
            }
        } else {
            return Err(option_letter_msg("lckdo: invalid option -- '", c));
        }
        pos += 1;
    }
    Ok((cfg, index))
}

/// What the arguments ask for: the options and the operands (the lock file,
/// then the program and its arguments).
pub fn parse_args(args: &[String]) -> (r: Result<(Config, Vec<String>), String>)
    ensures
        match r {
            Ok((c, rest)) => exists|start: int|
                lckdo_args_spec(string_views(args@), 0, default_config()) == Ok::<(Config, int), Seq<char>>((c, start))
                    && 0 <= start <= args@.len() && #[trigger] string_views(rest@) == string_views(args@).skip(start),
            Err(m) => lckdo_args_spec(string_views(args@), 0, default_config()) == Err::<(Config, int), Seq<char>>(m@),
        },
{
    let ghost av = string_views(args@);
    let mut cfg = Config {
        wait: false,
        timeout: None,
        exec_direct: false,
        keep_fd: None,
        no_create: false,
        quiet: false,
        shared: false,
        test_only: false,
    };
    let mut index: usize = 0;
    while index < args.len()
        invariant_except_break
            index <= args@.len(),
            av == string_views(args@),
            lckdo_args_spec(av, 0, default_config()) == lckdo_args_spec(av, index as int, cfg),
        ensures
            index <= args@.len(),
            av == string_views(args@),
            lckdo_args_spec(av, 0, default_config()) == Ok::<(Config, int), Seq<char>>((cfg, index as int)),
        decreases args@.len() - index,
    {
        let a = chars_of(args[index].as_str());
        assert(a@ == av[index as int]);
        if lit_is(a.as_slice(), "--") {
            index += 1;
            break;
        }
        if lit_is(a.as_slice(), "-") || !(a.len() > 0 && a[0] == '-') {
            break;
        }
        match cluster(args, index, a.as_slice(), cfg) {
            Err(m) => return Err(m),
            Ok((c2, i2)) => {
                cfg = c2;
                index = i2 + 1;
            },
        }
    }
    let rest = sub_vec_strings(args, index);
    assert(string_views(rest@) == string_views(args@).skip(index as int));
    Ok((cfg, rest))
}

fn sub_vec_strings(args: &[String], from: usize) -> (r: Vec<String>)
    requires
        from <= args@.len(),
    ensures
        string_views(r@) == string_views(args@).skip(from as int),
{
    let mut r: Vec<String> = Vec::new();
    let mut i = from;
    while i < args.len()
        invariant
            from <= i <= args@.len(),
            string_views(r@) == string_views(args@).subrange(from as int, i as int),
        decreases args@.len() - i,
    {
        let ghost before = string_views(r@);
        let x = args[i].clone();
        r.push(x);
        assert(string_views(r@) =~= before.push(args@[i as int]@));
        i += 1;
        assert(string_views(args@).subrange(from as int, i as int) =~= string_views(args@).subrange(from as int, i - 1).push(args@[i - 1]@));
    }
    assert(string_views(args@).subrange(from as int, args@.len() as int) =~= string_views(args@).skip(from as int));
    r
}


// ---------------------------------------------------------------------------
// Decisions
// ---------------------------------------------------------------------------

/// There are too few operands: none, or no program when not only testing.
pub fn too_few_operands(test_only: bool, n: usize) -> (r: bool)
    ensures
        r == (n == 0 || (!test_only && n < 2)),
{
    n == 0 || (!test_only && n < 2)
}

/// How the lock file is opened: read-only (else write-only), and whether it
/// is created when missing.
pub fn open_mode(cfg: Config) -> (r: (bool, bool))
    ensures
        r.0 == (cfg.test_only || cfg.shared),
        r.1 == (!cfg.no_create && !cfg.test_only),
{
    (cfg.test_only || cfg.shared, !cfg.no_create && !cfg.test_only)
}

/// The lock waits in the kernel (`F_SETLKW`): waiting without a timeout.
pub fn blocking_wait(cfg: Config) -> (r: bool)
    ensures
        r == (cfg.wait && cfg.timeout is None),
{
    cfg.wait && cfg.timeout.is_none()
}

/// The error number means that another process holds the lock (Linux
/// `EACCES` or `EAGAIN`, which is also `EWOULDBLOCK`).
pub fn is_lock_contention(errno: Option<i32>) -> (r: bool)
    ensures
        r == (errno == Some(13i32) || errno == Some(11i32)),
{
    match errno {
        Some(e) => e == 13 || e == 11,
        None => false,
    }
}

/// What happens after an attempt to take the lock.
#[derive(Clone, Copy, Debug, PartialEq, Eq, Structural)]
pub enum LockStep {
    /// The lock is held.
    Locked,
    /// Try again (after a pause when polling).
    Retry,
    /// Another process holds it: give up, having waited out the timeout or not.
    AlreadyLocked { timed_out: bool },
    /// Any other error: report it.
    Failed,
}

/// The step after a blocking attempt that failed with `errno` (None: it
/// succeeded); an interrupted wait (`EINTR`) is retried.
pub fn blocking_step(errno: Option<Option<i32>>) -> (r: LockStep)
    ensures
        r == match errno {
            None => LockStep::Locked,
            Some(Some(4i32)) => LockStep::Retry,
            Some(_) => LockStep::Failed,
        },
{
    match errno {
        None => LockStep::Locked,
        Some(Some(e)) => if e == 4 {
            LockStep::Retry
        } else {
            LockStep::Failed
        },
        Some(None) => LockStep::Failed,
    }
}

/// The step after a non-blocking attempt that failed with `errno` (None: it
/// succeeded), `elapsed` whole seconds after the first.
pub fn polling_step(cfg: Config, errno: Option<Option<i32>>, elapsed: u64) -> (r: LockStep)
    ensures
        r == match errno {
            None => LockStep::Locked,
            Some(e) => if !(e == Some(13i32) || e == Some(11i32)) {
                LockStep::Failed
            } else if !cfg.wait {
                LockStep::AlreadyLocked { timed_out: false }
            } else if cfg.timeout matches Some(t) && elapsed >= t {
                LockStep::AlreadyLocked { timed_out: true }
            } else {
                LockStep::Retry
            },
        },
{
    match errno {
        None => LockStep::Locked,
        Some(e) => {
            if !is_lock_contention(e) {
                LockStep::Failed
            } else if !cfg.wait {
                LockStep::AlreadyLocked { timed_out: false }
            } else {
                match cfg.timeout {
                    Some(t) => if elapsed >= t {
                        LockStep::AlreadyLocked { timed_out: true }
                    } else {
                        LockStep::Retry
                    },
                    None => LockStep::Retry,
                }
            }
        },
    }
}

fn push_str(out: &mut Vec<char>, s: &str)
    ensures
        final(out)@ == old(out)@ + s@,
{
    let c = chars_of(s);
    let mut i: usize = 0;
    let ghost start = out@;
    while i < c.len()
        invariant
            i <= c@.len(),
            out@ == start + c@.take(i as int),
        decreases c@.len() - i,
    {
        out.push(c[i]);
        i += 1;
        assert(c@.take(i as int) =~= c@.take(i - 1).push(c@[i - 1]));
    }
    assert(c@.take(c@.len() as int) =~= c@);
}

/// `a`, `b` and `c` in a row.
pub open spec fn concat3(a: Seq<char>, b: Seq<char>, c: Seq<char>) -> Seq<char> {
    a + b + c
}

fn message3(a: &str, b: &str, c: &str) -> (r: String)
    ensures
        r@ == concat3(a@, b@, c@),
{
    let mut out: Vec<char> = Vec::new();
    push_str(&mut out, a);
    push_str(&mut out, b);
    push_str(&mut out, c);
    assert(out@ =~= concat3(a@, b@, c@));
    string_from_chars(out.as_slice())
}

/// The message when the lock is held elsewhere (written unless `-q`).
pub fn already_locked_msg(lockfile: &str, timed_out: bool) -> (r: String)
    ensures
        r@ == if timed_out {
            concat3("lckdo: lock file `"@, lockfile@, "' is already locked (timeout waiting)"@)
        } else {
            concat3("lckdo: lockfile `"@, lockfile@, "' is already locked"@)
        },
{
    if timed_out {
        message3("lckdo: lock file `", lockfile, "' is already locked (timeout waiting)")
    } else {
        message3("lckdo: lockfile `", lockfile, "' is already locked")
    }
}

/// The message when locking fails for another reason (exit status 71).
pub fn unable_to_lock_msg(lockfile: &str, description: &str) -> (r: String)
    ensures
        r@ == concat3("lckdo: unable to lock `"@, lockfile@, "': "@) + description@,
{
    let mut out: Vec<char> = Vec::new();
    push_str(&mut out, "lckdo: unable to lock `");
    push_str(&mut out, lockfile);
    push_str(&mut out, "': ");
    push_str(&mut out, description);
    assert(out@ =~= concat3("lckdo: unable to lock `"@, lockfile@, "': "@) + description@);
    string_from_chars(out.as_slice())
}

/// The message when the lock file cannot be opened (exit status 73).
pub fn unable_to_open_msg(lockfile: &str, description: &str) -> (r: String)
    ensures
        r@ == concat3("lckdo: unable to open `"@, lockfile@, "': "@) + description@,
{
    let mut out: Vec<char> = Vec::new();
    push_str(&mut out, "lckdo: unable to open `");
    push_str(&mut out, lockfile);
    push_str(&mut out, "': ");
    push_str(&mut out, description);
    assert(out@ =~= concat3("lckdo: unable to open `"@, lockfile@, "': "@) + description@);
    string_from_chars(out.as_slice())
}

/// The message when the program cannot be run (exit status 71).
pub fn unable_to_execute_msg(program: &str, description: &str) -> (r: String)
    ensures
        r@ == concat3("lckdo: unable to execute "@, program@, ": "@) + description@,
{
    let mut out: Vec<char> = Vec::new();
    push_str(&mut out, "lckdo: unable to execute ");
    push_str(&mut out, program);
    push_str(&mut out, ": ");
    push_str(&mut out, description);
    assert(out@ =~= concat3("lckdo: unable to execute "@, program@, ": "@) + description@);
    string_from_chars(out.as_slice())
}

/// The result of `-t`: the line written to standard output, if any, and the
/// exit status, for a lock held by process `pid` or not held (None).
pub fn test_report(lockfile: &str, quiet: bool, pid: Option<i32>) -> (r: (Option<String>, i32))
    ensures
        match pid {
            None => r.1 == 0 && (if quiet { r.0 is None } else {
                r.0 matches Some(s) && s@ == concat3("lockfile `"@, lockfile@, "' is not locked"@)
            }),
            Some(p) => r.1 == EX_TEMPFAIL && (if quiet {
                r.0 matches Some(s) && s@ == signed_decimal(p as int)
            } else {
                r.0 matches Some(s) && s@ == concat3("lockfile `"@, lockfile@, "' is locked by process "@) + signed_decimal(p as int)
            }),
        },
{
    match pid {
        None => {
            if quiet {
                (None, 0)
            } else {
                (Some(message3("lockfile `", lockfile, "' is not locked")), 0)
            }
        },
        Some(p) => {
            let mut out: Vec<char> = Vec::new();
            if !quiet {
                push_str(&mut out, "lockfile `");
                push_str(&mut out, lockfile);
                push_str(&mut out, "' is locked by process ");
            }
            let ghost head = out@;
            push_signed_decimal(&mut out, p as i64);
            proof {
                if !quiet {
                    assert(out@ =~= concat3("lockfile `"@, lockfile@, "' is locked by process "@) + signed_decimal(p as int));
                } else {
                    assert(out@ =~= signed_decimal(p as int));
                }
            }
            (Some(string_from_chars(out.as_slice())), EX_TEMPFAIL)
        },
    }
}

/// The name of a signal: the system's description, or `signal N`.
pub fn signal_description(signal: i32, text: Option<String>) -> (r: String)
    ensures
        match text {
            Some(t) => r@ == t@,
            None => r@ == "signal "@ + signed_decimal(signal as int),
        },
{
    match text {
        Some(t) => t,
        None => {
            let mut out: Vec<char> = Vec::new();
            push_str(&mut out, "signal ");
            push_signed_decimal(&mut out, signal as i64);
            string_from_chars(out.as_slice())
        },
    }
}

/// How `lckdo` ends after running the program: killed by a signal, it
/// reports `lckdo: PROGRAM: DESCRIPTION` and exits 70; else it exits with the
/// program's code (0 when there is none).
pub fn program_outcome(program: &str, signal: Option<i32>, description: &str, code: Option<i32>) -> (r: (Option<String>, i32))
    ensures
        match signal {
            Some(_) => r.0 matches Some(m) && m@ == concat3("lckdo: "@, program@, ": "@) + description@
                && r.1 == EX_SOFTWARE,
            None => r.0 is None && r.1 == match code { Some(c) => c, None => 0 },
        },
{
    match signal {
        Some(_) => {
            let mut out: Vec<char> = Vec::new();
            push_str(&mut out, "lckdo: ");
            push_str(&mut out, program);
            push_str(&mut out, ": ");
            push_str(&mut out, description);
            assert(out@ =~= concat3("lckdo: "@, program@, ": "@) + description@);
            (Some(string_from_chars(out.as_slice())), EX_SOFTWARE)
        },
        None => (None, match code {
            Some(c) => c,
            None => 0,
        }),
    }
}

/// The usage text (written to standard output when there are no arguments).
pub open spec fn usage_spec() -> Seq<char> {
    "lckdo: execute a program with a lock set.\nUsage: lckdo [options] lockfile program [arguments]\nwhere options are:\n -w - if the lock is already held by another process,\n   wait for it to complete instead of failing immediately\n -W sec - the same as -w but wait not more than sec seconds\n -e - execute the program directly, no fork/wait\n   (keeps extra open file descriptor)\n -E nnn - set the fd# to keep open in -e case (implies -e)\n -n - do not create the lock file if it does not exist\n -q - produce no output if lock is already held\n -s - lock in shared (read) mode\n -x - lock in exclusive (write) mode (default)\n -t - test for lock existence (just prints pid if any with -q)\n   (implies -n)\n"@
}

pub fn usage_text() -> (r: String)
    ensures
        r@ == usage_spec(),
{
    String::from_str("lckdo: execute a program with a lock set.\nUsage: lckdo [options] lockfile program [arguments]\nwhere options are:\n -w - if the lock is already held by another process,\n   wait for it to complete instead of failing immediately\n -W sec - the same as -w but wait not more than sec seconds\n -e - execute the program directly, no fork/wait\n   (keeps extra open file descriptor)\n -E nnn - set the fd# to keep open in -e case (implies -e)\n -n - do not create the lock file if it does not exist\n -q - produce no output if lock is already held\n -s - lock in shared (read) mode\n -x - lock in exclusive (write) mode (default)\n -t - test for lock existence (just prints pid if any with -q)\n   (implies -n)\n")
}

} // verus!
