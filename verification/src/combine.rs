//! `combine`: the lines of two files combined with a boolean operation.
use vstd::prelude::*;
use crate::text::{chars_of, lower_chars, lower_seq, same_chars, string_from_chars, string_views, sub_vec};

verus! {

broadcast use vstd::seq::group_seq_axioms;

// ---------------------------------------------------------------------------
// Lines
// ---------------------------------------------------------------------------

/// The lines of `data`: the pieces ended by newlines, and a last piece
/// without one when it is not empty.
pub open spec fn byte_lines(data: Seq<u8>) -> Seq<Seq<u8>>
    decreases data.len(),
{
    if data.len() == 0 {
        Seq::empty()
    } else {
        let k = first_newline(data) as int;
        if k >= data.len() {
            seq![data]
        } else {
            seq![data.take(k)] + byte_lines(data.skip(k + 1))
        }
    }
}

/// Index of the first newline of `b` (its length when there is none).
pub open spec fn first_newline(b: Seq<u8>) -> nat
    decreases b.len(),
{
    if b.len() == 0 {
        0
    } else if b[0] == 10 {
        0
    } else {
        1 + first_newline(b.drop_first())
    }
}

proof fn lemma_first_newline_exact(b: Seq<u8>, k: int)
    requires
        0 <= k <= b.len(),
        forall|j: int| 0 <= j < k ==> #[trigger] b[j] != 10,
        k < b.len() ==> b[k] == 10,
    ensures
        first_newline(b) == k,
    decreases k,
{
    if k > 0 {
        assert forall|j: int| 0 <= j < k - 1 implies #[trigger] b.drop_first()[j] != 10 by {
            assert(b.drop_first()[j] == b[j + 1]);
        }
        lemma_first_newline_exact(b.drop_first(), k - 1);
    }
}

pub open spec fn bytes_views(v: Seq<Vec<u8>>) -> Seq<Seq<u8>> {
    v.map_values(|x: Vec<u8>| x@)
}

/// Splits what was read from a file into its lines, without their newlines.
pub fn read_lines(data: &[u8]) -> (r: Vec<Vec<u8>>)
    ensures
        bytes_views(r@) == byte_lines(data@),
{
    let n = data.len();
    let mut r: Vec<Vec<u8>> = Vec::new();
    let mut start: usize = 0;
    assert(data@.skip(0) =~= data@);
    while start < n
        invariant
            start <= n == data@.len(),
            bytes_views(r@) + byte_lines(data@.skip(start as int)) == byte_lines(data@),
        decreases n - start,
    {
        let ghost rest = data@.skip(start as int);
        let mut k = start;
        while k < n && data[k] != 10
            invariant
                start <= k <= n == data@.len(),
                forall|j: int| start <= j < k ==> #[trigger] data@[j] != 10,
            decreases n - k,
        {
            k += 1;
        }
        proof {
            assert forall|j: int| 0 <= j < k - start implies #[trigger] rest[j] != 10 by {
                assert(rest[j] == data@[start + j]);
            }
            if k < n {
                assert(rest[k - start] == data@[k as int]);
            }
            lemma_first_newline_exact(rest, k - start);
        }
        let piece = sub_vec(data, start, k);
        let ghost old_r = bytes_views(r@);
        r.push(piece);
        assert(bytes_views(r@) =~= old_r.push(piece@));
        if k == n {
            assert(rest.take(k - start) =~= rest);
            assert(byte_lines(rest) == seq![rest]);
            assert(bytes_views(r@) =~= old_r + byte_lines(rest));
            assert(data@.skip(n as int) =~= Seq::<u8>::empty());
            assert(bytes_views(r@) + byte_lines(data@.skip(n as int)) =~= bytes_views(r@));
            return r;
        }
        assert(rest.take(k - start) =~= piece@);
        assert(rest.skip(k - start + 1) =~= data@.skip(k + 1));
        assert(bytes_views(r@) + byte_lines(data@.skip(k + 1)) =~= old_r + byte_lines(rest));
        start = k + 1;
    }
    assert(data@.skip(n as int) =~= Seq::<u8>::empty());
    assert(bytes_views(r@) + byte_lines(data@.skip(n as int)) =~= bytes_views(r@));
    r
}

/// The lines written out, each followed by a newline.
pub open spec fn render_spec(lines: Seq<Seq<u8>>) -> Seq<u8>
    decreases lines.len(),
{
    if lines.len() == 0 {
        Seq::empty()
    } else {
        render_spec(lines.drop_last()) + lines.last() + seq![10u8]
    }
}

pub fn render(lines: &[Vec<u8>]) -> (r: Vec<u8>)
    ensures
        r@ == render_spec(bytes_views(lines@)),
{
    let mut out: Vec<u8> = Vec::new();
    let mut i: usize = 0;
    while i < lines.len()
        invariant
            i <= lines@.len(),
            out@ == render_spec(bytes_views(lines@).take(i as int)),
        decreases lines@.len() - i,
    {
        let l = &lines[i];
        let mut j: usize = 0;
        let ghost start = out@;
        while j < l.len()
            invariant
                j <= l@.len(),
                out@ == start + l@.take(j as int),
            decreases l@.len() - j,
        {
            out.push(l[j]);
            j += 1;
            assert(l@.take(j as int) =~= l@.take(j - 1).push(l@[j - 1]));
        }
        assert(l@.take(l@.len() as int) =~= l@);
        out.push(10u8);
        i += 1;
        assert(bytes_views(lines@).take(i as int).drop_last() =~= bytes_views(lines@).take(i - 1));
    }
    assert(bytes_views(lines@).take(lines@.len() as int) =~= bytes_views(lines@));
    out
}

proof fn lemma_render_cons(x: Seq<u8>, rest: Seq<Seq<u8>>)
    ensures
        render_spec(seq![x] + rest) == x + seq![10u8] + render_spec(rest),
    decreases rest.len(),
{
    if rest.len() == 0 {
        assert(seq![x] + rest =~= seq![x]);
        assert(seq![x].drop_last() =~= Seq::<Seq<u8>>::empty());
        assert(seq![x].last() == x);
        assert(render_spec(Seq::<Seq<u8>>::empty()) == Seq::<u8>::empty());
        assert(render_spec(seq![x]) =~= Seq::<u8>::empty() + x + seq![10u8]);
        assert(render_spec(seq![x]) =~= x + seq![10u8]);
        assert(x + seq![10u8] + render_spec(rest) =~= x + seq![10u8]);
    } else {
        assert((seq![x] + rest).drop_last() =~= seq![x] + rest.drop_last());
        assert((seq![x] + rest).last() == rest.last());
        lemma_render_cons(x, rest.drop_last());
        assert(render_spec(seq![x] + rest) =~= x + seq![10u8] + render_spec(rest));
    }
}

proof fn lemma_first_newline_found(b: Seq<u8>)
    requires
        b.len() > 0,
        b.last() == 10,
    ensures
        first_newline(b) < b.len(),
        b[first_newline(b) as int] == 10,
        forall|j: int| 0 <= j < first_newline(b) ==> b[j] != 10,
    decreases b.len(),
{
    if b[0] != 10 {
        assert(b.drop_first().last() == b.last());
        lemma_first_newline_found(b.drop_first());
        assert forall|j: int| 0 <= j < first_newline(b) implies b[j] != 10 by {
            if j > 0 {
                assert(b[j] == b.drop_first()[j - 1]);
            }
        }
    }
}

/// Writing out the lines read from a text that is empty or ends with a
/// newline gives the text back.
pub proof fn lemma_render_read_lines(data: Seq<u8>)
    requires
        data.len() == 0 || data.last() == 10,
    ensures
        render_spec(byte_lines(data)) == data,
    decreases data.len(),
{
    if data.len() > 0 {
        lemma_first_newline_found(data);
        let k = first_newline(data) as int;
        let rest = data.skip(k + 1);
        if rest.len() > 0 {
            assert(rest.last() == data.last());
        }
        lemma_render_read_lines(rest);
        lemma_render_cons(data.take(k), byte_lines(rest));
        assert(data.take(k) + seq![10u8] + rest =~= data);
    }
}

// ---------------------------------------------------------------------------
// The operations
// ---------------------------------------------------------------------------

/// The lines of `a` that are (`keep`) or are not (`!keep`) lines of `b`, in
/// order.
pub open spec fn select(a: Seq<Seq<u8>>, b: Seq<Seq<u8>>, keep: bool) -> Seq<Seq<u8>>
    decreases a.len(),
{
    if a.len() == 0 {
        Seq::empty()
    } else if b.contains(a.last()) == keep {
        select(a.drop_last(), b, keep).push(a.last())
    } else {
        select(a.drop_last(), b, keep)
    }
}

/// `and`: the lines of the first file that are in the second.
pub open spec fn and_spec(a: Seq<Seq<u8>>, b: Seq<Seq<u8>>) -> Seq<Seq<u8>> {
    select(a, b, true)
}

/// `not`: the lines of the first file that are not in the second.
pub open spec fn not_spec(a: Seq<Seq<u8>>, b: Seq<Seq<u8>>) -> Seq<Seq<u8>> {
    select(a, b, false)
}

/// `or`: the lines of both files.
pub open spec fn or_spec(a: Seq<Seq<u8>>, b: Seq<Seq<u8>>) -> Seq<Seq<u8>> {
    a + b
}

/// `xor`: the lines of each file that are not in the other, the first
/// file's first.
pub open spec fn xor_spec(a: Seq<Seq<u8>>, b: Seq<Seq<u8>>) -> Seq<Seq<u8>> {
    select(a, b, false) + select(b, a, false)
}

fn copy_bytes(s: &[u8]) -> (r: Vec<u8>)
    ensures
        r@ == s@,
{
    let r = sub_vec(s, 0, s.len());
    assert(r@ =~= s@);
    r
}

/// The number of times `l` occurs in `s`.
pub open spec fn occurrences(s: Seq<Seq<u8>>, l: Seq<u8>) -> nat
    decreases s.len(),
{
    if s.len() == 0 {
        0
    } else {
        occurrences(s.drop_last(), l) + if s.last() == l { 1nat } else { 0nat }
    }
}

pub proof fn lemma_occurrences_concat(x: Seq<Seq<u8>>, y: Seq<Seq<u8>>, l: Seq<u8>)
    ensures
        occurrences(x + y, l) == occurrences(x, l) + occurrences(y, l),
    decreases y.len(),
{
    if y.len() == 0 {
        assert(x + y =~= x);
    } else {
        assert((x + y).drop_last() =~= x + y.drop_last());
        lemma_occurrences_concat(x, y.drop_last(), l);
    }
}

proof fn lemma_occurrences_bound(s: Seq<Seq<u8>>, l: Seq<u8>)
    ensures
        occurrences(s, l) <= s.len(),
        occurrences(s, l) > 0 <==> s.contains(l),
    decreases s.len(),
{
    if s.len() > 0 {
        lemma_occurrences_bound(s.drop_last(), l);
        if s.drop_last().contains(l) {
            let j = choose|j: int| 0 <= j < s.drop_last().len() && s.drop_last()[j] == l;
            assert(s[j] == l);
        }
        if s.contains(l) && s.last() != l {
            let j = choose|j: int| 0 <= j < s.len() && s[j] == l;
            assert(s.drop_last()[j] == l);
        }
        if s.last() == l {
            assert(s[s.len() - 1] == l);
        }
    }
}

fn same_bytes(a: &[u8], b: &[u8]) -> (r: bool)
    ensures
        r == (a@ == b@),
{
    if a.len() != b.len() {
        return false;
    }
    let mut i: usize = 0;
    while i < a.len()
        invariant
            i <= a@.len() == b@.len(),
            forall|j: int| 0 <= j < i ==> a@[j] == b@[j],
        decreases a@.len() - i,
    {
        if a[i] != b[i] {
            return false;
        }
        i += 1;
    }
    assert(a@ =~= b@);
    true
}

/// Whether `line` is one of `lines`.
pub fn contains_line(lines: &[Vec<u8>], line: &[u8]) -> (r: bool)
    ensures
        r == bytes_views(lines@).contains(line@),
{
    let ghost v = bytes_views(lines@);
    let mut i: usize = 0;
    while i < lines.len()
        invariant
            i <= lines@.len(),
            v == bytes_views(lines@),
            forall|j: int| 0 <= j < i ==> v[j] != line@,
        decreases lines@.len() - i,
    {
        if same_bytes(lines[i].as_slice(), line) {
            assert(v[i as int] == line@);
            return true;
        }
        i += 1;
    }
    false
}

fn select_lines(a: &[Vec<u8>], b: &[Vec<u8>], keep: bool) -> (r: Vec<Vec<u8>>)
    ensures
        bytes_views(r@) == select(bytes_views(a@), bytes_views(b@), keep),
{
    let ghost av = bytes_views(a@);
    let mut r: Vec<Vec<u8>> = Vec::new();
    let mut i: usize = 0;
    assert(bytes_views(r@) =~= select(av.take(0), bytes_views(b@), keep));
    while i < a.len()
        invariant
            i <= a@.len(),
            av == bytes_views(a@),
            bytes_views(r@) == select(av.take(i as int), bytes_views(b@), keep),
        decreases a@.len() - i,
    {
        assert(av.take(i + 1).drop_last() =~= av.take(i as int));
        assert(av.take(i + 1).last() == a@[i as int]@);
        if contains_line(b, a[i].as_slice()) == keep {
            let ghost before = bytes_views(r@);
            r.push(copy_bytes(a[i].as_slice()));
            assert(bytes_views(r@) =~= before.push(a@[i as int]@));
        }
        i += 1;
    }
    assert(av.take(a@.len() as int) =~= av);
    r
}

/// The operations of `combine`.
#[derive(Clone, Copy, Debug, PartialEq, Eq, Structural)]
pub enum Op {
    And,
    Not,
    Or,
    Xor,
}

/// The lines that `combine` writes for `op`.
pub open spec fn combine_spec(op: Op, a: Seq<Seq<u8>>, b: Seq<Seq<u8>>) -> Seq<Seq<u8>> {
    match op {
        Op::And => and_spec(a, b),
        Op::Not => not_spec(a, b),
        Op::Or => or_spec(a, b),
        Op::Xor => xor_spec(a, b),
    }
}

/// Combines the lines of the two files.
pub fn combine(op: Op, a: &[Vec<u8>], b: &[Vec<u8>]) -> (r: Vec<Vec<u8>>)
    ensures
        bytes_views(r@) == combine_spec(op, bytes_views(a@), bytes_views(b@)),
{
    match op {
        Op::And => select_lines(a, b, true),
        Op::Not => select_lines(a, b, false),
        Op::Or => {
            let mut r: Vec<Vec<u8>> = Vec::new();
            let mut i: usize = 0;
            while i < a.len()
                invariant
                    i <= a@.len(),
                    bytes_views(r@) == bytes_views(a@).take(i as int),
                decreases a@.len() - i,
            {
                let ghost before = bytes_views(r@);
                r.push(copy_bytes(a[i].as_slice()));
                assert(bytes_views(r@) =~= before.push(a@[i as int]@));
                i += 1;
                assert(bytes_views(a@).take(i as int) =~= bytes_views(a@).take(i - 1).push(a@[i - 1]@));
            }
            assert(bytes_views(a@).take(a@.len() as int) =~= bytes_views(a@));
            let mut j: usize = 0;
            while j < b.len()
                invariant
                    j <= b@.len(),
                    bytes_views(r@) == bytes_views(a@) + bytes_views(b@).take(j as int),
                decreases b@.len() - j,
            {
                let ghost before = bytes_views(r@);
                r.push(copy_bytes(b[j].as_slice()));
                assert(bytes_views(r@) =~= before.push(b@[j as int]@));
                j += 1;
                assert(bytes_views(b@).take(j as int) =~= bytes_views(b@).take(j - 1).push(b@[j - 1]@));
            }
            assert(bytes_views(b@).take(b@.len() as int) =~= bytes_views(b@));
            r
        },
        Op::Xor => {
            let mut r = select_lines(a, b, false);
            let s = select_lines(b, a, false);
            let mut j: usize = 0;
            let ghost first = bytes_views(r@);
            while j < s.len()
                invariant
                    j <= s@.len(),
                    bytes_views(r@) == first + bytes_views(s@).take(j as int),
                decreases s@.len() - j,
            {
                let ghost before = bytes_views(r@);
                r.push(copy_bytes(s[j].as_slice()));
                assert(bytes_views(r@) =~= before.push(s@[j as int]@));
                j += 1;
                assert(bytes_views(s@).take(j as int) =~= bytes_views(s@).take(j - 1).push(s@[j - 1]@));
            }
            assert(bytes_views(s@).take(s@.len() as int) =~= bytes_views(s@));
            r
        },
    }
}

/// The number of times each distinct line occurs, in the order of first
/// occurrence.
pub fn counts(lines: &[Vec<u8>]) -> (r: Vec<(Vec<u8>, usize)>)
    ensures
        forall|i: int| 0 <= i < r@.len() ==> #[trigger] r@[i].1 == occurrences(bytes_views(lines@), r@[i].0@),
        forall|i: int, j: int| 0 <= i < j < r@.len() ==> #[trigger] r@[i].0@ != #[trigger] r@[j].0@,
        forall|l: Seq<u8>| #[trigger] occurrences(bytes_views(lines@), l) > 0 ==> exists|i: int| 0 <= i < r@.len() && #[trigger] r@[i].0@ == l,
{
    let ghost lv = bytes_views(lines@);
    let mut r: Vec<(Vec<u8>, usize)> = Vec::new();
    let mut i: usize = 0;
    while i < lines.len()
        invariant
            i <= lines@.len(),
            lv == bytes_views(lines@),
            forall|k: int| 0 <= k < r@.len() ==> #[trigger] r@[k].1 == occurrences(lv.take(i as int), r@[k].0@),
            forall|k: int, m: int| 0 <= k < m < r@.len() ==> #[trigger] r@[k].0@ != #[trigger] r@[m].0@,
            forall|l: Seq<u8>| #[trigger] occurrences(lv.take(i as int), l) > 0 ==> exists|k: int| 0 <= k < r@.len() && #[trigger] r@[k].0@ == l,
        decreases lines@.len() - i,
    {
        let line = &lines[i];
        let ghost t = lv.take(i as int);
        let ghost t2 = lv.take(i + 1);
        assert(t2.drop_last() =~= t);
        assert(t2.last() == line@);
        let mut k: usize = 0;
        let mut found = false;
        while k < r.len()
            invariant_except_break
                !found,
            invariant
                k <= r@.len(),
                forall|m: int| 0 <= m < k ==> #[trigger] r@[m].0@ != line@,
            ensures
                k <= r@.len(),
                found ==> k < r@.len() && r@[k as int].0@ == line@,
                !found ==> k == r@.len() && forall|m: int| 0 <= m < r@.len() ==> #[trigger] r@[m].0@ != line@,
            decreases r@.len() - k,
        {
            if same_bytes(r[k].0.as_slice(), line.as_slice()) {
                found = true;
                break;
            }
            k += 1;
        }
        let ghost old_r = r@;
        proof {
            lemma_occurrences_bound(t, line@);
        }
        if found {
            let c = r[k].1;
            let key = copy_bytes(r[k].0.as_slice());
            r.set(k, (key, c + 1));
            assert forall|m: int| 0 <= m < r@.len() implies #[trigger] r@[m].1 == occurrences(t2, r@[m].0@) by {
                if m != k {
                    assert(r@[m] == old_r[m]);
                }
            }
            assert forall|l: Seq<u8>| #[trigger] occurrences(t2, l) > 0 implies exists|m: int| 0 <= m < r@.len() && #[trigger] r@[m].0@ == l by {
                if l == line@ {
                    assert(r@[k as int].0@ == l);
                } else {
                    assert(occurrences(t, l) > 0);
                    let m = choose|m: int| 0 <= m < old_r.len() && #[trigger] old_r[m].0@ == l;
                    assert(r@[m].0@ == l);
                }
            }
        } else {
            assert(occurrences(t, line@) == 0) by {
                if occurrences(t, line@) > 0 {
                    let m = choose|m: int| 0 <= m < old_r.len() && #[trigger] old_r[m].0@ == line@;
                }
            }
            let key = copy_bytes(line.as_slice());
            r.push((key, 1));
            assert forall|m: int| 0 <= m < r@.len() implies #[trigger] r@[m].1 == occurrences(t2, r@[m].0@) by {
                if m < old_r.len() {
                    assert(r@[m] == old_r[m]);
                }
            }
            assert forall|l: Seq<u8>| #[trigger] occurrences(t2, l) > 0 implies exists|m: int| 0 <= m < r@.len() && #[trigger] r@[m].0@ == l by {
                if l == line@ {
                    assert(r@[old_r.len() as int].0@ == l);
                } else {
                    assert(occurrences(t, l) > 0);
                    let m = choose|m: int| 0 <= m < old_r.len() && #[trigger] old_r[m].0@ == l;
                    assert(r@[m].0@ == l);
                }
            }
        }
        i += 1;
    }
    assert(lv.take(lines@.len() as int) =~= lv);
    r
}

// ---------------------------------------------------------------------------
// Arguments
// ---------------------------------------------------------------------------

/// What the arguments ask for: the two files and the operation, or the
/// message and exit status 255 of a usage error.
pub open spec fn combine_args_spec(args: Seq<Seq<char>>) -> Result<(Seq<char>, Option<Op>, Seq<char>, Seq<char>), Seq<char>> {
    let a = if args.len() >= 4 && args[3] == "_"@ { args.remove(3) } else { args };
    if a.len() != 3 {
        Err("Usage: combine file1 OP file2"@)
    } else {
        let op = lower_seq(a[1]);
        Ok((a[0], op_of(op), op, a[2]))
    }
}

/// The operation named `op` (already in lower case).
pub open spec fn op_of(op: Seq<char>) -> Option<Op> {
    if op == "and"@ {
        Some(Op::And)
    } else if op == "not"@ {
        Some(Op::Not)
    } else if op == "or"@ {
        Some(Op::Or)
    } else if op == "xor"@ {
        Some(Op::Xor)
    } else {
        None
    }
}

/// The arguments read: first file, the operation (None when unknown), its
/// name in lower case, second file.
pub struct CombineArgs {
    pub file1: String,
    pub op: Option<Op>,
    pub op_name: String,
    pub file2: String,
}

fn lit_is(a: &[char], s: &str) -> (r: bool)
    ensures
        r == (a@ == s@),
{
    let b = chars_of(s);
    same_chars(a, b.as_slice())
}

pub fn parse_args(args: &[String]) -> (r: Result<CombineArgs, String>)
    ensures
        match r {
            Ok(c) => combine_args_spec(string_views(args@)) == Ok::<(Seq<char>, Option<Op>, Seq<char>, Seq<char>), Seq<char>>((c.file1@, c.op, c.op_name@, c.file2@)),
            Err(m) => combine_args_spec(string_views(args@)) == Err::<(Seq<char>, Option<Op>, Seq<char>, Seq<char>), Seq<char>>(m@),
        },
{
    let ghost av = string_views(args@);
    let n = args.len();
    let drop3 = if n >= 4 {
        let c = chars_of(args[3].as_str());
        assert(c@ == av[3]);
        lit_is(c.as_slice(), "_")
    } else {
        false
    };
    let count = if drop3 { n - 1 } else { n };
    if count != 3 {
        proof {
            if drop3 {
                assert(av.remove(3).len() == n - 1);
            }
        }
        return Err(String::from_str("Usage: combine file1 OP file2"));
    }
    proof {
        if drop3 {
            assert(av.remove(3)[0] == av[0] && av.remove(3)[1] == av[1] && av.remove(3)[2] == av[2]);
        }
    }
    let opc = lower_chars(chars_of(args[1].as_str()).as_slice());
    let op = if lit_is(opc.as_slice(), "and") {
        Some(Op::And)
    } else if lit_is(opc.as_slice(), "not") {
        Some(Op::Not)
    } else if lit_is(opc.as_slice(), "or") {
        Some(Op::Or)
    } else if lit_is(opc.as_slice(), "xor") {
        Some(Op::Xor)
    } else {
        None
    };
    Ok(CombineArgs {
        file1: args[0].clone(),
        op,
        op_name: string_from_chars(opc.as_slice()),
        file2: args[2].clone(),
    })
}

/// The message for an unknown operation (exit status 255).
pub fn unknown_operation_msg(op: &str) -> (r: String)
    ensures
        r@ == "unknown operation, "@ + op@,
{
    let mut out = chars_of("unknown operation, ");
    let o = chars_of(op);
    let mut i: usize = 0;
    let ghost start = out@;
    while i < o.len()
        invariant
            i <= o@.len(),
            out@ == start + o@.take(i as int),
        decreases o@.len() - i,
    {
        out.push(o[i]);
        i += 1;
        assert(o@.take(i as int) =~= o@.take(i - 1).push(o@[i - 1]));
    }
    assert(o@.take(o@.len() as int) =~= o@);
    string_from_chars(out.as_slice())
}

// ---------------------------------------------------------------------------
// Laws
// ---------------------------------------------------------------------------

/// `and` and `not` split the first file: every line of it is written by
/// exactly one of them, and together they write all of its lines.
pub proof fn lemma_and_not_partition(a: Seq<Seq<u8>>, b: Seq<Seq<u8>>, l: Seq<u8>)
    ensures
        and_spec(a, b).len() + not_spec(a, b).len() == a.len(),
        occurrences(and_spec(a, b), l) + occurrences(not_spec(a, b), l) == occurrences(a, l),
    decreases a.len(),
{
    if a.len() > 0 {
        lemma_and_not_partition(a.drop_last(), b, l);
        if b.contains(a.last()) {
            assert(and_spec(a, b).drop_last() =~= and_spec(a.drop_last(), b));
        } else {
            assert(not_spec(a, b).drop_last() =~= not_spec(a.drop_last(), b));
        }
    }
}

/// What `and` writes is in both files; what `not` writes is in the first
/// and not in the second.
pub proof fn lemma_and_not_membership(a: Seq<Seq<u8>>, b: Seq<Seq<u8>>, l: Seq<u8>)
    ensures
        and_spec(a, b).contains(l) <==> a.contains(l) && b.contains(l),
        not_spec(a, b).contains(l) <==> a.contains(l) && !b.contains(l),
    decreases a.len(),
{
    lemma_select_contains(a, b, true, l);
    lemma_select_contains(a, b, false, l);
}

proof fn lemma_select_contains(a: Seq<Seq<u8>>, b: Seq<Seq<u8>>, keep: bool, l: Seq<u8>)
    ensures
        select(a, b, keep).contains(l) <==> a.contains(l) && b.contains(l) == keep,
    decreases a.len(),
{
    if a.len() > 0 {
        lemma_select_contains(a.drop_last(), b, keep, l);
        let s0 = select(a.drop_last(), b, keep);
        assert(a.drop_last().push(a.last()) =~= a);
        if a.contains(l) && b.contains(l) == keep {
            let j = choose|j: int| 0 <= j < a.len() && a[j] == l;
            if j < a.len() - 1 {
                assert(a.drop_last()[j] == l);
            }
        }
        if b.contains(a.last()) == keep {
            assert(select(a, b, keep) == s0.push(a.last()));
            if s0.push(a.last()).contains(l) && l != a.last() {
                let j = choose|j: int| 0 <= j < s0.len() + 1 && s0.push(a.last())[j] == l;
                assert(s0[j] == l);
            }
            if l == a.last() {
                assert(s0.push(a.last())[s0.len() as int] == l);
            }
            if s0.contains(l) {
                let j = choose|j: int| 0 <= j < s0.len() && s0[j] == l;
                assert(s0.push(a.last())[j] == l);
            }
        }
        if a.drop_last().contains(l) {
            let j = choose|j: int| 0 <= j < a.drop_last().len() && a.drop_last()[j] == l;
            assert(a[j] == l);
        }
    }
}

/// `or` writes every line of both files.
pub proof fn lemma_or_keeps_everything(a: Seq<Seq<u8>>, b: Seq<Seq<u8>>, l: Seq<u8>)
    ensures
        occurrences(or_spec(a, b), l) == occurrences(a, l) + occurrences(b, l),
        or_spec(a, b).len() == a.len() + b.len(),
{
    lemma_occurrences_concat(a, b, l);
}

/// `xor` does not depend on the order of the files, up to the order of the
/// lines it writes.
pub proof fn lemma_xor_symmetric(a: Seq<Seq<u8>>, b: Seq<Seq<u8>>, l: Seq<u8>)
    ensures
        occurrences(xor_spec(a, b), l) == occurrences(xor_spec(b, a), l),
{
    lemma_occurrences_concat(select(a, b, false), select(b, a, false), l);
    lemma_occurrences_concat(select(b, a, false), select(a, b, false), l);
}

/// Keeping the lines of `a` that are (`keep`) or are not in `b` is the
/// filter of `a` by membership in `b`.
proof fn lemma_select_filter(a: Seq<Seq<u8>>, b: Seq<Seq<u8>>, keep: bool)
    ensures
        select(a, b, keep) == a.filter(|l: Seq<u8>| b.contains(l) == keep),
    decreases a.len(),
{
    reveal_with_fuel(Seq::filter, 1);
    if a.len() > 0 {
        lemma_select_filter(a.drop_last(), b, keep);
    }
}

/// The operation that the arguments name does what its name says, on any
/// two files: `and` keeps the lines of the first file that are in the
/// second, `not` those that are not, `or` writes every line of both files,
/// and `xor` the lines of each file that are not in the other.
pub proof fn lemma_operation_names(args: Seq<Seq<char>>, a: Seq<Seq<u8>>, b: Seq<Seq<u8>>)
    ensures
        combine_args_spec(args) matches Ok((_, op, name, _)) ==> {
            &&& name == "and"@ ==> (op is Some && combine_spec(op.unwrap(), a, b) == a.filter(|l: Seq<u8>| b.contains(l)))
            &&& name == "not"@ ==> (op is Some && combine_spec(op.unwrap(), a, b) == a.filter(|l: Seq<u8>| !b.contains(l)))
            &&& name == "or"@ ==> (op is Some && combine_spec(op.unwrap(), a, b) == a + b)
            &&& name == "xor"@ ==> (op is Some && combine_spec(op.unwrap(), a, b) == a.filter(|l: Seq<u8>| !b.contains(l))
                + b.filter(|l: Seq<u8>| !a.contains(l)))
        },
{
    lemma_select_filter(a, b, true);
    lemma_select_filter(a, b, false);
    lemma_select_filter(b, a, false);
    assert((|l: Seq<u8>| b.contains(l) == true) =~= (|l: Seq<u8>| b.contains(l)));
    assert((|l: Seq<u8>| b.contains(l) == false) =~= (|l: Seq<u8>| !b.contains(l)));
    assert((|l: Seq<u8>| a.contains(l) == false) =~= (|l: Seq<u8>| !a.contains(l)));
    reveal_strlit("and");
    reveal_strlit("not");
    reveal_strlit("or");
    reveal_strlit("xor");
    assert("or"@.len() != "and"@.len() && "or"@.len() != "not"@.len() && "or"@.len() != "xor"@.len());
    assert("not"@[0] != "and"@[0] && "xor"@[0] != "and"@[0] && "xor"@[0] != "not"@[0]);
    assert("or"@ != "and"@ && "or"@ != "not"@ && "xor"@ != "and"@ && "xor"@ != "not"@ && "not"@ != "and"@);
}

} // verus!
