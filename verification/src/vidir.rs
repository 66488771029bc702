//! `vidir`: the numbered listing that is edited, the reading of the edited
//! lines, and the bookkeeping of the items while the renames are made.
use vstd::prelude::*;
use std::collections::BTreeMap;
use crate::text::{
    chars_of, decimal, ends_with, fields, lex_lt, lex_sorted, same_chars, sort_strings, split_fields,
    string_from_chars, string_views, sub_vec, trim_chars, trim_trailing, trim_trailing_chars,
    trim_ws, views_of, Sep, has_suffix, has_prefix, starts_with, parse_int, parse_int_spec, is_digit,
    all_digits, strip_cr, digit_prefix, is_unicode_whitespace, leading_seps, trailing_ws,
};

verus! {

broadcast use vstd::seq::group_seq_axioms, vstd::std_specs::btree::group_btree_axioms, vstd::laws_cmp::group_laws_cmp;

// ---------------------------------------------------------------------------
// Arguments
// ---------------------------------------------------------------------------

/// What the arguments say: verbose or not, and the paths to list (`.` when
/// none is given).
pub struct VidirArgs {
    pub verbose: bool,
    pub paths: Vec<String>,
}

pub open spec fn trim_dashes(s: Seq<char>) -> Seq<char>
    decreases s.len(),
{
    if s.len() > 0 && s[0] == '-' {
        trim_dashes(s.drop_first())
    } else {
        s
    }
}

/// The error for an unknown option `opt`: the two lines written to standard
/// error before exiting with status 255.
pub open spec fn vidir_unknown_option(argv0: Seq<char>, arg: Seq<char>) -> Seq<char> {
    "Unknown option: "@ + trim_dashes(arg) + "\nUsage: "@ + argv0 + " [--verbose] [directory|file|-]\n"@
}

/// The meaning of the arguments from `k` on, given what came before.
pub open spec fn vidir_args_from(args: Seq<Seq<char>>, k: int, verbose: bool, paths: Seq<Seq<char>>, argv0: Seq<char>) -> Result<(bool, Seq<Seq<char>>), Seq<char>>
    decreases args.len() - k,
{
    if k >= args.len() || k < 0 {
        Ok((verbose, if paths.len() == 0 { seq![seq!['.']] } else { paths }))
    } else {
        let a = args[k];
        if a == "--"@ {
            let all = paths + args.skip(k + 1);
            Ok((verbose, if all.len() == 0 { seq![seq!['.']] } else { all }))
        } else if a == "-v"@ || a == "--verbose"@ {
            vidir_args_from(args, k + 1, true, paths, argv0)
        } else if a.len() > 0 && a[0] == '-' && a != "-"@ {
            Err(vidir_unknown_option(argv0, a))
        } else {
            vidir_args_from(args, k + 1, verbose, paths.push(a), argv0)
        }
    }
}

fn dot_string() -> (r: String)
    ensures
        r@ == seq!['.'],
{
    let d = vec!['.'];
    assert(d@ =~= seq!['.']);
    string_from_chars(d.as_slice())
}

fn lit_eq(a: &[char], s: &str) -> (r: bool)
    ensures
        r == (a@ == s@),
{
    let b = chars_of(s);
    same_chars(a, b.as_slice())
}

pub fn trim_dashes_exec(s: &[char]) -> (r: Vec<char>)
    ensures
        r@ == trim_dashes(s@),
{
    let mut i: usize = 0;
    assert(s@.skip(0) =~= s@);
    while i < s.len() && s[i] == '-'
        invariant
            i <= s@.len(),
            trim_dashes(s@) == trim_dashes(s@.skip(i as int)),
        decreases s@.len() - i,
    {
        assert(s@.skip(i as int).drop_first() =~= s@.skip(i + 1));
        i += 1;
    }
    sub_vec(s, i, s.len())
}

fn push_str(out: &mut Vec<char>, s: &str)
    ensures
        final(out)@ == old(out)@ + s@,
{
    let c = chars_of(s);
    push_chars(out, c.as_slice());
}

fn push_chars(out: &mut Vec<char>, c: &[char])
    ensures
        final(out)@ == old(out)@ + c@,
{
    let mut i: usize = 0;
    let ghost start = out@;
    while i < c.len()
        invariant
            i <= c@.len(),
            out@ == start + c@.take(i as int),
        decreases c@.len() - i,
    {
        out.push(c[i]);
        i += 1;
        assert(c@.take(i as int) =~= c@.take(i - 1).push(c@[i - 1]));
    }
    assert(c@.take(c@.len() as int) =~= c@);
}

/// Reads the arguments (without the program name); `argv0` is the name the
/// program was called by.
pub fn parse_args(args: &[String], argv0: &str) -> (r: Result<VidirArgs, String>)
    ensures
        match r {
            Ok(a) => vidir_args_from(string_views(args@), 0, false, seq![], argv0@) == Ok::<(bool, Seq<Seq<char>>), Seq<char>>((a.verbose, string_views(a.paths@))),
            Err(e) => vidir_args_from(string_views(args@), 0, false, seq![], argv0@) == Err::<(bool, Seq<Seq<char>>), Seq<char>>(e@),
        },
{
    let ghost av = string_views(args@);
    let mut verbose = false;
    let mut paths: Vec<String> = Vec::new();
    let mut k: usize = 0;
    assert(string_views(paths@) =~= Seq::<Seq<char>>::empty());
    while k < args.len()
        invariant
            k <= args@.len(),
            av == string_views(args@),
            vidir_args_from(av, 0, false, seq![], argv0@) == vidir_args_from(av, k as int, verbose, string_views(paths@), argv0@),
        decreases args@.len() - k,
    {
        let a = chars_of(args[k].as_str());
        assert(a@ == av[k as int]);
        if lit_eq(a.as_slice(), "--") {
            let ghost before = string_views(paths@);
            let mut j = k + 1;
            while j < args.len()
                invariant
                    k < j <= args@.len(),
                    av == string_views(args@),
                    string_views(paths@) == before + av.subrange(k + 1, j as int),
                decreases args@.len() - j,
            {
                let ghost p0 = string_views(paths@);
                paths.push(args[j].clone());
                assert(string_views(paths@) =~= p0.push(av[j as int]));
                j += 1;
                assert(av.subrange(k + 1, j as int) =~= av.subrange(k + 1, j - 1).push(av[j - 1]));
            }
            assert(av.subrange(k + 1, args@.len() as int) =~= av.skip(k + 1));
            if paths.len() == 0 {
                paths.push(dot_string());
                assert(string_views(paths@) =~= seq![seq!['.']]);
            }
            return Ok(VidirArgs { verbose, paths });
        } else if lit_eq(a.as_slice(), "-v") || lit_eq(a.as_slice(), "--verbose") {
            verbose = true;
        } else if a.len() > 0 && a[0] == '-' && !lit_eq(a.as_slice(), "-") {
            let mut out: Vec<char> = Vec::new();
            push_str(&mut out, "Unknown option: ");
            let t = trim_dashes_exec(a.as_slice());
            push_chars(&mut out, t.as_slice());
            push_str(&mut out, "\nUsage: ");
            push_str(&mut out, argv0);
            push_str(&mut out, " [--verbose] [directory|file|-]\n");
            assert(out@ =~= vidir_unknown_option(argv0@, a@));
            return Err(string_from_chars(out.as_slice()));
        } else {
            let ghost p0 = string_views(paths@);
            paths.push(args[k].clone());
            assert(string_views(paths@) =~= p0.push(av[k as int]));
        }
        k += 1;
    }
    if paths.len() == 0 {
        paths.push(dot_string());
        assert(string_views(paths@) =~= seq![seq!['.']]);
    }
    Ok(VidirArgs { verbose, paths })
}

// ---------------------------------------------------------------------------
// Paths
// ---------------------------------------------------------------------------

/// `path`, once its trailing slashes are gone, is `.` or `..` or ends in
/// `/.` or `/..`.
pub open spec fn dot_or_dotdot_spec(path: Seq<char>) -> bool {
    let p = trim_trailing(path, '/');
    ||| p == seq!['.']
    ||| p == seq!['.', '.']
    ||| ends_with(p, seq!['/', '.'])
    ||| ends_with(p, seq!['/', '.', '.'])
}

pub fn is_dot_or_dotdot_path(path: &str) -> (r: bool)
    ensures
        r == dot_or_dotdot_spec(path@),
{
    let c = chars_of(path);
    let p = trim_trailing_chars(c.as_slice(), '/');
    let dot = vec!['.'];
    let dotdot = vec!['.', '.'];
    let sdot = vec!['/', '.'];
    let sdotdot = vec!['/', '.', '.'];
    assert(dot@ =~= seq!['.']);
    assert(dotdot@ =~= seq!['.', '.']);
    assert(sdot@ =~= seq!['/', '.']);
    assert(sdotdot@ =~= seq!['/', '.', '.']);
    same_chars(p.as_slice(), dot.as_slice()) || same_chars(p.as_slice(), dotdot.as_slice())
        || has_suffix(p.as_slice(), sdot.as_slice()) || has_suffix(p.as_slice(), sdotdot.as_slice())
}

/// The parent that `std::path::Path::parent` gives for `p`, as text.
pub uninterp spec fn path_parent_spec(p: Seq<char>) -> Option<Seq<char>>;

/// std: `Path::new(p).parent()`, written back as a string (lossless, since
/// it came from one).
#[verifier::external_body]
fn path_parent(p: &str) -> (r: Option<String>)
    ensures
        match r {
            Some(s) => path_parent_spec(p@) == Some(s@),
            None => path_parent_spec(p@) is None,
        },
{
    match std::path::Path::new(p).parent() {
        Some(d) => Some(d.to_string_lossy().into_owned()),
        None => None,
    }
}

/// The directory that holds `path`: its parent, or `.` when it has none or
/// an empty one.
pub open spec fn dirname_spec(path: Seq<char>) -> Seq<char> {
    match path_parent_spec(path) {
        Some(d) => if d.len() == 0 { seq!['.'] } else { d },
        None => seq!['.'],
    }
}

pub fn dirname(path: &str) -> (r: String)
    ensures
        r@ == dirname_spec(path@),
{
    match path_parent(path) {
        Some(d) => {
            if d.as_str().is_empty() {
                let dot = vec!['.'];
                string_from_chars(dot.as_slice())
            } else {
                d
            }
        },
        None => {
            let dot = vec!['.'];
            string_from_chars(dot.as_slice())
        },
    }
}

/// `c` is a control character (`char::is_control`: U+0000..U+001F and
/// U+007F..U+009F).
pub open spec fn is_control_spec(c: char) -> bool {
    (c as u32) <= 0x1f || (0x7f <= (c as u32) && (c as u32) <= 0x9f)
}

/// Some path holds a control character, which `vidir` refuses.
pub fn has_control_chars(paths: &[String]) -> (r: bool)
    ensures
        r == exists|i: int, j: int|
            0 <= i < paths@.len() && 0 <= j < paths@[i]@.len() && #[trigger] is_control_spec(paths@[i]@[j]),
{
    let mut i: usize = 0;
    while i < paths.len()
        invariant
            i <= paths@.len(),
            forall|a: int, j: int| 0 <= a < i && 0 <= j < paths@[a]@.len() ==> !#[trigger] is_control_spec(paths@[a]@[j]),
        decreases paths@.len() - i,
    {
        let c = chars_of(paths[i].as_str());
        let mut j: usize = 0;
        while j < c.len()
            invariant
                i < paths@.len(),
                j <= c@.len(),
                c@ == paths@[i as int]@,
                forall|b: int| 0 <= b < j ==> !#[trigger] is_control_spec(c@[b]),
            decreases c@.len() - j,
        {
            let v = c[j] as u32;
            if v <= 0x1f || (0x7f <= v && v <= 0x9f) {
                assert(0 <= j < paths@[i as int]@.len());
                assert(is_control_spec(paths@[i as int]@[j as int]));
                return true;
            }
            j += 1;
        }
        i += 1;
    }
    false
}

/// The prefix that the names in directory `arg` get: `arg` without its
/// trailing slashes, then one slash.
pub open spec fn dir_prefix_spec(arg: Seq<char>) -> Seq<char> {
    trim_trailing(arg, '/').push('/')
}

/// The paths of a directory's entries: the names sorted, each after the
/// directory's prefix.
pub fn directory_paths(arg: &str, names: &[String]) -> (r: Vec<String>)
    ensures
        r@.len() == names@.len(),
        exists|sorted: Seq<Seq<char>>|
            #![trigger lex_sorted(sorted)]
            lex_sorted(sorted) && sorted.to_multiset() == string_views(names@).to_multiset()
                && sorted.len() == names@.len()
                && forall|i: int| 0 <= i < sorted.len() ==> #[trigger] r@[i]@ == dir_prefix_spec(arg@) + sorted[i],
{
    let c = chars_of(arg);
    let mut prefix = trim_trailing_chars(c.as_slice(), '/');
    prefix.push('/');
    let sorted = sort_strings(names);
    let ghost sv = string_views(sorted@);
    let mut r: Vec<String> = Vec::new();
    let mut i: usize = 0;
    while i < sorted.len()
        invariant
            i <= sorted@.len(),
            sv == string_views(sorted@),
            prefix@ == dir_prefix_spec(arg@),
            r@.len() == i,
            forall|j: int| 0 <= j < i ==> #[trigger] r@[j]@ == dir_prefix_spec(arg@) + sv[j],
        decreases sorted@.len() - i,
    {
        let mut p = sub_vec(prefix.as_slice(), 0, prefix.len());
        let n = chars_of(sorted[i].as_str());
        push_chars(&mut p, n.as_slice());
        r.push(string_from_chars(p.as_slice()));
        i += 1;
    }
    assert(lex_sorted(sv));
    r
}

// ---------------------------------------------------------------------------
// The items
// ---------------------------------------------------------------------------

/// The numbered items of the listing: a map from number to path.
pub struct Items {
    map: BTreeMap<usize, String>,
}

/// Every path `from` of `v` becomes `to`.
pub open spec fn rep(p: Seq<char>, from: Seq<char>, to: Seq<char>) -> Seq<char> {
    if p == from {
        to
    } else {
        p
    }
}

/// Where path `p` is after directory `src` became `dst`.
pub open spec fn moved_path(p: Seq<char>, src: Seq<char>, dst: Seq<char>) -> Seq<char> {
    if p == src {
        dst
    } else if starts_with(p, src.push('/')) {
        dst.push('/') + p.skip(src.len() as int + 1)
    } else {
        p
    }
}

pub open spec fn map_views(m: Map<usize, String>) -> Map<usize, Seq<char>> {
    m.map_values(|s: String| s@)
}

impl Items {
    /// The items: each number with its path.
    pub closed spec fn view(&self) -> Map<usize, Seq<char>> {
        map_views(self.map@)
    }

    pub fn new() -> (r: Items)
        ensures
            r.view() == Map::<usize, Seq<char>>::empty(),
    {
        let r = Items { map: BTreeMap::new() };
        assert(r.view() =~= Map::<usize, Seq<char>>::empty());
        r
    }

    pub fn len(&self) -> (n: usize)
        ensures
            n == self.view().len(),
    {
        assert(self.view().dom() =~= self.map@.dom());
        self.map.len()
    }

    /// Adds `path` as item `number`.
    pub fn push(&mut self, number: usize, path: String)
        ensures
            final(self).view() == old(self).view().insert(number, path@),
    {
        self.map.insert(number, path);
        assert(self.view() =~= old(self).view().insert(number, path@));
    }

    /// The path of item `number`.
    pub fn get(&self, number: usize) -> (r: Option<String>)
        ensures
            match r {
                Some(p) => self.view().contains_key(number) && self.view()[number] == p@,
                None => !self.view().contains_key(number),
            },
    {
        match self.map.get(&number) {
            Some(p) => Some(p.clone()),
            None => None,
        }
    }

    /// Forgets item `number`.
    pub fn remove(&mut self, number: usize)
        ensures
            final(self).view() == old(self).view().remove(number),
    {
        self.map.remove(&number);
        assert(self.view() =~= old(self).view().remove(number));
    }

    /// The map with every path changed by `f`, as `spec` says of each.
    fn rebuilt(&self, from: &str, to: &str, dir: bool) -> (r: BTreeMap<usize, String>)
        ensures
            map_views(r@) == if dir {
                self.view().map_values(|p: Seq<char>| moved_path(p, from@, to@))
            } else {
                self.view().map_values(|p: Seq<char>| rep(p, from@, to@))
            },
    {
        let m = &self.map;
        let ghost f = |p: Seq<char>| if dir { moved_path(p, from@, to@) } else { rep(p, from@, to@) };
        let mut out: BTreeMap<usize, String> = BTreeMap::new();
        let fc = chars_of(from);
        let tc = chars_of(to);
        let mut prefix = sub_vec(fc.as_slice(), 0, fc.len());
        prefix.push('/');
        let ghost s = vstd::std_specs::iter::IteratorSpec::remaining(&vstd::std_specs::btree::spec_btree_map_iter(m));
        for kv in it: m.iter()
            invariant
                it.seq() == s,
                fc@ == from@,
                tc@ == to@,
                forall|p: Seq<char>| #[trigger] f(p) == (if dir { moved_path(p, from@, to@) } else { rep(p, from@, to@) }),
                prefix@ == from@.push('/'),
                forall|i: int| 0 <= i < s.len() ==> m@.contains_key(*s[i].0) && m@[*s[i].0] == *s[i].1,
                forall|k: usize| #[trigger] m@.contains_key(k) ==> s.contains((&k, &m@[k])),
                forall|k: usize| #[trigger] out@.contains_key(k) ==> m@.contains_key(k) && out@[k]@ == f(m@[k]@),
                forall|i: int| 0 <= i < it.index() ==> #[trigger] out@.contains_key(*s[i].0),
        {
            let (k, v) = kv;
            assert(kv == s[it.index() as int]);
            let vc = chars_of(v.as_str());
            assert(vc@ == (*v)@);
            let nv = if same_chars(vc.as_slice(), fc.as_slice()) {
                let t = String::from_str(to);
                assert(t@ == f(vc@));
                t
            } else if dir && has_prefix(vc.as_slice(), prefix.as_slice()) {
                let rest = sub_vec(vc.as_slice(), prefix.len(), vc.len());
                let mut p = sub_vec(tc.as_slice(), 0, tc.len());
                p.push('/');
                push_chars(&mut p, rest.as_slice());
                assert(p@ =~= moved_path(vc@, from@, to@));
                let t = string_from_chars(p.as_slice());
                assert(t@ == f(vc@));
                t
            } else {
                let t = string_from_chars(vc.as_slice());
                assert(t@ == f(vc@));
                t
            };
            out.insert(*k, nv);
        }
        proof {
            assert forall|k: usize| #[trigger] m@.contains_key(k) implies out@.contains_key(k) by {
                let i = choose|i: int| 0 <= i < s.len() && s[i] == (&k, &m@[k]);
            }
            if dir {
                assert(map_views(out@) =~= self.view().map_values(|p: Seq<char>| moved_path(p, from@, to@)));
            } else {
                assert(map_views(out@) =~= self.view().map_values(|p: Seq<char>| rep(p, from@, to@)));
            }
        }
        out
    }

    /// Every item whose path is `from` gets the path `to`.
    pub fn replace_value(&mut self, from: &str, to: &str)
        ensures
            final(self).view() == old(self).view().map_values(|p: Seq<char>| rep(p, from@, to@)),
    {
        self.map = self.rebuilt(from, to, false);
    }

    /// After directory `src` was renamed to `dst`: the item `src` becomes
    /// `dst`, and every item under `src/` moves under `dst/`.
    pub fn update_directory_children(&mut self, src: &str, dst: &str)
        ensures
            final(self).view() == old(self).view().map_values(|p: Seq<char>| moved_path(p, src@, dst@)),
    {
        self.map = self.rebuilt(src, dst, true);
    }

    /// The paths of the items in descending order: the order in which the
    /// items left at the end are removed.
    pub fn removal_order(&self) -> (r: Vec<String>)
        ensures
            exists|ks: Seq<usize>|
                #![trigger ks.to_set()]
                ks.no_duplicates() && ks.to_set() == self.view().dom()
                && string_views(r@).to_multiset() == ks.map_values(|k: usize| self.view()[k]).to_multiset(),
            forall|i: int, j: int| 0 <= i < j < r@.len() ==> !lex_lt(#[trigger] r@[i]@, #[trigger] r@[j]@),
    {
        let m = &self.map;
        let ghost s = vstd::std_specs::iter::IteratorSpec::remaining(&vstd::std_specs::btree::spec_btree_map_iter(m));
        let ghost ks = s.map_values(|kv: (&usize, &String)| *kv.0);
        let mut vals: Vec<String> = Vec::new();
        for kv in it: m.iter()
            invariant
                it.seq() == s,
                ks == s.map_values(|kv: (&usize, &String)| *kv.0),
                forall|i: int| 0 <= i < s.len() ==> m@.contains_key(*s[i].0) && m@[*s[i].0] == *s[i].1,
                string_views(vals@) == ks.take(it.index() as int).map_values(|k: usize| map_views(m@)[k]),
        {
            let (k, v) = kv;
            let ghost idx = it.index() as int;
            assert(kv == s[idx]);
            let ghost before = string_views(vals@);
            vals.push(v.clone());
            assert(ks.take(idx + 1) =~= ks.take(idx).push(ks[idx]));
            assert(string_views(vals@) =~= before.push(map_views(m@)[ks[idx]]));
        }
        proof {
            assert(ks.take(ks.len() as int) =~= ks);
            assert(s.no_duplicates());
            assert forall|a: int, b: int| 0 <= a < b < ks.len() implies ks[a] != ks[b] by {
                assert(s[a] != s[b]);
                assert(m@[*s[a].0] == *s[a].1);
                assert(m@[*s[b].0] == *s[b].1);
            }
            assert forall|k: usize| #[trigger] ks.to_set().contains(k) <==> self.view().dom().contains(k) by {
                if m@.contains_key(k) {
                    let i = choose|i: int| 0 <= i < s.len() && s[i] == (&k, &m@[k]);
                    assert(ks[i] == k);
                }
                if ks.to_set().contains(k) {
                    let i = choose|i: int| 0 <= i < ks.len() && ks[i] == k;
                    assert(m@.contains_key(*s[i].0));
                }
            }
            assert(ks.to_set() =~= self.view().dom());
        }
        let sorted = sort_strings(vals.as_slice());
        let mut r: Vec<String> = Vec::new();
        let mut k: usize = sorted.len();
        let ghost sv = string_views(sorted@);
        while k > 0
            invariant
                k <= sorted@.len(),
                sv == string_views(sorted@),
                string_views(r@) == sv.subrange(k as int, sv.len() as int).reverse(),
            decreases k,
        {
            k -= 1;
            let ghost before = string_views(r@);
            let x = sorted[k].clone();
            assert(x@ == sv[k as int]);
            r.push(x);
            assert(string_views(r@) =~= before.push(sv[k as int]));
            assert(sv.subrange(k as int, sv.len() as int).reverse() =~= sv.subrange(k + 1, sv.len() as int).reverse().push(sv[k as int]));
        }
        proof {
            assert(sv.subrange(0, sv.len() as int) =~= sv);
            sv.lemma_reverse_to_multiset();
            let rv = string_views(r@);
            assert forall|a: int, b: int| 0 <= a < b < r@.len() implies !lex_lt(#[trigger] r@[a]@, #[trigger] r@[b]@) by {
                assert(r@[a]@ == rv[a]);
                assert(rv[a] == sv[sv.len() - 1 - a]);
                assert(rv[b] == sv[sv.len() - 1 - b]);
            }
        }
        r
    }
}

// ---------------------------------------------------------------------------
// The listing
// ---------------------------------------------------------------------------

/// A number in at least four digits, zero-padded (`{:04}`).
pub open spec fn pad4(n: nat) -> Seq<char> {
    let d = decimal(n);
    if d.len() < 4 {
        Seq::new((4 - d.len()) as nat, |i: int| '0') + d
    } else {
        d
    }
}

/// The paths that get numbers: those that are not `.` or `..`.
pub open spec fn listed_paths(paths: Seq<Seq<char>>) -> Seq<Seq<char>>
    decreases paths.len(),
{
    if paths.len() == 0 {
        paths
    } else if dot_or_dotdot_spec(paths.last()) {
        listed_paths(paths.drop_last())
    } else {
        listed_paths(paths.drop_last()).push(paths.last())
    }
}

/// The listing of numbered paths from number `start`, one line
/// `NNNN<tab>path` each.
pub open spec fn listing_lines(paths: Seq<Seq<char>>, start: nat) -> Seq<char>
    decreases paths.len(),
{
    if paths.len() == 0 {
        Seq::empty()
    } else {
        pad4(start) + seq!['\t'] + paths[0] + seq!['\n'] + listing_lines(paths.drop_first(), start + 1)
    }
}

/// The line of path `p` numbered `n`.
pub open spec fn listing_line(p: Seq<char>, n: nat) -> Seq<char> {
    pad4(n) + seq!['\t'] + p + seq!['\n']
}

proof fn lemma_listing_push(a: Seq<Seq<char>>, x: Seq<char>, s: nat)
    ensures
        listing_lines(a.push(x), s) == listing_lines(a, s) + listing_line(x, s + a.len()),
    decreases a.len(),
{
    if a.len() == 0 {
        assert(a.push(x).drop_first() =~= Seq::<Seq<char>>::empty());
        assert(listing_lines(a.push(x), s) =~= listing_line(x, s) + listing_lines(Seq::<Seq<char>>::empty(), s + 1));
    } else {
        assert(a.push(x).drop_first() =~= a.drop_first().push(x));
        lemma_listing_push(a.drop_first(), x, s + 1);
        assert(listing_lines(a.push(x), s) =~= listing_line(a[0], s) + listing_lines(a.drop_first().push(x), s + 1));
        assert(listing_lines(a, s) =~= listing_line(a[0], s) + listing_lines(a.drop_first(), s + 1));
    }
}

fn push_pad4(out: &mut Vec<char>, n: usize)
    ensures
        final(out)@ == old(out)@ + pad4(n as nat),
{
    let mut d: Vec<char> = Vec::new();
    crate::text::push_decimal(&mut d, n as u64);
    assert(d@ =~= decimal(n as nat));
    let ghost start = out@;
    if d.len() < 4 {
        let z = 4 - d.len();
        let mut k: usize = 0;
        while k < z
            invariant
                k <= z,
                out@ == start + Seq::new(k as nat, |i: int| '0'),
            decreases z - k,
        {
            out.push('0');
            k += 1;
            assert(Seq::new(k as nat, |i: int| '0') =~= Seq::new((k - 1) as nat, |i: int| '0').push('0'));
        }
    }
    push_chars(out, d.as_slice());
    assert(out@ =~= start + pad4(n as nat));
}

/// The numbered listing: the items (numbered from 1, skipping `.` and `..`)
/// and the text of the file that is edited.
pub fn build_listing(paths: &[String]) -> (r: (Items, String))
    requires
        paths@.len() < usize::MAX,
    ensures
        forall|k: usize| #[trigger] r.0.view().contains_key(k) <==> 1 <= k <= listed_paths(string_views(paths@)).len(),
        forall|i: int| 0 <= i < listed_paths(string_views(paths@)).len() ==> r.0.view()[(i + 1) as usize]
            == #[trigger] listed_paths(string_views(paths@))[i],
        r.1@ == listing_lines(listed_paths(string_views(paths@)), 1),
{
    let ghost pv = string_views(paths@);
    let mut items = Items::new();
    let mut text: Vec<char> = Vec::new();
    let mut number: usize = 0;
    let mut i: usize = 0;
    assert(listed_paths(pv.take(0)) =~= Seq::<Seq<char>>::empty()) by {
        assert(pv.take(0) =~= Seq::<Seq<char>>::empty());
    }
    while i < paths.len()
        invariant
            i <= paths@.len() < usize::MAX,
            pv == string_views(paths@),
            number == listed_paths(pv.take(i as int)).len(),
            number <= i,
            forall|k: usize| #[trigger] items.view().contains_key(k) <==> 1 <= k <= number,
            forall|j: int| 0 <= j < number ==> items.view()[(j + 1) as usize] == #[trigger] listed_paths(pv.take(i as int))[j],
            text@ == listing_lines(listed_paths(pv.take(i as int)), 1),
        decreases paths@.len() - i,
    {
        let ghost before = listed_paths(pv.take(i as int));
        proof {
            assert(pv.take(i + 1).drop_last() =~= pv.take(i as int));
        }
        if !is_dot_or_dotdot_path(paths[i].as_str()) {
            number += 1;
            items.push(number, paths[i].clone());
            proof {
                assert(listed_paths(pv.take(i + 1)) == before.push(pv[i as int]));
                lemma_listing_push(before, pv[i as int], 1);
            }
            push_pad4(&mut text, number);
            text.push('\t');
            let c = chars_of(paths[i].as_str());
            push_chars(&mut text, c.as_slice());
            text.push('\n');
            assert(text@ =~= listing_lines(before, 1) + listing_line(pv[i as int], (1 + before.len()) as nat));
        }
        i += 1;
    }
    assert(pv.take(paths@.len() as int) =~= pv);
    (items, string_from_chars(text.as_slice()))
}

// ---------------------------------------------------------------------------
// The edited lines
// ---------------------------------------------------------------------------

/// A line of the edited listing: the item number in its leading digits, then
/// the new name after one optional tab. None when there are no digits or
/// the number does not fit.
pub open spec fn edit_line_spec(line: Seq<char>) -> Option<(int, Seq<char>)> {
    let k = digit_prefix(line) as int;
    if k == 0 {
        None
    } else {
        match parse_int_spec(line.take(k), false, 0, usize::MAX as int) {
            None => None,
            Some(n) => {
                let rest = line.skip(k);
                Some((n, if rest.len() > 0 && rest[0] == '\t' { rest.drop_first() } else { rest }))
            },
        }
    }
}

pub fn parse_edit_line(line: &str) -> (r: Option<(usize, String)>)
    ensures
        match r {
            Some((n, name)) => edit_line_spec(line@) == Some((n as int, name@)),
            None => edit_line_spec(line@) is None,
        },
{
    let c = chars_of(line);
    let mut k: usize = 0;
    assert(c@.skip(0) =~= c@);
    while k < c.len() && '0' <= c[k] && c[k] <= '9'
        invariant
            k <= c@.len(),
            c@ == line@,
            digit_prefix(c@) == k + digit_prefix(c@.skip(k as int)),
        decreases c@.len() - k,
    {
        assert(c@.skip(k as int).drop_first() =~= c@.skip(k + 1));
        k += 1;
    }
    if k == 0 {
        return None;
    }
    let digits = sub_vec(c.as_slice(), 0, k);
    assert(digits@ == c@.take(k as int));
    let n = match parse_int(digits.as_slice(), false, 0, usize::MAX as i128) {
        Some(n) => n as usize,
        None => return None,
    };
    let name = if k < c.len() && c[k] == '\t' {
        sub_vec(c.as_slice(), k + 1, c.len())
    } else {
        sub_vec(c.as_slice(), k, c.len())
    };
    assert(name@ =~= (if c@.skip(k as int).len() > 0 && c@.skip(k as int)[0] == '\t' {
        c@.skip(k as int).drop_first()
    } else {
        c@.skip(k as int)
    }));
    Some((n, string_from_chars(name.as_slice())))
}

/// What one line of the edited listing asks for.
pub enum EditStep {
    /// A blank line, or one that gives an empty name: nothing happens.
    Skip,
    /// The listing cannot be read: this message, then exit status 25.
    Fatal(String),
    /// The item keeps its name and is done.
    Keep(usize),
    /// Item `number`, now at `src`, is to be renamed to `name`.
    Rename { number: usize, src: String, name: String },
}

pub open spec fn unparsable_msg(argv0: Seq<char>, line: Seq<char>) -> Seq<char> {
    argv0 + ": unable to parse line \""@ + line + "\", aborting"@
}

pub open spec fn unknown_item_msg(argv0: Seq<char>, n: int) -> Seq<char> {
    argv0 + ": unknown item number "@ + decimal(n as nat)
}

/// What classifying the line `line` (without its carriage return) of the
/// edited listing against `items` may give: `r`.
pub open spec fn edit_step_spec(argv0: Seq<char>, line: Seq<char>, items: Map<usize, Seq<char>>, r: EditStep) -> bool {
    match r {
        EditStep::Skip => trim_ws(line).len() == 0 || (edit_line_spec(line) matches Some((n, name))
            && name.len() == 0 && has_item(items, n) && items[n as usize] != name),
        EditStep::Fatal(m) => trim_ws(line).len() != 0 && (
            (edit_line_spec(line) is None && m@ == unparsable_msg(argv0, line))
            || (edit_line_spec(line) matches Some((n, _)) && m@ == unknown_item_msg(argv0, n)
                && !has_item(items, n))),
        EditStep::Keep(n) => trim_ws(line).len() != 0 && (edit_line_spec(line) matches Some((m, name)) && m == n
            && items.contains_key(n) && items[n] == name),
        EditStep::Rename { number, src, name } => trim_ws(line).len() != 0
            && edit_line_spec(line) == Some((number as int, name@)) && name@.len() != 0 && name@ != src@
            && items.contains_key(number) && items[number] == src@,
    }
}

/// There is an item numbered `n`.
pub open spec fn has_item(items: Map<usize, Seq<char>>, n: int) -> bool {
    0 <= n <= usize::MAX && items.contains_key(n as usize)
}

/// Classifies a line of the edited listing, as read by `str::lines`.
pub fn classify_edit(argv0: &str, raw_line: &str, items: &Items) -> (r: EditStep)
    ensures
        edit_step_spec(argv0@, strip_cr(raw_line@), items.view(), r),
{
    let c0 = chars_of(raw_line);
    let k = c0.len();
    let line = if k > 0 && c0[k - 1] == '\r' {
        sub_vec(c0.as_slice(), 0, k - 1)
    } else {
        sub_vec(c0.as_slice(), 0, k)
    };
    assert(line@ =~= strip_cr(raw_line@));
    let t = trim_chars(line.as_slice());
    if t.len() == 0 {
        return EditStep::Skip;
    }
    let ls = string_from_chars(line.as_slice());
    match parse_edit_line(ls.as_str()) {
        None => {
            let mut m = chars_of(argv0);
            push_str(&mut m, ": unable to parse line \"");
            push_chars(&mut m, line.as_slice());
            push_str(&mut m, "\", aborting");
            assert(m@ =~= unparsable_msg(argv0@, line@));
            EditStep::Fatal(string_from_chars(m.as_slice()))
        },
        Some((n, name)) => match items.get(n) {
            None => {
                let mut m = chars_of(argv0);
                push_str(&mut m, ": unknown item number ");
                crate::text::push_decimal(&mut m, n as u64);
                assert(m@ =~= unknown_item_msg(argv0@, n as int));
                EditStep::Fatal(string_from_chars(m.as_slice()))
            },
            Some(src) => {
                let sc = chars_of(src.as_str());
                let nc = chars_of(name.as_str());
                if same_chars(sc.as_slice(), nc.as_slice()) {
                    EditStep::Keep(n)
                } else if nc.len() == 0 {
                    EditStep::Skip
                } else {
                    EditStep::Rename { number: n, src, name }
                }
            },
        },
    }
}

/// The name tried for the backup of `name` on attempt `count`: `name~`,
/// then `name~1`, `name~2`, ...
pub open spec fn backup_candidate_spec(name: Seq<char>, count: nat) -> Seq<char> {
    if count == 0 {
        name.push('~')
    } else {
        name.push('~') + decimal(count)
    }
}

pub fn backup_candidate(name: &str, count: usize) -> (r: String)
    ensures
        r@ == backup_candidate_spec(name@, count as nat),
{
    let mut c = chars_of(name);
    c.push('~');
    if count > 0 {
        crate::text::push_decimal(&mut c, count as u64);
    }
    string_from_chars(c.as_slice())
}

// ---------------------------------------------------------------------------
// The editor
// ---------------------------------------------------------------------------

/// The words of an editor setting (`split(' ')` without empty pieces).
pub fn split_editor(value: &str) -> (r: Vec<String>)
    ensures
        string_views(r@) == fields(value@, Sep::Space),
{
    let c = chars_of(value);
    let parts = split_fields(c.as_slice(), Sep::Space);
    let mut r: Vec<String> = Vec::new();
    let mut i: usize = 0;
    while i < parts.len()
        invariant
            i <= parts@.len(),
            string_views(r@) == views_of(parts@).take(i as int),
        decreases parts@.len() - i,
    {
        let ghost before = string_views(r@);
        let piece = string_from_chars(parts[i].as_slice());
        r.push(piece);
        assert(string_views(r@) =~= before.push(parts@[i as int]@));
        i += 1;
        assert(views_of(parts@).take(i as int) =~= views_of(parts@).take(i - 1).push(parts@[i - 1]@));
    }
    assert(views_of(parts@).take(parts@.len() as int) =~= views_of(parts@));
    r
}

/// A file with permission bits `mode` is executable by someone; no mode (no
/// metadata) means not.
pub fn is_executable(mode: Option<u32>) -> (r: bool)
    ensures
        r == match mode {
            Some(m) => m & 0o111u32 != 0,
            None => false,
        },
{
    match mode {
        Some(m) => m & 0o111 != 0,
        None => false,
    }
}

/// The editor command: `vi`, or `/usr/bin/editor` when it is an executable
/// file, overridden by `EDITOR`, then by `VISUAL` (split at spaces); one
/// empty word when that leaves nothing.
pub open spec fn editor_spec(system_editor: bool, editor: Option<Seq<char>>, visual: Option<Seq<char>>) -> Seq<Seq<char>> {
    let base = if system_editor { seq!["/usr/bin/editor"@] } else { seq!["vi"@] };
    let e = match editor {
        Some(v) => fields(v, Sep::Space),
        None => base,
    };
    let w = match visual {
        Some(v) => fields(v, Sep::Space),
        None => e,
    };
    if w.len() == 0 {
        seq![Seq::empty()]
    } else {
        w
    }
}

pub fn editor_command(system_editor: bool, editor: Option<&str>, visual: Option<&str>) -> (r: Vec<String>)
    ensures
        string_views(r@) == editor_spec(
            system_editor,
            match editor { Some(e) => Some(e@), None => None },
            match visual { Some(v) => Some(v@), None => None },
        ),
{
    let mut cmd: Vec<String> = Vec::new();
    if system_editor {
        cmd.push(String::from_str("/usr/bin/editor"));
    } else {
        cmd.push(String::from_str("vi"));
    }
    assert(string_views(cmd@) =~= (if system_editor { seq!["/usr/bin/editor"@] } else { seq!["vi"@] }));
    match editor {
        Some(e) => {
            cmd = split_editor(e);
        },
        None => {},
    }
    match visual {
        Some(v) => {
            cmd = split_editor(v);
        },
        None => {},
    }
    if cmd.len() == 0 {
        let empty: Vec<char> = Vec::new();
        cmd.push(string_from_chars(empty.as_slice()));
        assert(string_views(cmd@) =~= seq![Seq::<char>::empty()]);
    }
    cmd
}

// ---------------------------------------------------------------------------
// Carrying out a rename
// ---------------------------------------------------------------------------

/// Where the rename of one item to a new name stands: what was last asked of
/// the file system.
#[derive(Clone, Copy, Debug, PartialEq, Eq, Structural)]
pub enum RenameState {
    /// Nothing asked yet.
    Start,
    /// Whether the item's path exists was asked.
    AskedSource,
    /// Whether the new name is taken was asked.
    AskedName,
    /// Whether backup name `count` of the new name is taken was asked.
    AskedBackup(usize),
    /// Moving what holds the new name to backup name `count` was asked.
    MovedAside(usize),
    /// Whether the new name's directory exists was asked.
    AskedDir,
    /// Creating that directory tree was asked.
    MadeDir,
    /// Moving the item to the new name was asked.
    Moved,
    /// Whether the new name is now a directory was asked.
    AskedMovedDir,
    /// The line is done.
    Done,
}

/// What the file system answered.
#[derive(Debug)]
pub enum RenameEvent {
    /// The first step: nothing was asked yet.
    Begin,
    /// A path exists (or is a directory), or not.
    Exists(bool),
    /// An operation succeeded (None) or failed with this description.
    Outcome(Option<String>),
}

/// What to ask or do next.
#[derive(Debug)]
pub enum RenameAction {
    /// Ask whether `path` exists (a broken link counts).
    AskExists(String),
    /// Ask whether `path` is a directory.
    AskDir(String),
    /// Rename `from` to `to`.
    Rename { from: String, to: String },
    /// Create the directory tree `path`.
    MakeDirs(String),
    /// Nothing: the line is done.
    Nothing,
}

/// One step: the next state, what to do, what to write to standard output
/// and to standard error before it, and whether an error is to be reported
/// by the exit status.
pub struct RenameStep {
    pub state: RenameState,
    pub action: RenameAction,
    pub out: Option<String>,
    pub err: Option<String>,
    pub failed: bool,
}

pub open spec fn opt_view(o: Option<String>) -> Option<Seq<char>> {
    match o {
        Some(s) => Some(s@),
        None => None,
    }
}

/// An action as plain values: its kind (0 ask exists, 1 ask directory,
/// 2 rename, 3 make directories, 4 nothing) and its paths.
pub open spec fn action_view(a: RenameAction) -> (int, Seq<char>, Seq<char>) {
    match a {
        RenameAction::AskExists(p) => (0, p@, Seq::empty()),
        RenameAction::AskDir(p) => (1, p@, Seq::empty()),
        RenameAction::Rename { from, to } => (2, from@, to@),
        RenameAction::MakeDirs(p) => (3, p@, Seq::empty()),
        RenameAction::Nothing => (4, Seq::empty(), Seq::empty()),
    }
}

/// An event as plain values: its kind (0 begin, 1 exists, 2 outcome), the
/// answer, and the failure's description if any.
pub open spec fn event_view(e: RenameEvent) -> (int, bool, Option<Seq<char>>) {
    match e {
        RenameEvent::Begin => (0, false, None),
        RenameEvent::Exists(b) => (1, b, None),
        RenameEvent::Outcome(o) => (2, false, opt_view(o)),
    }
}

/// Every item whose path is `from` gets the path `to`.
pub open spec fn replaced(v: Map<usize, Seq<char>>, from: Seq<char>, to: Seq<char>) -> Map<usize, Seq<char>> {
    v.map_values(|p: Seq<char>| rep(p, from, to))
}

/// Every item moves as the directory `src` moved to `dst`.
pub open spec fn moved_items(v: Map<usize, Seq<char>>, src: Seq<char>, dst: Seq<char>) -> Map<usize, Seq<char>> {
    v.map_values(|p: Seq<char>| moved_path(p, src, dst))
}

pub open spec fn rename_failed_msg(argv0: Seq<char>, from: Seq<char>, to: Seq<char>, desc: Seq<char>) -> Seq<char> {
    argv0 + ": failed to rename "@ + from + " to "@ + to + ": "@ + desc
}

/// The step of renaming item `number`, now at `src`, to `name`, from `state`
/// and what the file system answered: the next state, the action, the lines
/// written to standard output and standard error, whether an error is
/// reported, and the items after the step (`v` before it).
pub open spec fn rename_step_spec(
    argv0: Seq<char>,
    verbose: bool,
    number: usize,
    src: Seq<char>,
    name: Seq<char>,
    state: RenameState,
    ev: (int, bool, Option<Seq<char>>),
    v: Map<usize, Seq<char>>,
) -> (RenameState, (int, Seq<char>, Seq<char>), Option<Seq<char>>, Option<Seq<char>>, bool, Map<usize, Seq<char>>) {
    let none = Seq::<char>::empty();
    let stop = (RenameState::Done, (4int, none, none), None::<Seq<char>>, None::<Seq<char>>, false, v);
    match state {
        RenameState::Start => (RenameState::AskedSource, (0int, src, none), None, None, false, v),
        RenameState::AskedSource => if ev.0 != 1 {
            stop
        } else if !ev.1 {
            (RenameState::Done, (4int, none, none), None, Some(argv0 + ": "@ + src + " does not exist"@), false,
                v.remove(number))
        } else {
            (RenameState::AskedName, (0int, name, none), None, None, false, v)
        },
        RenameState::AskedName => if ev.0 != 1 {
            stop
        } else if ev.1 {
            (RenameState::AskedBackup(0), (0int, backup_candidate_spec(name, 0), none), None, None, false, v)
        } else {
            (RenameState::AskedDir, (1int, dirname_spec(name), none), None, None, false, v)
        },
        RenameState::AskedBackup(c) => if ev.0 != 1 {
            stop
        } else if ev.1 {
            (RenameState::AskedBackup((c + 1) as usize), (0int, backup_candidate_spec(name, (c + 1) as nat), none), None,
                None, false, v)
        } else {
            (RenameState::MovedAside(c), (2int, name, backup_candidate_spec(name, c as nat)), None, None, false, v)
        },
        RenameState::MovedAside(c) => if ev.0 != 2 {
            stop
        } else {
            let tmp = backup_candidate_spec(name, c as nat);
            match ev.2 {
                Some(d) => (RenameState::AskedDir, (1int, dirname_spec(name), none), None,
                    Some(rename_failed_msg(argv0, name, tmp, d)), true, v),
                None => (RenameState::AskedDir, (1int, dirname_spec(name), none),
                    if verbose { Some("'"@ + name + "' -> '"@ + tmp + "'"@) } else { None }, None, false,
                    replaced(v, name, tmp)),
            }
        },
        RenameState::AskedDir => if ev.0 != 1 {
            stop
        } else if ev.1 {
            (RenameState::Moved, (2int, src, name), None, None, false, v)
        } else {
            (RenameState::MadeDir, (3int, dirname_spec(name), none), None, None, false, v)
        },
        RenameState::MadeDir => if ev.0 != 2 {
            stop
        } else {
            match ev.2 {
                Some(d) => (RenameState::Done, (4int, none, none), None,
                    Some(argv0 + ": failed to create directory tree "@ + dirname_spec(name) + ": "@ + d), true,
                    v.remove(number)),
                None => (RenameState::Moved, (2int, src, name), None, None, false, v),
            }
        },
        RenameState::Moved => if ev.0 != 2 {
            stop
        } else {
            match ev.2 {
                Some(d) => (RenameState::Done, (4int, none, none), None, Some(rename_failed_msg(argv0, src, name, d)),
                    true, v.remove(number)),
                None => (RenameState::AskedMovedDir, (1int, name, none), None, None, false, v),
            }
        },
        RenameState::AskedMovedDir => if ev.0 != 1 {
            stop
        } else {
            (RenameState::Done, (4int, none, none),
                if verbose { Some("'"@ + src + "' => '"@ + name + "'"@) } else { None }, None, false,
                (if ev.1 { moved_items(v, src, name) } else { v }).remove(number))
        },
        RenameState::Done => stop,
    }
}

fn msg(parts: &[&str]) -> (r: String)
    ensures
        r@ == concat_views(parts@),
{
    let mut out: Vec<char> = Vec::new();
    let mut i: usize = 0;
    while i < parts.len()
        invariant
            i <= parts@.len(),
            out@ == concat_views(parts@.take(i as int)),
        decreases parts@.len() - i,
    {
        push_str(&mut out, parts[i]);
        i += 1;
        assert(parts@.take(i as int).drop_last() =~= parts@.take(i - 1));
    }
    assert(parts@.take(parts@.len() as int) =~= parts@);
    string_from_chars(out.as_slice())
}

/// The texts of `parts`, one after the other.
pub open spec fn concat_views(parts: Seq<&str>) -> Seq<char>
    decreases parts.len(),
{
    if parts.len() == 0 {
        Seq::empty()
    } else {
        concat_views(parts.drop_last()) + parts.last()@
    }
}

/// Carries one step of renaming item `number`, now at `src`, to `name`.
#[verifier::rlimit(60)]
pub fn rename_step(
    argv0: &str,
    verbose: bool,
    number: usize,
    src: &str,
    name: &str,
    state: RenameState,
    event: RenameEvent,
    items: &mut Items,
) -> (r: RenameStep)
    requires
        state matches RenameState::AskedBackup(c) ==> c < usize::MAX,
    ensures
        ({
            let (st, act, out, err, failed, v) = rename_step_spec(argv0@, verbose, number, src@, name@, state,
                event_view(event), old(items).view());
            &&& r.state == st
            &&& action_view(r.action) == act
            &&& opt_view(r.out) == out
            &&& opt_view(r.err) == err
            &&& r.failed == failed
            &&& final(items).view() == v
        }),
{
    let none = RenameStep { state: RenameState::Done, action: RenameAction::Nothing, out: None, err: None, failed: false };
    let ghost v0 = items.view();
    match state {
        RenameState::Start => RenameStep {
            state: RenameState::AskedSource,
            action: RenameAction::AskExists(String::from_str(src)),
            out: None,
            err: None,
            failed: false,
        },
        RenameState::AskedSource => match event {
            RenameEvent::Exists(false) => {
                items.remove(number);
                let m = msg(&[argv0, ": ", src, " does not exist"]);
                proof {
                    reveal_with_fuel(concat_views, 5);
                }
                RenameStep { state: RenameState::Done, action: RenameAction::Nothing, out: None, err: Some(m), failed: false }
            },
            RenameEvent::Exists(true) => RenameStep {
                state: RenameState::AskedName,
                action: RenameAction::AskExists(String::from_str(name)),
                out: None,
                err: None,
                failed: false,
            },
            _ => none,
        },
        RenameState::AskedName => match event {
            RenameEvent::Exists(true) => RenameStep {
                state: RenameState::AskedBackup(0),
                action: RenameAction::AskExists(backup_candidate(name, 0)),
                out: None,
                err: None,
                failed: false,
            },
            RenameEvent::Exists(false) => RenameStep {
                state: RenameState::AskedDir,
                action: RenameAction::AskDir(dirname(name)),
                out: None,
                err: None,
                failed: false,
            },
            _ => none,
        },
        RenameState::AskedBackup(c) => match event {
            RenameEvent::Exists(true) => RenameStep {
                state: RenameState::AskedBackup(c + 1),
                action: RenameAction::AskExists(backup_candidate(name, c + 1)),
                out: None,
                err: None,
                failed: false,
            },
            RenameEvent::Exists(false) => RenameStep {
                state: RenameState::MovedAside(c),
                action: RenameAction::Rename { from: String::from_str(name), to: backup_candidate(name, c) },
                out: None,
                err: None,
                failed: false,
            },
            _ => none,
        },
        RenameState::MovedAside(c) => match event {
            RenameEvent::Outcome(o) => {
                let tmp = backup_candidate(name, c);
                match o {
                    Some(d) => {
                        let m = msg(&[argv0, ": failed to rename ", name, " to ", tmp.as_str(), ": ", d.as_str()]);
                        proof {
                            reveal_with_fuel(concat_views, 8);
                        }
                        RenameStep { state: RenameState::AskedDir, action: RenameAction::AskDir(dirname(name)), out: None,
                            err: Some(m), failed: true }
                    },
                    None => {
                        items.replace_value(name, tmp.as_str());
                        proof {
                            assert(items.view() =~= replaced(v0, name@, tmp@));
                        }
                        let out = if verbose {
                            let m = msg(&["'", name, "' -> '", tmp.as_str(), "'"]);
                            proof {
                                reveal_with_fuel(concat_views, 6);
                            }
                            Some(m)
                        } else {
                            None
                        };
                        RenameStep { state: RenameState::AskedDir, action: RenameAction::AskDir(dirname(name)), out,
                            err: None, failed: false }
                    },
                }
            },
            _ => none,
        },
        RenameState::AskedDir => match event {
            RenameEvent::Exists(true) => RenameStep {
                state: RenameState::Moved,
                action: RenameAction::Rename { from: String::from_str(src), to: String::from_str(name) },
                out: None,
                err: None,
                failed: false,
            },
            RenameEvent::Exists(false) => RenameStep {
                state: RenameState::MadeDir,
                action: RenameAction::MakeDirs(dirname(name)),
                out: None,
                err: None,
                failed: false,
            },
            _ => none,
        },
        RenameState::MadeDir => match event {
            RenameEvent::Outcome(Some(d)) => {
                items.remove(number);
                let dir = dirname(name);
                let m = msg(&[argv0, ": failed to create directory tree ", dir.as_str(), ": ", d.as_str()]);
                proof {
                    reveal_with_fuel(concat_views, 6);
                }
                RenameStep { state: RenameState::Done, action: RenameAction::Nothing, out: None, err: Some(m), failed: true }
            },
            RenameEvent::Outcome(None) => RenameStep {
                state: RenameState::Moved,
                action: RenameAction::Rename { from: String::from_str(src), to: String::from_str(name) },
                out: None,
                err: None,
                failed: false,
            },
            _ => none,
        },
        RenameState::Moved => match event {
            RenameEvent::Outcome(Some(d)) => {
                items.remove(number);
                let m = msg(&[argv0, ": failed to rename ", src, " to ", name, ": ", d.as_str()]);
                proof {
                    reveal_with_fuel(concat_views, 8);
                }
                RenameStep { state: RenameState::Done, action: RenameAction::Nothing, out: None, err: Some(m), failed: true }
            },
            RenameEvent::Outcome(None) => RenameStep {
                state: RenameState::AskedMovedDir,
                action: RenameAction::AskDir(String::from_str(name)),
                out: None,
                err: None,
                failed: false,
            },
            _ => none,
        },
        RenameState::AskedMovedDir => match event {
            RenameEvent::Exists(is_dir) => {
                if is_dir {
                    items.update_directory_children(src, name);
                    proof {
                        assert(items.view() =~= moved_items(v0, src@, name@));
                    }
                }
                items.remove(number);
                let out = if verbose {
                    let m = msg(&["'", src, "' => '", name, "'"]);
                    proof {
                        reveal_with_fuel(concat_views, 6);
                    }
                    Some(m)
                } else {
                    None
                };
                RenameStep { state: RenameState::Done, action: RenameAction::Nothing, out, err: None, failed: false }
            },
            _ => none,
        },
        RenameState::Done => none,
    }
}

/// A line of the listing that was not edited reads back as its own item:
/// its number and its path.
pub proof fn lemma_listing_line_reads_back(n: usize, p: Seq<char>)
    ensures
        edit_line_spec(pad4(n as nat) + seq!['\t'] + p) == Some((n as int, p)),
{
    let d = decimal(n as nat);
    crate::text::lemma_decimal_digits(n as nat);
    let z: nat = if d.len() < 4 { (4 - d.len()) as nat } else { 0 };
    let digits = Seq::new(z, |i: int| '0') + d;
    assert(pad4(n as nat) =~= digits);
    crate::text::lemma_leading_zeros(z, d);
    assert(all_digits(digits)) by {
        assert forall|j: int| 0 <= j < digits.len() implies is_digit(#[trigger] digits[j]) by {
            if j >= z {
                assert(digits[j] == d[j - z]);
            }
        }
    }
    let line = digits + (seq!['\t'] + p);
    assert(pad4(n as nat) + seq!['\t'] + p =~= line);
    crate::text::lemma_digit_prefix_concat(digits, seq!['\t'] + p);
    assert(line.take(digits.len() as int) =~= digits);
    assert(line.skip(digits.len() as int) =~= seq!['\t'] + p);
    assert((seq!['\t'] + p).drop_first() =~= p);
}

/// Trimming whitespace leaves a line that starts with something other than
/// whitespace non-empty.
proof fn lemma_trim_nonempty(s: Seq<char>)
    requires
        s.len() > 0,
        !is_unicode_whitespace(s[0]),
    ensures
        trim_ws(s).len() > 0,
{
    assert(leading_seps(s, Sep::Whitespace) == 0);
    assert(s.skip(0) =~= s);
    lemma_trailing_below(s);
}

proof fn lemma_trailing_below(s: Seq<char>)
    requires
        s.len() > 0,
        !is_unicode_whitespace(s[0]),
    ensures
        trailing_ws(s) < s.len(),
    decreases s.len(),
{
    if s.len() > 1 && is_unicode_whitespace(s.last()) {
        assert(s.drop_last()[0] == s[0]);
        lemma_trailing_below(s.drop_last());
    }
}

/// A line of the listing left as it was keeps its item: the item is done
/// and nothing is renamed (for a path that does not end in a carriage
/// return, which reading the line drops).
pub proof fn lemma_unedited_line_kept(
    argv0: Seq<char>,
    items: Map<usize, Seq<char>>,
    n: usize,
    r: EditStep,
)
    requires
        items.contains_key(n),
        !(items[n].len() > 0 && items[n].last() == '\r'),
        edit_step_spec(argv0, strip_cr(pad4(n as nat) + seq!['\t'] + items[n]), items, r),
    ensures
        r == EditStep::Keep(n),
{
    let p = items[n];
    let line = pad4(n as nat) + seq!['\t'] + p;
    assert(strip_cr(line) == line);
    lemma_listing_line_reads_back(n, p);
    assert(edit_line_spec(line) == Some((n as int, p)));
    assert(digit_prefix(line) > 0);
    assert(is_digit(line[0]));
    lemma_trim_nonempty(line);
}

/// The kind of answer a state waits for: the first step takes `Begin` (0);
/// a state that asked whether a path exists or is a directory takes
/// `Exists` (1); one that asked for a rename or for directories takes
/// `Outcome` (2).
pub open spec fn awaited_kind(state: RenameState) -> int {
    match state {
        RenameState::Start => 0,
        RenameState::MovedAside(_) | RenameState::MadeDir | RenameState::Moved => 2,
        _ => 1,
    }
}

/// The steps of renaming item `number` from `src` to `name`, from `state` on,
/// answered in turn by `evs` (`v` the items before them): the state they end
/// in, whether every answer was of the kind its state waited for (until the
/// line was done), whether an error was written, and whether the rename of
/// `src` to `name` was asked.
pub open spec fn rename_run(
    argv0: Seq<char>,
    verbose: bool,
    number: usize,
    src: Seq<char>,
    name: Seq<char>,
    state: RenameState,
    evs: Seq<(int, bool, Option<Seq<char>>)>,
    v: Map<usize, Seq<char>>,
) -> (RenameState, bool, bool, bool)
    decreases evs.len(),
{
    if evs.len() == 0 {
        (state, true, false, false)
    } else {
        let (st, act, out, err, failed, w) = rename_step_spec(argv0, verbose, number, src, name, state, evs[0], v);
        let rest = rename_run(argv0, verbose, number, src, name, st, evs.drop_first(), w);
        (
            rest.0,
            (state == RenameState::Done || evs[0].0 == awaited_kind(state)) && rest.1,
            err is Some || rest.2,
            act == (2int, src, name) || rest.3,
        )
    }
}

proof fn lemma_rename_run_from(
    argv0: Seq<char>,
    verbose: bool,
    number: usize,
    src: Seq<char>,
    name: Seq<char>,
    state: RenameState,
    evs: Seq<(int, bool, Option<Seq<char>>)>,
    v: Map<usize, Seq<char>>,
)
    requires
        state != RenameState::Done,
        rename_run(argv0, verbose, number, src, name, state, evs, v).0 == RenameState::Done,
        rename_run(argv0, verbose, number, src, name, state, evs, v).1,
        !rename_run(argv0, verbose, number, src, name, state, evs, v).2,
    ensures
        rename_run(argv0, verbose, number, src, name, state, evs, v).3 || state == RenameState::Moved || state
            == RenameState::AskedMovedDir,
    decreases evs.len(),
{
    if evs.len() > 0 {
        let (st, act, out, err, failed, w) = rename_step_spec(argv0, verbose, number, src, name, state, evs[0], v);
        if st != RenameState::Done {
            lemma_rename_run_from(argv0, verbose, number, src, name, st, evs.drop_first(), w);
        }
    }
}

/// A line's rename is carried out whenever it ends well: if the steps of
/// renaming an item from `src` to `name`, each answered as its state asked,
/// end with the line done and no error written, then one of the actions was
/// the rename of `src` to `name` (whatever had to be moved aside or created
/// first).
pub proof fn lemma_done_without_error_renamed(
    argv0: Seq<char>,
    verbose: bool,
    number: usize,
    src: Seq<char>,
    name: Seq<char>,
    evs: Seq<(int, bool, Option<Seq<char>>)>,
    v: Map<usize, Seq<char>>,
)
    requires
        rename_run(argv0, verbose, number, src, name, RenameState::Start, evs, v).0 == RenameState::Done,
        rename_run(argv0, verbose, number, src, name, RenameState::Start, evs, v).1,
        !rename_run(argv0, verbose, number, src, name, RenameState::Start, evs, v).2,
    ensures
        rename_run(argv0, verbose, number, src, name, RenameState::Start, evs, v).3,
{
    lemma_rename_run_from(argv0, verbose, number, src, name, RenameState::Start, evs, v);
}

} // verus!
