//! Text primitives shared by the tools: UTF-8 decoding, decimal numbers and
//! the integer syntax accepted by `str::parse`.
use vstd::prelude::*;
use vstd::utf8::*;

verus! {

broadcast use vstd::seq::group_seq_axioms;

// ---------------------------------------------------------------------------
// UTF-8
// ---------------------------------------------------------------------------

/// Number of bytes at the start of `bytes` that form valid UTF-8, found by
/// decoding one scalar after another until one is malformed.
pub open spec fn utf8_valid_prefix_len(bytes: Seq<u8>) -> nat
    decreases bytes.len(),
{
    if bytes.len() == 0 {
        0
    } else if valid_first_scalar(bytes) {
        if pop_first_scalar(bytes).len() < bytes.len() {
            (length_of_first_scalar(bytes) + utf8_valid_prefix_len(pop_first_scalar(bytes))) as nat
        } else {
            0
        }
    } else {
        0
    }
}

proof fn lemma_first_scalar_len(bytes: Seq<u8>)
    requires
        valid_first_scalar(bytes),
    ensures
        1 <= length_of_first_scalar(bytes) <= 4,
        length_of_first_scalar(bytes) <= bytes.len(),
        pop_first_scalar(bytes).len() == bytes.len() - length_of_first_scalar(bytes),
        pop_first_scalar(bytes).len() < bytes.len(),
{
}

/// Decoding gives at most one character per byte.
pub proof fn lemma_decode_len(bytes: Seq<u8>)
    requires
        valid_utf8(bytes),
    ensures
        decode_utf8(bytes).len() <= bytes.len(),
    decreases bytes.len(),
{
    if bytes.len() > 0 {
        lemma_first_scalar_len(bytes);
        lemma_decode_len(pop_first_scalar(bytes));
    }
}

/// A valid encoding is its own longest valid prefix.
pub proof fn lemma_valid_prefix_len_of_valid(bytes: Seq<u8>)
    requires
        valid_utf8(bytes),
    ensures
        utf8_valid_prefix_len(bytes) == bytes.len(),
    decreases bytes.len(),
{
    if bytes.len() > 0 {
        lemma_first_scalar_len(bytes);
        lemma_valid_prefix_len_of_valid(pop_first_scalar(bytes));
    }
}

/// Decoding distributes over concatenation of valid encodings.
pub proof fn lemma_decode_concat(b1: Seq<u8>, b2: Seq<u8>)
    requires
        valid_utf8(b1),
        valid_utf8(b2),
    ensures
        valid_utf8(b1 + b2),
        decode_utf8(b1 + b2) == decode_utf8(b1) + decode_utf8(b2),
    decreases b1.len(),
{
    vstd::utf8::valid_utf8_concat(b1, b2);
    if b1.len() == 0 {
        assert(b1 + b2 =~= b2);
    } else {
        lemma_first_scalar_len(b1);
        let rest = pop_first_scalar(b1);
        lemma_decode_concat(rest, b2);
        assert(pop_first_scalar(b1 + b2) =~= rest + b2);
        assert(decode_utf8(b1 + b2) =~= decode_utf8(b1) + decode_utf8(b2));
    }
}

proof fn lemma_valid_prefix_step(bytes: Seq<u8>, i: int)
    requires
        0 <= i < bytes.len(),
        valid_first_scalar(bytes.subrange(i, bytes.len() as int)),
    ensures
        ({
            let rest = bytes.subrange(i, bytes.len() as int);
            let k = length_of_first_scalar(rest);
            &&& 1 <= k <= 4
            &&& i + k <= bytes.len()
            &&& pop_first_scalar(rest) =~= bytes.subrange(i + k, bytes.len() as int)
            &&& utf8_valid_prefix_len(rest) == k + utf8_valid_prefix_len(
                bytes.subrange(i + k, bytes.len() as int),
            )
            &&& valid_utf8(bytes.subrange(i, i + k))
            &&& decode_utf8(bytes.subrange(i, i + k)) == seq![decode_first_scalar(rest) as char]
        }),
{
    let rest = bytes.subrange(i, bytes.len() as int);
    lemma_first_scalar_len(rest);
    let k = length_of_first_scalar(rest);
    let one = bytes.subrange(i, i + k);
    assert(one =~= rest.subrange(0, k));
    assert(valid_first_scalar(one)) by {
        assert(one[0] == rest[0]);
        if k >= 2 {
            assert(one[1] == rest[1]);
        }
        if k >= 3 {
            assert(one[2] == rest[2]);
        }
        if k >= 4 {
            assert(one[3] == rest[3]);
        }
    }
    assert(length_of_first_scalar(one) == k);
    lemma_first_scalar_len(one);
    assert(pop_first_scalar(one).len() == 0);
    assert(pop_first_scalar(one) =~= Seq::<u8>::empty());
    assert(valid_utf8(pop_first_scalar(one)));
    assert(valid_utf8(one));
    assert(decode_utf8(pop_first_scalar(one)) =~= Seq::<char>::empty());
    assert(decode_first_scalar(one) == decode_first_scalar(rest));
    assert(decode_utf8(one) =~= seq![decode_first_scalar(rest) as char]);
    assert(pop_first_scalar(rest) =~= bytes.subrange(i + k, bytes.len() as int));
}

/// The decoded value and width of the scalar that starts at `bytes[i]`, if a
/// well-formed one does.
fn scalar_at(bytes: &[u8], i: usize) -> (res: Option<(u32, usize)>)
    requires
        i < bytes@.len(),
    ensures
        ({
            let rest = bytes@.subrange(i as int, bytes@.len() as int);
            match res {
                Some((v, k)) => valid_first_scalar(rest) && v == decode_first_scalar(rest) && k
                    == length_of_first_scalar(rest),
                None => !valid_first_scalar(rest),
            }
        }),
        res matches Some((v, k)) ==> is_scalar(v),
{
    let ghost rest = bytes@.subrange(i as int, bytes@.len() as int);
    let n = bytes.len();
    let b0 = bytes[i];
    assert(rest[0] == b0);
    if b0 <= 0x7f {
        assert(((b0 & 0x7F) as u32) <= 0x7f) by (bit_vector);
        return Some(((b0 & 0x7F) as u32, 1));
    }
    if b0 < 0xc0 || b0 > 0xf7 {
        return None;
    }
    if i + 1 >= n {
        return None;
    }
    let b1 = bytes[i + 1];
    assert(rest[1] == b1);
    if b1 < 0x80 || b1 > 0xbf {
        return None;
    }
    if b0 <= 0xdf {
        let v: u32 = ((b0 & 0x1F) as u32) << 6 | ((b1 & 0x3F) as u32);
        assert(v <= 0x7ff) by (bit_vector)
            requires
                v == ((b0 & 0x1F) as u32) << 6 | ((b1 & 0x3F) as u32),
        ;
        if v < 0x80 {
            return None;
        }
        return Some((v, 2));
    }
    if i + 2 >= n {
        return None;
    }
    let b2 = bytes[i + 2];
    assert(rest[2] == b2);
    if b2 < 0x80 || b2 > 0xbf {
        return None;
    }
    if b0 <= 0xef {
        let v: u32 = ((b0 & 0x0F) as u32) << 12 | ((b1 & 0x3F) as u32) << 6 | ((b2
            & 0x3F) as u32);
        assert(v <= 0xffff) by (bit_vector)
            requires
                v == ((b0 & 0x0F) as u32) << 12 | ((b1 & 0x3F) as u32) << 6 | ((b2 & 0x3F) as u32),
        ;
        if v < 0x800 || (0xD800 <= v && v <= 0xDFFF) {
            return None;
        }
        return Some((v, 3));
    }
    if i + 3 >= n {
        return None;
    }
    let b3 = bytes[i + 3];
    assert(rest[3] == b3);
    if b3 < 0x80 || b3 > 0xbf {
        return None;
    }
    let v: u32 = ((b0 & 0x07) as u32) << 18 | ((b1 & 0x3F) as u32) << 12 | ((b2 & 0x3F) as u32)
        << 6 | ((b3 & 0x3F) as u32);
    assert(v <= 0x1fffff) by (bit_vector)
        requires
            v == ((b0 & 0x07) as u32) << 18 | ((b1 & 0x3F) as u32) << 12 | ((b2 & 0x3F) as u32)
                << 6 | ((b3 & 0x3F) as u32),
    ;
    if v < 0x10000 || v > 0x10ffff {
        return None;
    }
    Some((v, 4))
}

/// std: `char::from_u32`, the character whose scalar value is `v` (never
/// None for a scalar value, so `unwrap` does not panic).
#[verifier::external_body]
fn char_of_scalar(v: u32) -> (c: char)
    requires
        is_scalar(v),
    ensures
        c == v as char,
{
    char::from_u32(v).unwrap()
}

/// Decodes the longest valid UTF-8 prefix of `bytes`. Returns its characters and
/// its length in bytes; the length equals `bytes.len()` exactly when the whole
/// input is valid UTF-8.
pub fn decode_utf8_prefix(bytes: &[u8]) -> (res: (Vec<char>, usize))
    ensures
        res.1 == utf8_valid_prefix_len(bytes@),
        res.1 <= bytes@.len(),
        valid_utf8(bytes@.subrange(0, res.1 as int)),
        res.0@ == decode_utf8(bytes@.subrange(0, res.1 as int)),
{
    let n = bytes.len();
    let mut chars: Vec<char> = Vec::new();
    let mut i: usize = 0;
    assert(bytes@.subrange(0, 0) =~= Seq::<u8>::empty());
    assert(bytes@.subrange(0, n as int) =~= bytes@);
    while i < n
        invariant
            i <= n == bytes@.len(),
            valid_utf8(bytes@.subrange(0, i as int)),
            chars@ == decode_utf8(bytes@.subrange(0, i as int)),
            utf8_valid_prefix_len(bytes@) == i + utf8_valid_prefix_len(
                bytes@.subrange(i as int, n as int),
            ),
        decreases n - i,
    {
        match scalar_at(bytes, i) {
            None => {
                assert(utf8_valid_prefix_len(bytes@.subrange(i as int, n as int)) == 0);
                return (chars, i);
            },
            Some((v, k)) => {
                proof {
                    lemma_valid_prefix_step(bytes@, i as int);
                    let ghost rest = bytes@.subrange(i as int, n as int);
                    lemma_decode_concat(
                        bytes@.subrange(0, i as int),
                        bytes@.subrange(i as int, i + k),
                    );
                    assert(bytes@.subrange(0, i as int) + bytes@.subrange(i as int, i + k)
                        =~= bytes@.subrange(0, i + k));
                }
                let c = char_of_scalar(v);
                chars.push(c);
                i = i + k;
            },
        }
    }
    assert(utf8_valid_prefix_len(bytes@.subrange(n as int, n as int)) == 0);
    (chars, i)
}


/// The characters of `s`.
pub fn chars_of(s: &str) -> (v: Vec<char>)
    ensures
        v@ == s@,
{
    let b = s.as_bytes();
    proof {
        vstd::utf8::encode_utf8_valid_utf8(s@);
        vstd::utf8::encode_utf8_decode_utf8(s@);
        lemma_valid_prefix_len_of_valid(b@);
    }
    let (v, n) = decode_utf8_prefix(b);
    assert(b@.subrange(0, n as int) =~= b@);
    v
}

/// std: `String`'s `FromIterator<&char>` (`collect`), the string made of the
/// characters `v` in order.
#[verifier::external_body]
pub fn string_from_chars(v: &[char]) -> (s: String)
    ensures
        s@ == v@,
{
    v.iter().collect()
}

// ---------------------------------------------------------------------------
// Characters
// ---------------------------------------------------------------------------

pub open spec fn is_digit(c: char) -> bool {
    '0' <= c <= '9'
}

pub open spec fn digit_value(c: char) -> int {
    c as int - '0' as int
}

pub open spec fn digit_char(d: int) -> char {
    (d + 48) as char
}

pub open spec fn is_ascii_upper(c: char) -> bool {
    'A' <= c <= 'Z'
}

pub open spec fn is_ascii_lower(c: char) -> bool {
    'a' <= c <= 'z'
}

pub open spec fn ascii_lower(c: char) -> char {
    if is_ascii_upper(c) {
        (c as int + 32) as char
    } else {
        c
    }
}

pub open spec fn ascii_upper(c: char) -> char {
    if is_ascii_lower(c) {
        (c as int - 32) as char
    } else {
        c
    }
}

pub open spec fn lower_seq(s: Seq<char>) -> Seq<char> {
    Seq::new(s.len(), |i: int| ascii_lower(s[i]))
}

pub open spec fn upper_seq(s: Seq<char>) -> Seq<char> {
    Seq::new(s.len(), |i: int| ascii_upper(s[i]))
}

pub fn to_ascii_lower(c: char) -> (r: char)
    ensures
        r == ascii_lower(c),
{
    if 'A' <= c && c <= 'Z' {
        ((c as u8) + 32) as char
    } else {
        c
    }
}

pub fn to_ascii_upper(c: char) -> (r: char)
    ensures
        r == ascii_upper(c),
{
    if 'a' <= c && c <= 'z' {
        ((c as u8) - 32) as char
    } else {
        c
    }
}

/// `s` with every ASCII capital letter made small.
pub fn lower_chars(s: &[char]) -> (r: Vec<char>)
    ensures
        r@ == lower_seq(s@),
{
    let mut r: Vec<char> = Vec::new();
    let mut i: usize = 0;
    while i < s.len()
        invariant
            i <= s@.len(),
            r@ =~= lower_seq(s@.take(i as int)),
        decreases s@.len() - i,
    {
        r.push(to_ascii_lower(s[i]));
        i += 1;
    }
    assert(s@.take(s@.len() as int) =~= s@);
    r
}

/// `s` with every ASCII small letter made capital.
pub fn upper_chars(s: &[char]) -> (r: Vec<char>)
    ensures
        r@ == upper_seq(s@),
{
    let mut r: Vec<char> = Vec::new();
    let mut i: usize = 0;
    while i < s.len()
        invariant
            i <= s@.len(),
            r@ =~= upper_seq(s@.take(i as int)),
        decreases s@.len() - i,
    {
        r.push(to_ascii_upper(s[i]));
        i += 1;
    }
    assert(s@.take(s@.len() as int) =~= s@);
    r
}

/// Whether `a` and `b` are equal when ASCII letters are compared without case.
pub fn eq_ignore_ascii_case(a: &[char], b: &[char]) -> (r: bool)
    ensures
        r == (lower_seq(a@) == lower_seq(b@)),
{
    if a.len() != b.len() {
        proof {
            if lower_seq(a@) == lower_seq(b@) {
                assert(lower_seq(a@).len() == a@.len());
            }
        }
        return false;
    }
    let mut i: usize = 0;
    while i < a.len()
        invariant
            i <= a@.len() == b@.len(),
            forall|j: int| 0 <= j < i ==> ascii_lower(a@[j]) == ascii_lower(b@[j]),
        decreases a@.len() - i,
    {
        if to_ascii_lower(a[i]) != to_ascii_lower(b[i]) {
            proof {
                assert(lower_seq(a@)[i as int] != lower_seq(b@)[i as int]);
            }
            return false;
        }
        i += 1;
    }
    assert(lower_seq(a@) =~= lower_seq(b@));
    true
}

// ---------------------------------------------------------------------------
// Sequences
// ---------------------------------------------------------------------------

pub open spec fn starts_with<T>(s: Seq<T>, prefix: Seq<T>) -> bool {
    prefix.len() <= s.len() && s.take(prefix.len() as int) == prefix
}

pub open spec fn ends_with<T>(s: Seq<T>, suffix: Seq<T>) -> bool {
    suffix.len() <= s.len() && s.skip(s.len() - suffix.len()) == suffix
}

/// `needle` occurs in `hay` starting at index `i`.
pub open spec fn occurs_at<T>(hay: Seq<T>, needle: Seq<T>, i: int) -> bool {
    0 <= i && i + needle.len() <= hay.len() && hay.subrange(i, i + needle.len()) == needle
}

pub open spec fn contains_seq<T>(hay: Seq<T>, needle: Seq<T>) -> bool {
    exists|i: int| occurs_at(hay, needle, i)
}

pub fn has_prefix(s: &[char], prefix: &[char]) -> (r: bool)
    ensures
        r == starts_with(s@, prefix@),
{
    if prefix.len() > s.len() {
        return false;
    }
    let mut i: usize = 0;
    while i < prefix.len()
        invariant
            i <= prefix@.len() <= s@.len(),
            forall|j: int| 0 <= j < i ==> s@[j] == prefix@[j],
        decreases prefix@.len() - i,
    {
        if s[i] != prefix[i] {
            assert(s@.take(prefix@.len() as int)[i as int] != prefix@[i as int]);
            return false;
        }
        i += 1;
    }
    assert(s@.take(prefix@.len() as int) =~= prefix@);
    true
}

pub fn has_suffix(s: &[char], suffix: &[char]) -> (r: bool)
    ensures
        r == ends_with(s@, suffix@),
{
    if suffix.len() > s.len() {
        return false;
    }
    let off = s.len() - suffix.len();
    let mut i: usize = 0;
    while i < suffix.len()
        invariant
            off == s@.len() - suffix@.len(),
            off + suffix@.len() == s@.len(),
            s@.len() == s.len(),
            i <= suffix@.len() <= s@.len(),
            forall|j: int| 0 <= j < i ==> s@[off + j] == suffix@[j],
        decreases suffix@.len() - i,
    {
        if s[off + i] != suffix[i] {
            assert(s@.skip(off as int)[i as int] != suffix@[i as int]);
            return false;
        }
        i += 1;
    }
    assert(s@.skip(off as int) =~= suffix@);
    true
}

/// Whether `needle` occurs at index `i` of `hay`.
pub fn matches_at(hay: &[char], needle: &[char], i: usize) -> (r: bool)
    ensures
        r == occurs_at(hay@, needle@, i as int),
{
    if i > hay.len() || needle.len() > hay.len() - i {
        return false;
    }
    let mut j: usize = 0;
    while j < needle.len()
        invariant
            i + needle@.len() <= hay@.len(),
            hay@.len() == hay.len(),
            j <= needle@.len(),
            forall|t: int| 0 <= t < j ==> hay@[i + t] == needle@[t],
        decreases needle@.len() - j,
    {
        if hay[i + j] != needle[j] {
            assert(hay@.subrange(i as int, i + needle@.len())[j as int] != needle@[j as int]);
            return false;
        }
        j += 1;
    }
    assert(hay@.subrange(i as int, i + needle@.len()) =~= needle@);
    true
}

/// The first index at which `needle` occurs in `hay`, if any.
pub fn find_seq(hay: &[char], needle: &[char]) -> (r: Option<usize>)
    ensures
        match r {
            Some(i) => occurs_at(hay@, needle@, i as int) && forall|j: int|
                0 <= j < i ==> !occurs_at(hay@, needle@, j),
            None => !contains_seq(hay@, needle@),
        },
{
    let mut i: usize = 0;
    while i < hay.len()
        invariant
            i <= hay@.len(),
            forall|j: int| 0 <= j < i ==> !occurs_at(hay@, needle@, j),
        decreases hay@.len() - i,
    {
        if matches_at(hay, needle, i) {
            return Some(i);
        }
        i += 1;
    }
    if matches_at(hay, needle, i) {
        return Some(i);
    }
    assert forall|j: int| !occurs_at(hay@, needle@, j) by {
        if 0 <= j && j + needle@.len() <= hay@.len() {
            assert(j <= hay@.len());
        }
    }
    None
}

/// Whether `needle` occurs anywhere in `hay`.
pub fn contains(hay: &[char], needle: &[char]) -> (r: bool)
    ensures
        r == contains_seq(hay@, needle@),
{
    find_seq(hay, needle).is_some()
}

/// The index of the first occurrence of `x` in `s`, if any.
pub fn index_of(s: &[char], x: char) -> (r: Option<usize>)
    ensures
        match r {
            Some(i) => i < s@.len() && s@[i as int] == x && forall|j: int|
                0 <= j < i ==> s@[j] != x,
            None => !s@.contains(x),
        },
{
    let mut i: usize = 0;
    while i < s.len()
        invariant
            i <= s@.len(),
            forall|j: int| 0 <= j < i ==> s@[j] != x,
        decreases s@.len() - i,
    {
        if s[i] == x {
            return Some(i);
        }
        i += 1;
    }
    None
}

/// Whether `a` and `b` hold the same characters.
pub fn same_chars(a: &[char], b: &[char]) -> (r: bool)
    ensures
        r == (a@ == b@),
{
    if a.len() != b.len() {
        return false;
    }
    let r = has_prefix(a, b);
    proof {
        assert(a@.take(b@.len() as int) =~= a@);
    }
    r
}

/// The part of `s` before the first `c` (all of `s` when there is none).
pub open spec fn before_first(s: Seq<char>, c: char) -> Seq<char>
    decreases s.len(),
{
    if s.len() == 0 {
        s
    } else if s[0] == c {
        Seq::empty()
    } else {
        seq![s[0]] + before_first(s.drop_first(), c)
    }
}

pub proof fn lemma_before_first(s: Seq<char>, c: char, i: int)
    requires
        0 <= i <= s.len(),
        i < s.len() ==> s[i] == c,
        forall|j: int| 0 <= j < i ==> s[j] != c,
    ensures
        before_first(s, c) == s.take(i),
    decreases i,
{
    if i == 0 {
        if s.len() > 0 {
            assert(before_first(s, c) =~= s.take(0));
        } else {
            assert(s.take(0) =~= s);
        }
    } else {
        assert forall|j: int| 0 <= j < i - 1 implies s.drop_first()[j] != c by {
            assert(s.drop_first()[j] == s[j + 1]);
        }
        lemma_before_first(s.drop_first(), c, i - 1);
        assert(seq![s[0]] + s.drop_first().take(i - 1) =~= s.take(i));
    }
}

pub proof fn lemma_before_first_absent(s: Seq<char>, c: char)
    requires
        !s.contains(c),
    ensures
        before_first(s, c) == s,
{
    assert forall|j: int| 0 <= j < s.len() implies s[j] != c by {
        if s[j] == c {
            assert(s.contains(c));
        }
    }
    lemma_before_first(s, c, s.len() as int);
    assert(s.take(s.len() as int) =~= s);
}

/// The part of `s` after its first `c` (empty when there is none).
pub open spec fn after_first(s: Seq<char>, c: char) -> Seq<char>
    decreases s.len(),
{
    if s.len() == 0 {
        s
    } else if s[0] == c {
        s.drop_first()
    } else {
        after_first(s.drop_first(), c)
    }
}

pub proof fn lemma_after_first(s: Seq<char>, c: char, i: int)
    requires
        0 <= i < s.len(),
        s[i] == c,
        forall|j: int| 0 <= j < i ==> s[j] != c,
    ensures
        after_first(s, c) == s.skip(i + 1),
        before_first(s, c) == s.take(i),
        s.contains(c),
    decreases i,
{
    lemma_before_first(s, c, i);
    if i > 0 {
        assert forall|j: int| 0 <= j < i - 1 implies s.drop_first()[j] != c by {
            assert(s.drop_first()[j] == s[j + 1]);
        }
        lemma_after_first(s.drop_first(), c, i - 1);
        assert(s.drop_first().skip(i) =~= s.skip(i + 1));
    }
}

/// A copy of `s[lo..hi]`.
pub fn sub_vec<T: Copy>(s: &[T], lo: usize, hi: usize) -> (r: Vec<T>)
    requires
        lo <= hi <= s@.len(),
    ensures
        r@ == s@.subrange(lo as int, hi as int),
{
    let mut r: Vec<T> = Vec::new();
    let mut i = lo;
    while i < hi
        invariant
            lo <= i <= hi <= s@.len(),
            r@ =~= s@.subrange(lo as int, i as int),
        decreases hi - i,
    {
        r.push(s[i]);
        i += 1;
    }
    r
}

/// `a` followed by `b`.
pub fn concat<T: Copy>(a: &[T], b: &[T]) -> (r: Vec<T>)
    ensures
        r@ == a@ + b@,
{
    let mut r = sub_vec(a, 0, a.len());
    let mut i: usize = 0;
    while i < b.len()
        invariant
            i <= b@.len(),
            r@ =~= a@ + b@.take(i as int),
        decreases b@.len() - i,
    {
        r.push(b[i]);
        i += 1;
    }
    assert(b@.take(b@.len() as int) =~= b@);
    r
}

/// Appends all of `b` to `out`.
pub fn append_all<T: Copy>(out: &mut Vec<T>, b: &[T])
    ensures
        final(out)@ == old(out)@ + b@,
{
    let mut i: usize = 0;
    while i < b.len()
        invariant
            i <= b@.len(),
            out@ =~= old(out)@ + b@.take(i as int),
        decreases b@.len() - i,
    {
        out.push(b[i]);
        i += 1;
    }
    assert(b@.take(b@.len() as int) =~= b@);
}

// ---------------------------------------------------------------------------
// Decimal numbers
// ---------------------------------------------------------------------------

/// The decimal digits of `n`, without leading zeros.
pub open spec fn decimal(n: nat) -> Seq<char>
    decreases n,
{
    if n < 10 {
        seq![digit_char(n as int)]
    } else {
        decimal(n / 10).push(digit_char((n % 10) as int))
    }
}

/// `v` in decimal, with a `-` in front when it is negative.
pub open spec fn signed_decimal(v: int) -> Seq<char> {
    if v < 0 {
        seq!['-'] + decimal((-v) as nat)
    } else {
        decimal(v as nat)
    }
}

fn digit(d: u64) -> (c: char)
    requires
        d < 10,
    ensures
        c == digit_char(d as int),
{
    ((d as u8) + 48) as char
}

/// Appends the decimal digits of `n` to `out`.
pub fn push_decimal(out: &mut Vec<char>, n: u64)
    ensures
        final(out)@ == old(out)@ + decimal(n as nat),
    decreases n,
{
    if n >= 10 {
        push_decimal(out, n / 10);
    }
    out.push(digit(n % 10));
}

/// Appends `v` in decimal, with its sign, to `out`.
pub fn push_signed_decimal(out: &mut Vec<char>, v: i64)
    ensures
        final(out)@ == old(out)@ + signed_decimal(v as int),
{
    if v < 0 {
        out.push('-');
        let m: u64 = (-(v as i128)) as u64;
        push_decimal(out, m);
        assert(final(out)@ =~= old(out)@ + signed_decimal(v as int)) by {
            assert(signed_decimal(v as int) == seq!['-'] + decimal((-v) as nat));
        }
    } else {
        push_decimal(out, v as u64);
    }
}

/// ASCII characters as the bytes that encode them.
pub open spec fn ascii_bytes(s: Seq<char>) -> Seq<u8> {
    s.map_values(|c: char| c as u8)
}

/// The bytes `c as u8` of the characters `s` (their encoding when they are ASCII).
pub fn to_ascii_bytes(s: &[char]) -> (r: Vec<u8>)
    ensures
        r@ == ascii_bytes(s@),
{
    let mut r: Vec<u8> = Vec::new();
    let mut i: usize = 0;
    while i < s.len()
        invariant
            i <= s@.len(),
            r@ =~= ascii_bytes(s@.take(i as int)),
        decreases s@.len() - i,
    {
        r.push(s[i] as u8);
        i += 1;
    }
    assert(s@.take(s@.len() as int) =~= s@);
    r
}

// ---------------------------------------------------------------------------
// Integer syntax of `str::parse`
// ---------------------------------------------------------------------------

pub open spec fn all_digits(s: Seq<char>) -> bool {
    forall|i: int| 0 <= i < s.len() ==> is_digit(#[trigger] s[i])
}

/// The number that a string of decimal digits denotes.
pub open spec fn digits_value(s: Seq<char>) -> nat
    decreases s.len(),
{
    if s.len() == 0 {
        0
    } else {
        (digits_value(s.drop_last()) * 10 + digit_value(s.last())) as nat
    }
}

/// What `str::parse` gives for an integer type whose values are `min..=max`:
/// an optional `+` (or `-` when the type is signed), then one or more ASCII
/// digits, denoting a value inside the range.
pub open spec fn parse_int_spec(s: Seq<char>, signed: bool, min: int, max: int) -> Option<int> {
    let has_sign = s.len() > 0 && (s[0] == '+' || (signed && s[0] == '-'));
    let neg = s.len() > 0 && s[0] == '-';
    let body = if has_sign {
        s.drop_first()
    } else {
        s
    };
    if body.len() == 0 || !all_digits(body) {
        None
    } else {
        let v = if neg {
            -digits_value(body)
        } else {
            digits_value(body) as int
        };
        if min <= v <= max {
            Some(v)
        } else {
            None
        }
    }
}

/// The number of ASCII digits at the start of `s`.
pub open spec fn digit_prefix(s: Seq<char>) -> nat
    decreases s.len(),
{
    if s.len() > 0 && is_digit(s[0]) {
        1 + digit_prefix(s.drop_first())
    } else {
        0
    }
}

pub proof fn lemma_digit_prefix(s: Seq<char>)
    ensures
        digit_prefix(s) <= s.len(),
        all_digits(s.take(digit_prefix(s) as int)),
        digit_prefix(s) < s.len() ==> !is_digit(s[digit_prefix(s) as int]),
    decreases s.len(),
{
    if s.len() > 0 && is_digit(s[0]) {
        lemma_digit_prefix(s.drop_first());
        let k = digit_prefix(s) as int;
        assert forall|j: int| 0 <= j < k implies is_digit(#[trigger] s.take(k)[j]) by {
            if j > 0 {
                assert(s.take(k)[j] == s.drop_first().take(k - 1)[j - 1]);
            }
        }
    }
}


/// The decimal digits of `n` are digits and denote `n`.
pub proof fn lemma_decimal_digits(n: nat)
    ensures
        all_digits(decimal(n)),
        digits_value(decimal(n)) == n,
        decimal(n).len() >= 1,
    decreases n,
{
    let x = (n % 10) as int;
    assert(digit_value(digit_char(x)) == x && is_digit(digit_char(x))) by {
        assert((x + 48) as char as int == x + 48);
    }
    if n < 10 {
        let d = decimal(n);
        assert(d.drop_last() =~= Seq::<char>::empty());
        assert(n % 10 == n);
        assert(d.last() == digit_char(x));
        assert(digits_value(d) == digits_value(d.drop_last()) * 10 + digit_value(d.last()));
        assert(digits_value(Seq::<char>::empty()) == 0);
    } else {
        lemma_decimal_digits(n / 10);
        let d = decimal(n);
        assert(d.drop_last() =~= decimal(n / 10));
        assert(d.last() == digit_char(x));
        assert(digits_value(d) == digits_value(d.drop_last()) * 10 + digit_value(d.last()));
        assert((n / 10) * 10 + n % 10 == n) by (nonlinear_arith);
        assert forall|j: int| 0 <= j < d.len() implies is_digit(#[trigger] d[j]) by {
            if j < d.len() - 1 {
                assert(d[j] == decimal(n / 10)[j]);
            }
        }
    }
}

/// Leading zeros do not change the value of a string of digits.
pub proof fn lemma_leading_zeros(k: nat, d: Seq<char>)
    ensures
        digits_value(Seq::new(k, |i: int| '0') + d) == digits_value(d),
    decreases d.len(), k,
{
    let z = Seq::new(k, |i: int| '0');
    if d.len() == 0 {
        assert(z + d =~= z);
        if k > 0 {
            assert(z.drop_last() =~= Seq::new((k - 1) as nat, |i: int| '0'));
            lemma_leading_zeros((k - 1) as nat, d);
            assert(Seq::new((k - 1) as nat, |i: int| '0') + d =~= Seq::new((k - 1) as nat, |i: int| '0'));
        }
    } else {
        assert((z + d).drop_last() =~= z + d.drop_last());
        lemma_leading_zeros(k, d.drop_last());
    }
}

/// The digits at the start of `x + y` are those of `x` when `x` is all
/// digits and `y` does not start with one.
pub proof fn lemma_digit_prefix_concat(x: Seq<char>, y: Seq<char>)
    requires
        all_digits(x),
        y.len() == 0 || !is_digit(y[0]),
    ensures
        digit_prefix(x + y) == x.len(),
    decreases x.len(),
{
    if x.len() == 0 {
        assert(x + y =~= y);
    } else {
        assert((x + y).drop_first() =~= x.drop_first() + y);
        assert(is_digit(x[0]));
        lemma_digit_prefix_concat(x.drop_first(), y);
    }
}

pub proof fn lemma_digits_value_prefix(s: Seq<char>, k: int)
    requires
        0 <= k <= s.len(),
        all_digits(s),
    ensures
        digits_value(s.take(k)) <= digits_value(s),
    decreases s.len(),
{
    if k < s.len() {
        assert(s.drop_last().take(k) =~= s.take(k));
        lemma_digits_value_prefix(s.drop_last(), k);
    } else {
        assert(s.take(k) =~= s);
    }
}

/// Parses `s` the way `str::parse` parses an integer type whose values are
/// `min..=max` and which is signed when `signed` is set.
pub fn parse_int(s: &[char], signed: bool, min: i128, max: i128) -> (r: Option<i128>)
    requires
        -0x1_0000_0000_0000_0000 <= min <= 0 <= max <= 0x1_0000_0000_0000_0000,
    ensures
        match r {
            Some(x) => parse_int_spec(s@, signed, min as int, max as int) == Some(x as int),
            None => parse_int_spec(s@, signed, min as int, max as int) is None,
        },
{
    let n = s.len();
    let has_sign = n > 0 && (s[0] == '+' || (signed && s[0] == '-'));
    let neg = n > 0 && s[0] == '-';
    let start: usize = if has_sign {
        1
    } else {
        0
    };
    let ghost body = if has_sign {
        s@.drop_first()
    } else {
        s@
    };
    assert(body =~= s@.subrange(start as int, n as int));
    if start == n {
        return None;
    }
    let limit: u128 = if neg {
        (-min) as u128
    } else {
        max as u128
    };
    let mut acc: u128 = 0;
    let mut i = start;
    while i < n
        invariant
            start <= i <= n == s@.len(),
            body == s@.subrange(start as int, n as int),
            has_sign == (s@.len() > 0 && (s@[0] == '+' || (signed && s@[0] == '-'))),
            neg == (s@.len() > 0 && s@[0] == '-'),
            body == (if has_sign {
                s@.drop_first()
            } else {
                s@
            }),
            -0x1_0000_0000_0000_0000 <= min <= 0 <= max <= 0x1_0000_0000_0000_0000,
            limit == (if neg {
                -min
            } else {
                max as int
            }),
            limit <= 0x1_0000_0000_0000_0000,
            acc <= limit,
            all_digits(body.take(i - start)),
            acc == digits_value(body.take(i - start)),
        decreases n - i,
    {
        let c = s[i];
        assert(body[i - start] == s@[i as int]);
        if c < '0' || c > '9' {
            assert(!is_digit(body[i - start]));
            return None;
        }
        let d = (c as u32 - 48) as u128;
        let ghost k = i - start;
        assert(body.take(k + 1).drop_last() =~= body.take(k));
        assert(body.take(k + 1).last() == c);
        assert(all_digits(body.take(k + 1))) by {
            assert forall|j: int| 0 <= j < k + 1 implies is_digit(#[trigger] body.take(k + 1)[j]) by {
                if j < k {
                    assert(body.take(k + 1)[j] == body.take(k)[j]);
                }
            }
        }
        let next = acc * 10 + d;
        assert(next == digits_value(body.take(k + 1)));
        i += 1;
        if next > limit {
            proof {
                if all_digits(body) {
                    lemma_digits_value_prefix(body, k + 1);
                }
            }
            return None;
        }
        acc = next;
    }
    assert(body.take(n - start) =~= body);
    if neg {
        Some(-(acc as i128))
    } else {
        Some(acc as i128)
    }
}


// ---------------------------------------------------------------------------
// Splitting into fields
// ---------------------------------------------------------------------------

/// The characters that separate fields: the space alone, or every character
/// with the Unicode `White_Space` property (what `char::is_whitespace` tests).
#[derive(Clone, Copy, PartialEq, Eq, Debug)]
pub enum Sep {
    Space,
    Whitespace,
}

pub open spec fn is_unicode_whitespace(c: char) -> bool {
    ||| '\t' <= c <= '\r'
    ||| c == ' '
    ||| c == '\u{85}'
    ||| c == '\u{a0}'
    ||| c == '\u{1680}'
    ||| '\u{2000}' <= c <= '\u{200a}'
    ||| c == '\u{2028}'
    ||| c == '\u{2029}'
    ||| c == '\u{202f}'
    ||| c == '\u{205f}'
    ||| c == '\u{3000}'
}

pub open spec fn is_sep(sep: Sep, c: char) -> bool {
    match sep {
        Sep::Space => c == ' ',
        Sep::Whitespace => is_unicode_whitespace(c),
    }
}

pub fn is_whitespace(c: char) -> (r: bool)
    ensures
        r == is_unicode_whitespace(c),
{
    ('\t' <= c && c <= '\r') || c == ' ' || c == '\u{85}' || c == '\u{a0}' || c == '\u{1680}'
        || ('\u{2000}' <= c && c <= '\u{200a}') || c == '\u{2028}' || c == '\u{2029}' || c
        == '\u{202f}' || c == '\u{205f}' || c == '\u{3000}'
}

pub fn sep_test(sep: Sep, c: char) -> (r: bool)
    ensures
        r == is_sep(sep, c),
{
    match sep {
        Sep::Space => c == ' ',
        Sep::Whitespace => is_whitespace(c),
    }
}

/// Number of separators at the start of `s`.
pub open spec fn leading_seps(s: Seq<char>, sep: Sep) -> nat
    decreases s.len(),
{
    if s.len() > 0 && is_sep(sep, s[0]) {
        1 + leading_seps(s.drop_first(), sep)
    } else {
        0
    }
}

/// Number of non-separators at the start of `s`.
pub open spec fn word_len(s: Seq<char>, sep: Sep) -> nat
    decreases s.len(),
{
    if s.len() > 0 && !is_sep(sep, s[0]) {
        1 + word_len(s.drop_first(), sep)
    } else {
        0
    }
}

pub proof fn lemma_leading_seps(s: Seq<char>, sep: Sep)
    ensures
        leading_seps(s, sep) <= s.len(),
        leading_seps(s, sep) < s.len() ==> !is_sep(sep, s[leading_seps(s, sep) as int]),
        forall|j: int| 0 <= j < leading_seps(s, sep) ==> is_sep(sep, #[trigger] s[j]),
    decreases s.len(),
{
    if s.len() > 0 && is_sep(sep, s[0]) {
        lemma_leading_seps(s.drop_first(), sep);
        assert forall|j: int| 0 <= j < leading_seps(s, sep) implies is_sep(sep, #[trigger] s[j]) by {
            if j > 0 {
                assert(s[j] == s.drop_first()[j - 1]);
            }
        }
    }
}

pub proof fn lemma_word_len(s: Seq<char>, sep: Sep)
    ensures
        word_len(s, sep) <= s.len(),
        word_len(s, sep) < s.len() ==> is_sep(sep, s[word_len(s, sep) as int]),
        forall|j: int| 0 <= j < word_len(s, sep) ==> !is_sep(sep, #[trigger] s[j]),
        s.len() > 0 && !is_sep(sep, s[0]) ==> word_len(s, sep) >= 1,
    decreases s.len(),
{
    if s.len() > 0 && !is_sep(sep, s[0]) {
        lemma_word_len(s.drop_first(), sep);
        assert forall|j: int| 0 <= j < word_len(s, sep) implies !is_sep(sep, #[trigger] s[j]) by {
            if j > 0 {
                assert(s[j] == s.drop_first()[j - 1]);
            }
        }
    }
}

/// The maximal runs of non-separators of `s`, in order (what `split_whitespace`
/// gives, or `split(' ')` without the empty pieces).
pub open spec fn fields(s: Seq<char>, sep: Sep) -> Seq<Seq<char>>
    decreases s.len(),
{
    let t = s.skip(leading_seps(s, sep) as int);
    if leading_seps(s, sep) > s.len() || t.len() == 0 {
        seq![]
    } else {
        let w = word_len(t, sep);
        if 1 <= w <= t.len() {
            seq![t.take(w as int)] + fields(t.skip(w as int), sep)
        } else {
            seq![]
        }
    }
}

proof fn lemma_leading_seps_exact(s: Seq<char>, sep: Sep, k: int)
    requires
        0 <= k <= s.len(),
        forall|j: int| 0 <= j < k ==> is_sep(sep, #[trigger] s[j]),
        k < s.len() ==> !is_sep(sep, s[k]),
    ensures
        leading_seps(s, sep) == k,
    decreases k,
{
    if k > 0 {
        assert forall|j: int| 0 <= j < k - 1 implies is_sep(sep, #[trigger] s.drop_first()[j]) by {
            assert(s.drop_first()[j] == s[j + 1]);
        }
        lemma_leading_seps_exact(s.drop_first(), sep, k - 1);
    }
}

proof fn lemma_word_len_exact(s: Seq<char>, sep: Sep, k: int)
    requires
        0 <= k <= s.len(),
        forall|j: int| 0 <= j < k ==> !is_sep(sep, #[trigger] s[j]),
        k < s.len() ==> is_sep(sep, s[k]),
    ensures
        word_len(s, sep) == k,
    decreases k,
{
    if k > 0 {
        assert forall|j: int| 0 <= j < k - 1 implies !is_sep(sep, #[trigger] s.drop_first()[j]) by {
            assert(s.drop_first()[j] == s[j + 1]);
        }
        lemma_word_len_exact(s.drop_first(), sep, k - 1);
    }
}

pub open spec fn views_of(v: Seq<Vec<char>>) -> Seq<Seq<char>> {
    v.map_values(|x: Vec<char>| x@)
}

/// Splits `s` into its fields.
pub fn split_fields(s: &[char], sep: Sep) -> (r: Vec<Vec<char>>)
    ensures
        views_of(r@) == fields(s@, sep),
{
    let n = s.len();
    let mut r: Vec<Vec<char>> = Vec::new();
    let mut i: usize = 0;
    assert(s@.skip(0) =~= s@);
    while i < n
        invariant
            i <= n == s@.len(),
            views_of(r@) + fields(s@.skip(i as int), sep) == fields(s@, sep),
        decreases n - i,
    {
        let ghost rest = s@.skip(i as int);
        let mut j = i;
        while j < n && sep_test(sep, s[j])
            invariant
                i <= j <= n == s@.len(),
                rest == s@.skip(i as int),
                forall|t: int| i <= t < j ==> is_sep(sep, #[trigger] s@[t]),
            decreases n - j,
        {
            j += 1;
        }
        proof {
            assert forall|t: int| 0 <= t < j - i implies is_sep(sep, #[trigger] rest[t]) by {
                assert(rest[t] == s@[i + t]);
            }
            if j < n {
                assert(rest[j - i] == s@[j as int]);
            }
            lemma_leading_seps_exact(rest, sep, j - i);
            assert(rest.skip(j - i) =~= s@.skip(j as int));
        }
        if j == n {
            assert(fields(rest, sep) =~= Seq::<Seq<char>>::empty());
            assert(views_of(r@) + fields(s@.skip(n as int), sep) =~= views_of(r@));
            i = n;
            assert(fields(s@.skip(n as int), sep) =~= Seq::<Seq<char>>::empty());
        } else {
            let mut k = j;
            while k < n && !sep_test(sep, s[k])
                invariant
                    j <= k <= n == s@.len(),
                    forall|t: int| j <= t < k ==> !is_sep(sep, #[trigger] s@[t]),
                decreases n - k,
            {
                k += 1;
            }
            let ghost t = s@.skip(j as int);
            proof {
                assert forall|q: int| 0 <= q < k - j implies !is_sep(sep, #[trigger] t[q]) by {
                    assert(t[q] == s@[j + q]);
                }
                if k < n {
                    assert(t[k - j] == s@[k as int]);
                }
                lemma_word_len_exact(t, sep, k - j);
                assert(t[0] == s@[j as int]);
                assert(t.take(k - j) =~= s@.subrange(j as int, k as int));
                assert(t.skip(k - j) =~= s@.skip(k as int));
            }
            let word = sub_vec(s, j, k);
            let ghost old_r = r@;
            r.push(word);
            proof {
                assert(views_of(r@) =~= views_of(old_r).push(word@));
                assert(fields(rest, sep) == seq![t.take(k - j)] + fields(t.skip(k - j), sep));
                assert(views_of(r@) + fields(s@.skip(k as int), sep) =~= views_of(old_r)
                    + fields(rest, sep));
            }
            i = k;
        }
    }
    assert(fields(s@.skip(n as int), sep) =~= Seq::<Seq<char>>::empty()) by {
        assert(s@.skip(n as int).len() == 0);
    }
    assert(views_of(r@) + Seq::<Seq<char>>::empty() =~= views_of(r@));
    r
}


// ---------------------------------------------------------------------------
// Splitting at separator characters
// ---------------------------------------------------------------------------

/// Whether `c` is one of the separators `a` and `b`.
pub open spec fn is_either(c: char, a: char, b: char) -> bool {
    c == a || c == b
}

/// Index of the first separator in `s` (its length when there is none).
pub open spec fn first_sep(s: Seq<char>, a: char, b: char) -> nat
    decreases s.len(),
{
    if s.len() == 0 {
        0
    } else if is_either(s[0], a, b) {
        0
    } else {
        1 + first_sep(s.drop_first(), a, b)
    }
}

pub proof fn lemma_first_sep(s: Seq<char>, a: char, b: char)
    ensures
        first_sep(s, a, b) <= s.len(),
        first_sep(s, a, b) < s.len() ==> is_either(s[first_sep(s, a, b) as int], a, b),
        forall|j: int| 0 <= j < first_sep(s, a, b) ==> !is_either(#[trigger] s[j], a, b),
    decreases s.len(),
{
    if s.len() > 0 && !is_either(s[0], a, b) {
        lemma_first_sep(s.drop_first(), a, b);
        assert forall|j: int| 0 <= j < first_sep(s, a, b) implies !is_either(#[trigger] s[j], a, b) by {
            if j > 0 {
                assert(s[j] == s.drop_first()[j - 1]);
            }
        }
    }
}

proof fn lemma_first_sep_exact(s: Seq<char>, a: char, b: char, k: int)
    requires
        0 <= k <= s.len(),
        forall|j: int| 0 <= j < k ==> !is_either(#[trigger] s[j], a, b),
        k < s.len() ==> is_either(s[k], a, b),
    ensures
        first_sep(s, a, b) == k,
    decreases k,
{
    if k > 0 {
        assert forall|j: int| 0 <= j < k - 1 implies !is_either(#[trigger] s.drop_first()[j], a, b) by {
            assert(s.drop_first()[j] == s[j + 1]);
        }
        lemma_first_sep_exact(s.drop_first(), a, b, k - 1);
    }
}

/// The pieces of `s` between separators `a` or `b` (what `str::split` gives
/// with those characters as the pattern): one more piece than separators.
pub open spec fn split_on(s: Seq<char>, a: char, b: char) -> Seq<Seq<char>>
    decreases s.len(),
{
    let k = first_sep(s, a, b) as int;
    if k >= s.len() {
        seq![s]
    } else {
        seq![s.take(k)] + split_on(s.skip(k + 1), a, b)
    }
}

/// Splits `s` at each `a` or `b`.
pub fn split_chars(s: &[char], a: char, b: char) -> (r: Vec<Vec<char>>)
    ensures
        views_of(r@) == split_on(s@, a, b),
{
    let n = s.len();
    let mut r: Vec<Vec<char>> = Vec::new();
    let mut start: usize = 0;
    assert(s@.skip(0) =~= s@);
    loop
        invariant
            start <= n == s@.len(),
            views_of(r@) + split_on(s@.skip(start as int), a, b) == split_on(s@, a, b),
        decreases n - start,
    {
        let ghost rest = s@.skip(start as int);
        let mut k = start;
        while k < n && s[k] != a && s[k] != b
            invariant
                start <= k <= n == s@.len(),
                forall|j: int| start <= j < k ==> !is_either(#[trigger] s@[j], a, b),
            decreases n - k,
        {
            k += 1;
        }
        proof {
            assert forall|j: int| 0 <= j < k - start implies !is_either(#[trigger] rest[j], a, b) by {
                assert(rest[j] == s@[start + j]);
            }
            if k < n {
                assert(rest[k - start] == s@[k as int]);
            }
            lemma_first_sep_exact(rest, a, b, k - start);
        }
        let piece = sub_vec(s, start, k);
        let ghost old_r = r@;
        r.push(piece);
        assert(views_of(r@) =~= views_of(old_r).push(piece@));
        if k == n {
            assert(rest.take(k - start) =~= rest);
            assert(split_on(rest, a, b) == seq![rest]);
            assert(views_of(r@) =~= views_of(old_r) + split_on(rest, a, b));
            return r;
        }
        assert(rest.take(k - start) =~= piece@);
        assert(rest.skip(k - start + 1) =~= s@.skip(k + 1));
        assert(views_of(r@) + split_on(s@.skip(k + 1), a, b) =~= views_of(old_r) + split_on(rest, a, b));
        start = k + 1;
    }
}

/// `s` without its trailing `c`s (`trim_end_matches`).
pub open spec fn trim_trailing(s: Seq<char>, c: char) -> Seq<char>
    decreases s.len(),
{
    if s.len() > 0 && s.last() == c {
        trim_trailing(s.drop_last(), c)
    } else {
        s
    }
}

pub fn trim_trailing_chars(s: &[char], c: char) -> (r: Vec<char>)
    ensures
        r@ == trim_trailing(s@, c),
{
    let mut k = s.len();
    assert(s@.take(k as int) =~= s@);
    while k > 0 && s[k - 1] == c
        invariant
            k <= s@.len(),
            trim_trailing(s@.take(k as int), c) == trim_trailing(s@, c),
        decreases k,
    {
        assert(s@.take(k as int).drop_last() =~= s@.take(k - 1));
        k -= 1;
    }
    proof {
        if k == s@.len() {
            assert(s@.take(k as int) =~= s@);
        }
    }
    sub_vec(s, 0, k)
}


/// Number of whitespace characters at the end of `s`.
pub open spec fn trailing_ws(s: Seq<char>) -> nat
    decreases s.len(),
{
    if s.len() > 0 && is_unicode_whitespace(s.last()) {
        1 + trailing_ws(s.drop_last())
    } else {
        0
    }
}

/// `s` without its leading and trailing whitespace (`str::trim`).
pub open spec fn trim_ws(s: Seq<char>) -> Seq<char> {
    let t = s.skip(leading_seps(s, Sep::Whitespace) as int);
    t.take(t.len() - trailing_ws(t))
}

proof fn lemma_trailing_ws(s: Seq<char>)
    ensures
        trailing_ws(s) <= s.len(),
    decreases s.len(),
{
    if s.len() > 0 && is_unicode_whitespace(s.last()) {
        lemma_trailing_ws(s.drop_last());
    }
}

pub fn trim_chars(s: &[char]) -> (r: Vec<char>)
    ensures
        r@ == trim_ws(s@),
{
    let n = s.len();
    let mut a: usize = 0;
    while a < n && is_whitespace(s[a])
        invariant
            a <= n == s@.len(),
            forall|j: int| 0 <= j < a ==> is_sep(Sep::Whitespace, #[trigger] s@[j]),
        decreases n - a,
    {
        a += 1;
    }
    proof {
        lemma_leading_seps_exact(s@, Sep::Whitespace, a as int);
    }
    let ghost t = s@.skip(a as int);
    let mut b: usize = n;
    assert(t.take(t.len() as int) =~= t);
    while b > a && is_whitespace(s[b - 1])
        invariant
            a <= b <= n == s@.len(),
            t == s@.skip(a as int),
            trailing_ws(t) == (n - b) + trailing_ws(t.take(b - a)),
        decreases b,
    {
        assert(t.take(b - a).drop_last() =~= t.take(b - 1 - a));
        assert(t.take(b - a).last() == s@[b - 1]);
        b -= 1;
    }
    proof {
        assert(trailing_ws(t.take(b - a)) == 0);
        lemma_trailing_ws(t);
    }
    let r = sub_vec(s, a, b);
    assert(r@ =~= t.take(t.len() - trailing_ws(t)));
    r
}

/// `s` without one final carriage return.
pub open spec fn strip_cr(s: Seq<char>) -> Seq<char> {
    if s.len() > 0 && s.last() == '\r' {
        s.drop_last()
    } else {
        s
    }
}

/// The lines of `s` (`str::lines`): the pieces between newlines, without an
/// empty piece after a final newline, each without a carriage return that
/// ended it.
pub open spec fn text_lines(s: Seq<char>) -> Seq<Seq<char>> {
    let p = split_on(s, '\n', '\n');
    let q = if p.len() > 0 && p.last().len() == 0 {
        p.drop_last()
    } else {
        p
    };
    q.map_values(|l: Seq<char>| strip_cr(l))
}

/// Splits `s` into its lines.
pub fn split_lines(s: &[char]) -> (r: Vec<Vec<char>>)
    ensures
        views_of(r@) == text_lines(s@),
{
    let p = split_chars(s, '\n', '\n');
    let ghost pv = views_of(p@);
    let mut m = p.len();
    if m > 0 && p[m - 1].len() == 0 {
        assert(p[m - 1]@ == pv.last());
        m = m - 1;
    }
    let ghost q = pv.take(m as int);
    assert(q =~= (if pv.len() > 0 && pv.last().len() == 0 { pv.drop_last() } else { pv }));
    let mut r: Vec<Vec<char>> = Vec::new();
    let mut i: usize = 0;
    while i < m
        invariant
            i <= m <= p@.len(),
            pv == views_of(p@),
            q == pv.take(m as int),
            views_of(r@) =~= q.take(i as int).map_values(|l: Seq<char>| strip_cr(l)),
        decreases m - i,
    {
        let line = &p[i];
        let k = line.len();
        let piece = if k > 0 && line[k - 1] == '\r' {
            sub_vec(line.as_slice(), 0, k - 1)
        } else {
            sub_vec(line.as_slice(), 0, k)
        };
        assert(line@ == q[i as int]);
        assert(piece@ =~= strip_cr(q[i as int]));
        let ghost old_r = r@;
        r.push(piece);
        assert(views_of(r@) =~= views_of(old_r).push(piece@));
        i += 1;
        assert(q.take(i as int) =~= q.take(i - 1).push(q[i - 1]));
        assert(q.take(i as int).map_values(|l: Seq<char>| strip_cr(l)) =~= q.take(i - 1).map_values(
            |l: Seq<char>| strip_cr(l),
        ).push(strip_cr(q[i - 1])));
    }
    assert(q.take(m as int) =~= q);
    r
}

/// Splits `s` at its first `c`: the text before it and the text after it.
pub fn split_once(s: &[char], c: char) -> (r: Option<(Vec<char>, Vec<char>)>)
    ensures
        match r {
            Some((a, b)) => s@.contains(c) && a@ == before_first(s@, c) && b@ == after_first(s@, c),
            None => !s@.contains(c),
        },
{
    let n = s.len();
    let found = index_of(s, c);
    match found {
        Some(i) => {
            assert(i < s@.len());
            proof {
                lemma_after_first(s@, c, i as int);
            }
            let a = sub_vec(s, 0, i);
            let b = sub_vec(s, i + 1, n);
            assert(b@ =~= s@.skip(i + 1));
            Some((a, b))
        },
        None => None,
    }
}


// ---------------------------------------------------------------------------
// Ordering strings
// ---------------------------------------------------------------------------

/// `a` comes strictly before `b` in the order of `str`'s `Ord` (code points
/// compared one after another, a prefix first).
pub open spec fn lex_lt(a: Seq<char>, b: Seq<char>) -> bool
    decreases a.len(),
{
    if a.len() == 0 {
        b.len() > 0
    } else if b.len() == 0 {
        false
    } else if a[0] != b[0] {
        (a[0] as u32) < (b[0] as u32)
    } else {
        lex_lt(a.drop_first(), b.drop_first())
    }
}

pub proof fn lemma_lex_irreflexive(a: Seq<char>)
    ensures
        !lex_lt(a, a),
    decreases a.len(),
{
    if a.len() > 0 {
        lemma_lex_irreflexive(a.drop_first());
    }
}

pub proof fn lemma_lex_transitive(a: Seq<char>, b: Seq<char>, c: Seq<char>)
    requires
        lex_lt(a, b),
        lex_lt(b, c),
    ensures
        lex_lt(a, c),
    decreases a.len(),
{
    if a.len() > 0 && b.len() > 0 && c.len() > 0 && a[0] == b[0] && b[0] == c[0] {
        lemma_lex_transitive(a.drop_first(), b.drop_first(), c.drop_first());
    }
}

/// Whether `a` comes strictly before `b`.
pub fn lex_less(a: &[char], b: &[char]) -> (r: bool)
    ensures
        r == lex_lt(a@, b@),
{
    let mut i: usize = 0;
    assert(a@.skip(0) =~= a@);
    assert(b@.skip(0) =~= b@);
    while i < a.len() && i < b.len() && a[i] == b[i]
        invariant
            i <= a@.len(),
            i <= b@.len(),
            lex_lt(a@, b@) == lex_lt(a@.skip(i as int), b@.skip(i as int)),
        decreases a@.len() - i,
    {
        assert(a@.skip(i as int).drop_first() =~= a@.skip(i + 1));
        assert(b@.skip(i as int).drop_first() =~= b@.skip(i + 1));
        i += 1;
    }
    if i == a.len() {
        i < b.len()
    } else if i == b.len() {
        false
    } else {
        (a[i] as u32) < (b[i] as u32)
    }
}

pub open spec fn string_views(v: Seq<String>) -> Seq<Seq<char>> {
    v.map_values(|s: String| s@)
}

/// No later string comes strictly before an earlier one.
pub open spec fn lex_sorted(s: Seq<Seq<char>>) -> bool {
    forall|i: int, j: int| 0 <= i < j < s.len() ==> !lex_lt(#[trigger] s[j], #[trigger] s[i])
}

/// `v` in ascending order (`sort` on strings).
pub fn sort_strings(v: &[String]) -> (r: Vec<String>)
    ensures
        lex_sorted(string_views(r@)),
        string_views(r@).to_multiset() == string_views(v@).to_multiset(),
        r@.len() == v@.len(),
{
    broadcast use vstd::seq_lib::to_multiset_insert;
    let mut r: Vec<String> = Vec::new();
    let mut k: usize = 0;
    assert(string_views(r@) =~= string_views(v@.take(0)));
    while k < v.len()
        invariant
            k <= v@.len(),
            r@.len() == k,
            lex_sorted(string_views(r@)),
            string_views(r@).to_multiset() == string_views(v@.take(k as int)).to_multiset(),
        decreases v@.len() - k,
    {
        let x = v[k].clone();
        let xc = chars_of(x.as_str());
        let ghost rv = string_views(r@);
        let mut i: usize = 0;
        while i < r.len()
            invariant
                i <= r@.len(),
                rv == string_views(r@),
                xc@ == x@,
                forall|j: int| 0 <= j < i ==> !lex_lt(x@, #[trigger] rv[j]),
            ensures
                i <= r@.len(),
                forall|j: int| 0 <= j < i ==> !lex_lt(x@, #[trigger] rv[j]),
                i < r@.len() ==> lex_lt(x@, rv[i as int]),
            decreases r@.len() - i,
        {
            let yc = chars_of(r[i].as_str());
            assert(yc@ == rv[i as int]);
            if lex_less(xc.as_slice(), yc.as_slice()) {
                break;
            }
            i += 1;
        }
        let ghost old_r = r@;
        r.insert(i, x);
        proof {
            let nv = string_views(r@);
            assert(nv =~= rv.insert(i as int, x@));
            assert forall|a: int, b: int| 0 <= a < b < nv.len() implies !lex_lt(#[trigger] nv[b], #[trigger] nv[a]) by {
                if a < i && b < i {
                    assert(nv[a] == rv[a] && nv[b] == rv[b]);
                } else if a < i && b == i {
                    assert(nv[a] == rv[a] && nv[b] == x@);
                } else if a < i && b > i {
                    assert(nv[a] == rv[a]);
                    assert(nv[b] == rv[b - 1]);
                } else if a == i {
                    assert(nv[a] == x@);
                    assert(nv[b] == rv[b - 1]);
                    if lex_lt(rv[b - 1], x@) {
                        if b - 1 == i {
                            lemma_lex_transitive(rv[i as int], x@, rv[i as int]);
                            lemma_lex_irreflexive(rv[i as int]);
                        } else {
                            lemma_lex_transitive(rv[b - 1], x@, rv[i as int]);
                        }
                    }
                } else {
                    assert(nv[a] == rv[a - 1]);
                    assert(nv[b] == rv[b - 1]);
                }
            }
            assert(x@ == v@[k as int]@);
            assert(v@.take(k + 1) =~= v@.take(k as int).push(v@[k as int]));
            assert(string_views(v@.take(k + 1)) =~= string_views(v@.take(k as int)).push(x@));
            vstd::seq_lib::to_multiset_build(string_views(v@.take(k as int)), x@);
            vstd::seq_lib::to_multiset_insert(rv, i as int, x@);
            assert(nv.to_multiset() == rv.to_multiset().insert(x@));
        }
        k += 1;
    }
    assert(v@.take(v@.len() as int) =~= v@);
    r
}

/// `s` with every `from` replaced by `to`.
pub open spec fn replace_char(s: Seq<char>, from: char, to: char) -> Seq<char> {
    Seq::new(s.len(), |i: int| if s[i] == from { to } else { s[i] })
}

pub fn replace_chars(s: &[char], from: char, to: char) -> (r: Vec<char>)
    ensures
        r@ == replace_char(s@, from, to),
{
    let mut r: Vec<char> = Vec::new();
    let mut i: usize = 0;
    while i < s.len()
        invariant
            i <= s@.len(),
            r@ =~= replace_char(s@.take(i as int), from, to),
        decreases s@.len() - i,
    {
        r.push(if s[i] == from { to } else { s[i] });
        i += 1;
    }
    assert(s@.take(s@.len() as int) =~= s@);
    r
}

/// Number of bytes in the UTF-8 encoding of `c`.
pub open spec fn utf8_width(c: char) -> nat {
    if (c as u32) < 0x80 {
        1
    } else if (c as u32) < 0x800 {
        2
    } else if (c as u32) < 0x10000 {
        3
    } else {
        4
    }
}

/// Number of bytes in the UTF-8 encoding of `s`.
pub open spec fn utf8_len(s: Seq<char>) -> nat
    decreases s.len(),
{
    if s.len() == 0 {
        0
    } else {
        utf8_width(s[0]) + utf8_len(s.drop_first())
    }
}

pub fn char_width(c: char) -> (w: usize)
    ensures
        w == utf8_width(c),
{
    let v = c as u32;
    if v < 0x80 {
        1
    } else if v < 0x800 {
        2
    } else if v < 0x10000 {
        3
    } else {
        4
    }
}

} // verus!
