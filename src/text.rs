//! Text helpers: building strings, decimal numerals, byte-wise comparison and
//! the character-level scanning that the SQL and DDL parsers share.
use vstd::prelude::*;
use vstd::utf8::encode_utf8;

verus! {

/// Relies on `String::push`: appends one character.
#[verifier::external_body]
pub(crate) fn push_char(s: &mut String, c: char)
    ensures
        final(s)@ == old(s)@.push(c),
{
    s.push(c);
}

/// The decimal digit character for `d < 10`.
pub open spec fn digit_char(d: nat) -> char {
    if d == 0 {
        '0'
    } else if d == 1 {
        '1'
    } else if d == 2 {
        '2'
    } else if d == 3 {
        '3'
    } else if d == 4 {
        '4'
    } else if d == 5 {
        '5'
    } else if d == 6 {
        '6'
    } else if d == 7 {
        '7'
    } else if d == 8 {
        '8'
    } else {
        '9'
    }
}

/// The decimal numeral of `n`, without leading zeros.
pub open spec fn decimal_nat(n: nat) -> Seq<char>
    decreases n,
{
    if n < 10 {
        seq![digit_char(n)]
    } else {
        decimal_nat(n / 10).push(digit_char(n % 10))
    }
}

/// The decimal numeral of `i`, with a leading `-` when it is negative.
pub open spec fn decimal_int(i: int) -> Seq<char> {
    if i < 0 {
        seq!['-'] + decimal_nat((-i) as nat)
    } else {
        decimal_nat(i as nat)
    }
}

fn digit(d: u64) -> (c: char)
    requires
        d < 10,
    ensures
        c == digit_char(d as nat),
{
    if d == 0 {
        '0'
    } else if d == 1 {
        '1'
    } else if d == 2 {
        '2'
    } else if d == 3 {
        '3'
    } else if d == 4 {
        '4'
    } else if d == 5 {
        '5'
    } else if d == 6 {
        '6'
    } else if d == 7 {
        '7'
    } else if d == 8 {
        '8'
    } else {
        '9'
    }
}

/// Appends the decimal numeral of `n` to `s`.
pub(crate) fn push_decimal(s: &mut String, n: u64)
    ensures
        final(s)@ == old(s)@ + decimal_nat(n as nat),
    decreases n,
{
    if n >= 10 {
        push_decimal(s, n / 10);
    }
    push_char(s, digit(n % 10));
    proof {
        if n >= 10 {
            assert(old(s)@ + decimal_nat(n as nat / 10) + seq![digit_char(n as nat % 10)]
                =~= old(s)@ + decimal_nat(n as nat));
        } else {
            assert(old(s)@.push(digit_char(n as nat % 10)) =~= old(s)@ + decimal_nat(n as nat));
        }
    }
}

/// Appends the decimal numeral of `i` to `s`.
pub(crate) fn push_signed_decimal(s: &mut String, i: i64)
    ensures
        final(s)@ == old(s)@ + decimal_int(i as int),
{
    if i < 0 {
        push_char(s, '-');
        let m = (0i128 - i as i128) as u64;
        push_decimal(s, m);
        assert(old(s)@.push('-') + decimal_nat(m as nat) =~= old(s)@ + decimal_int(i as int));
    } else {
        push_decimal(s, i as u64);
    }
}

/// Byte-wise lexicographic order: whether `a` sorts before or equal to `b`.
pub open spec fn bytes_le(a: Seq<u8>, b: Seq<u8>) -> bool
    decreases a.len(),
{
    if a.len() == 0 {
        true
    } else if b.len() == 0 {
        false
    } else if a[0] != b[0] {
        a[0] < b[0]
    } else {
        bytes_le(a.drop_first(), b.drop_first())
    }
}

/// Whether `a` sorts before or equal to `b`, comparing their UTF-8 bytes.
pub fn text_le(a: &str, b: &str) -> (r: bool)
    ensures
        r == bytes_le(encode_utf8(a@), encode_utf8(b@)),
{
    let x = a.as_bytes();
    let y = b.as_bytes();
    let mut i: usize = 0;
    assert(x@.skip(0) =~= x@);
    assert(y@.skip(0) =~= y@);
    while i < x.len() && i < y.len() && x[i] == y[i]
        invariant
            i <= x@.len(),
            i <= y@.len(),
            bytes_le(x@, y@) == bytes_le(x@.skip(i as int), y@.skip(i as int)),
        decreases x@.len() - i,
    {
        assert(x@.skip(i as int)[0] == x@[i as int]);
        assert(y@.skip(i as int)[0] == y@[i as int]);
        assert(x@.skip(i as int).drop_first() =~= x@.skip(i + 1));
        assert(y@.skip(i as int).drop_first() =~= y@.skip(i + 1));
        i = i + 1;
    }
    if i == x.len() {
        assert(x@.skip(i as int).len() == 0);
        true
    } else if i == y.len() {
        assert(y@.skip(i as int).len() == 0);
        false
    } else {
        assert(x@.skip(i as int)[0] == x@[i as int]);
        assert(y@.skip(i as int)[0] == y@[i as int]);
        x[i] < y[i]
    }
}

/// Whether two texts hold the same characters.
pub fn text_eq(a: &str, b: &str) -> (r: bool)
    ensures
        r == (a@ == b@),
{
    let x = a.to_owned();
    let y = b.to_owned();
    x == y
}

/// The characters of `s`, one element each.
pub fn chars_of(s: &str) -> (v: Vec<char>)
    ensures
        v@ == s@,
{
    let n = s.unicode_len();
    let mut v: Vec<char> = Vec::new();
    let mut i: usize = 0;
    while i < n
        invariant
            n == s@.len(),
            i <= n,
            v@ == s@.subrange(0, i as int),
        decreases n - i,
    {
        let c = s.get_char(i);
        assert(s@.subrange(0, i + 1) =~= s@.subrange(0, i as int).push(c));
        v.push(c);
        i = i + 1;
    }
    assert(s@.subrange(0, n as int) =~= s@);
    v
}

/// The text made of the characters `lo..hi` of `s`.
pub(crate) fn text_between(s: &str, lo: usize, hi: usize) -> (r: String)
    requires
        lo <= hi <= s@.len(),
    ensures
        r@ == s@.subrange(lo as int, hi as int),
{
    s.substring_char(lo, hi).to_owned()
}

/// Whether `c` is white space in the sense of `char::is_whitespace`.
pub open spec fn is_ws(c: char) -> bool {
    let u = c as u32;
    (9 <= u <= 13) || u == 32 || u == 0x85 || u == 0xa0 || u == 0x1680 || (0x2000 <= u <= 0x200a)
        || u == 0x2028 || u == 0x2029 || u == 0x202f || u == 0x205f || u == 0x3000
}

/// Whether `c` is white space.
pub fn is_whitespace_char(c: char) -> (r: bool)
    ensures
        r == is_ws(c),
{
    let u = c as u32;
    (9 <= u && u <= 13) || u == 32 || u == 0x85 || u == 0xa0 || u == 0x1680 || (0x2000 <= u && u
        <= 0x200a) || u == 0x2028 || u == 0x2029 || u == 0x202f || u == 0x205f || u == 0x3000
}

/// The code of `c` with ASCII upper-case letters folded to lower case.
pub open spec fn fold_code(c: char) -> u32 {
    let u = c as u32;
    if 65 <= u <= 90 {
        (u + 32) as u32
    } else {
        u
    }
}

fn fold(c: char) -> (r: u32)
    ensures
        r == fold_code(c),
{
    let u = c as u32;
    if 65 <= u && u <= 90 {
        u + 32
    } else {
        u
    }
}

/// Whether `a` and `b` are equal up to ASCII case.
pub open spec fn eq_ignore_case(a: Seq<char>, b: Seq<char>) -> bool {
    a.len() == b.len() && forall|j: int| 0 <= j < a.len() ==> fold_code(a[j]) == fold_code(b[j])
}

/// `s` without its leading white space.
pub open spec fn ltrim(s: Seq<char>) -> Seq<char>
    decreases s.len(),
{
    if s.len() > 0 && is_ws(s[0]) {
        ltrim(s.drop_first())
    } else {
        s
    }
}

/// `s` without its trailing white space.
pub open spec fn rtrim(s: Seq<char>) -> Seq<char>
    decreases s.len(),
{
    if s.len() > 0 && is_ws(s.last()) {
        rtrim(s.drop_last())
    } else {
        s
    }
}

/// `s` without leading and trailing white space.
pub open spec fn trim(s: Seq<char>) -> Seq<char> {
    rtrim(ltrim(s))
}

/// The bounds, within `lo..hi`, of the characters of `v[lo..hi]` that trimming keeps.
pub(crate) fn trim_bounds(v: &Vec<char>, lo: usize, hi: usize) -> (r: (usize, usize))
    requires
        lo <= hi <= v@.len(),
    ensures
        lo <= r.0 <= r.1 <= hi,
        v@.subrange(r.0 as int, r.1 as int) == trim(v@.subrange(lo as int, hi as int)),
{
    let mut a = lo;
    while a < hi && is_whitespace_char(v[a])
        invariant
            lo <= a <= hi <= v@.len(),
            ltrim(v@.subrange(lo as int, hi as int)) == ltrim(v@.subrange(a as int, hi as int)),
        decreases hi - a,
    {
        assert(v@.subrange(a as int, hi as int).drop_first() =~= v@.subrange(a + 1, hi as int));
        a = a + 1;
    }
    let mut b = hi;
    while b > a && is_whitespace_char(v[b - 1])
        invariant
            lo <= a <= b <= hi <= v@.len(),
            rtrim(v@.subrange(a as int, hi as int)) == rtrim(v@.subrange(a as int, b as int)),
        decreases b - a,
    {
        assert(v@.subrange(a as int, b as int).drop_last() =~= v@.subrange(a as int, b - 1));
        b = b - 1;
    }
    (a, b)
}

/// Whether `a`, with its ASCII upper-case letters folded to lower case, is
/// exactly `pat`; `pat` itself is not folded.
pub open spec fn folds_to(a: Seq<char>, pat: Seq<char>) -> bool {
    a.len() == pat.len() && forall|j: int| 0 <= j < a.len() ==> fold_code(a[j]) == pat[j] as u32
}

/// Whether `pat` occurs in `s` at `i`: exactly, or (with `ci`) in `s` with its
/// ASCII upper-case letters folded to lower case.
pub open spec fn occurs_at(s: Seq<char>, i: int, pat: Seq<char>, ci: bool) -> bool {
    0 <= i && i + pat.len() <= s.len() && if ci {
        folds_to(s.subrange(i, i + pat.len()), pat)
    } else {
        s.subrange(i, i + pat.len()) == pat
    }
}

/// The first position at or after `i` where `pat` occurs in `s`.
pub open spec fn find_from(s: Seq<char>, pat: Seq<char>, i: int, ci: bool) -> Option<int>
    decreases s.len() + 1 - i,
{
    if i < 0 || i + pat.len() > s.len() {
        None
    } else if occurs_at(s, i, pat, ci) {
        Some(i)
    } else {
        find_from(s, pat, i + 1, ci)
    }
}

/// The first position where `pat` occurs in `s`.
pub open spec fn find(s: Seq<char>, pat: Seq<char>, ci: bool) -> Option<int> {
    find_from(s, pat, 0, ci)
}

pub(crate) fn occurs_in(v: &Vec<char>, i: usize, pat: &Vec<char>, ci: bool) -> (r: bool)
    requires
        i + pat@.len() <= v@.len(),
    ensures
        r == occurs_at(v@, i as int, pat@, ci),
{
    let _n = v.len();
    let mut j: usize = 0;
    while j < pat.len()
        invariant
            i + pat@.len() <= v@.len() <= usize::MAX,
            j <= pat@.len(),
            forall|k: int|
                0 <= k < j ==> if ci {
                    fold_code(v@[i + k]) == pat@[k] as u32
                } else {
                    v@[i + k] == pat@[k]
                },
        decreases pat@.len() - j,
    {
        let same = if ci {
            fold(v[i + j]) == pat[j] as u32
        } else {
            v[i + j] == pat[j]
        };
        if !same {
            assert(v@.subrange(i as int, i + pat@.len())[j as int] == v@[i + j]);
            return false;
        }
        j = j + 1;
    }
    assert(ci ==> folds_to(v@.subrange(i as int, i + pat@.len()), pat@));
    assert(!ci ==> v@.subrange(i as int, i + pat@.len()) =~= pat@);
    true
}

/// A position that `find_from` returns lies at or after `i`, with the whole
/// pattern inside the text.
pub proof fn lemma_find_from_range(s: Seq<char>, pat: Seq<char>, i: int, ci: bool)
    ensures
        find_from(s, pat, i, ci) matches Some(k) ==> i <= k && k + pat.len() <= s.len(),
    decreases s.len() + 1 - i,
{
    if !(i < 0 || i + pat.len() > s.len()) && !occurs_at(s, i, pat, ci) {
        lemma_find_from_range(s, pat, i + 1, ci);
    }
}

proof fn lemma_find_from_shift(v: Seq<char>, lo: int, hi: int, pat: Seq<char>, i: int, ci: bool)
    requires
        0 <= lo <= i <= hi <= v.len(),
    ensures
        find_from(v.subrange(lo, hi), pat, i - lo, ci) == match find_from(
            v.subrange(0, hi),
            pat,
            i,
            ci,
        ) {
            Some(k) => Some(k - lo),
            None => None::<int>,
        },
    decreases hi - i,
{
    let s = v.subrange(lo, hi);
    let t = v.subrange(0, hi);
    if i + pat.len() <= hi {
        assert(s.subrange(i - lo, i - lo + pat.len()) =~= t.subrange(i, i + pat.len()));
        if pat.len() == 0 {
            assert(t.subrange(i, i) =~= pat);
            assert(s.subrange(i - lo, i - lo) =~= pat);
        } else {
            lemma_find_from_shift(v, lo, hi, pat, i + 1, ci);
        }
    }
}

/// The first position at or after `from`, within `v[lo..hi]`, where `pat`
/// occurs, relative to `lo`.
pub(crate) fn find_in(v: &Vec<char>, lo: usize, hi: usize, pat: &Vec<char>, ci: bool) -> (r: Option<
    usize,
>)
    requires
        lo <= hi <= v@.len(),
    ensures
        match find(v@.subrange(lo as int, hi as int), pat@, ci) {
            Some(k) => r == Some((lo + k) as usize) && 0 <= k && lo + k + pat@.len() <= hi,
            None => r is None,
        },
{
    proof {
        lemma_find_from_range(v@.subrange(lo as int, hi as int), pat@, 0, ci);
    }
    let ghost s = v@.subrange(lo as int, hi as int);
    let ghost t = v@.subrange(0, hi as int);
    let mut i = lo;
    proof {
        lemma_find_from_shift(v@, lo as int, hi as int, pat@, lo as int, ci);
    }
    while i <= hi && pat.len() <= hi - i
        invariant
            lo <= i,
            hi <= v@.len(),
            i <= hi + 1,
            s == v@.subrange(lo as int, hi as int),
            t == v@.subrange(0, hi as int),
            find(s, pat@, ci) == match find_from(t, pat@, i as int, ci) {
                Some(k) => Some(k - lo),
                None => None::<int>,
            },
        decreases hi + 1 - i,
    {
        assert(t.subrange(i as int, i + pat@.len()) =~= v@.subrange(i as int, i + pat@.len()));
        if occurs_in(v, i, pat, ci) {
            return Some(i);
        }
        assert(pat@.len() > 0) by {
            if pat@.len() == 0 {
                assert(v@.subrange(i as int, i as int) =~= pat@);
            }
        }
        proof {
            lemma_find_from_shift(v@, lo as int, hi as int, pat@, i + 1, ci);
            lemma_find_from_shift(v@, lo as int, hi as int, pat@, lo as int, ci);
        }
        i = i + 1;
    }
    None
}

/// Whether `a` and `b` are equal up to ASCII case.
pub fn text_eq_ignore_case(a: &str, b: &str) -> (r: bool)
    ensures
        r == eq_ignore_case(a@, b@),
{
    let x = chars_of(a);
    let y = chars_of(b);
    if x.len() != y.len() {
        return false;
    }
    let mut j: usize = 0;
    while j < x.len()
        invariant
            x@ == a@,
            y@ == b@,
            x@.len() == y@.len(),
            j <= x@.len(),
            forall|k: int| 0 <= k < j ==> fold_code(x@[k]) == fold_code(y@[k]),
        decreases x@.len() - j,
    {
        if fold(x[j]) != fold(y[j]) {
            return false;
        }
        j = j + 1;
    }
    true
}

/// The position of the first `c` in `s`, or a position at or past its end.
pub open spec fn first_sep(s: Seq<char>, c: char) -> nat
    decreases s.len(),
{
    if s.len() == 0 || s[0] == c {
        0
    } else {
        1 + first_sep(s.drop_first(), c)
    }
}

/// The position of the first white space in `s`, or a position at or past its end.
pub open spec fn first_ws(s: Seq<char>) -> nat
    decreases s.len(),
{
    if s.len() == 0 || is_ws(s[0]) {
        0
    } else {
        1 + first_ws(s.drop_first())
    }
}

/// The smaller of two integers.
pub open spec fn min_int(a: int, b: int) -> int {
    if a <= b {
        a
    } else {
        b
    }
}

/// The pieces of `s` between occurrences of `c`, as `str::split` gives them.
pub open spec fn split_on(s: Seq<char>, c: char) -> Seq<Seq<char>>
    decreases s.len(),
{
    let k = first_sep(s, c);
    if k >= s.len() {
        seq![s]
    } else {
        seq![s.subrange(0, k as int)] + split_on(s.subrange(k as int + 1, s.len() as int), c)
    }
}

/// The white-space separated words of `s`, as `str::split_whitespace` gives them.
pub open spec fn words(s: Seq<char>) -> Seq<Seq<char>>
    decreases s.len(),
{
    if s.len() == 0 {
        Seq::empty()
    } else if is_ws(s[0]) {
        words(s.drop_first())
    } else {
        let k = min_int(first_ws(s) as int, s.len() as int);
        seq![s.subrange(0, k)] + words(s.subrange(k, s.len() as int))
    }
}

/// The first word of `s`, which is `s` itself when it holds no white space.
pub open spec fn first_word(s: Seq<char>) -> Seq<char> {
    s.subrange(0, min_int(first_ws(s) as int, s.len() as int))
}

/// The last position of `c` in `s`.
pub open spec fn rfind_char(s: Seq<char>, c: char) -> Option<int>
    decreases s.len(),
{
    if s.len() == 0 {
        None
    } else if s.last() == c {
        Some(s.len() - 1)
    } else {
        rfind_char(s.drop_last(), c)
    }
}

/// The pieces of `v` that the bounds `b` mark out.
pub open spec fn pieces(v: Seq<char>, b: Seq<(usize, usize)>) -> Seq<Seq<char>> {
    b.map_values(|p: (usize, usize)| v.subrange(p.0 as int, p.1 as int))
}

proof fn lemma_first_sep(s: Seq<char>, c: char, k: int)
    requires
        0 <= k <= s.len(),
        forall|j: int| 0 <= j < k ==> s[j] != c,
        k == s.len() || s[k] == c,
    ensures
        first_sep(s, c) == k,
    decreases k,
{
    if k > 0 {
        lemma_first_sep(s.drop_first(), c, k - 1);
    }
}

proof fn lemma_first_ws(s: Seq<char>, k: int)
    requires
        0 <= k <= s.len(),
        forall|j: int| 0 <= j < k ==> !is_ws(s[j]),
        k == s.len() || is_ws(s[k]),
    ensures
        first_ws(s) == k,
    decreases k,
{
    if k > 0 {
        lemma_first_ws(s.drop_first(), k - 1);
    }
}

/// The bounds of the pieces of `v[lo..hi]` between occurrences of `c`.
pub(crate) fn split_bounds(v: &Vec<char>, lo: usize, hi: usize, c: char) -> (r: Vec<(usize, usize)>)
    requires
        lo <= hi <= v@.len(),
    ensures
        pieces(v@, r@) == split_on(v@.subrange(lo as int, hi as int), c),
        forall|k: int| 0 <= k < r@.len() ==> lo <= #[trigger] r@[k].0 <= r@[k].1 <= hi,
{
    let mut out: Vec<(usize, usize)> = Vec::new();
    let mut seg = lo;
    let mut i = lo;
    while i < hi
        invariant
            lo <= seg <= i <= hi <= v@.len(),
            forall|j: int| seg <= j < i ==> v@[j] != c,
            split_on(v@.subrange(lo as int, hi as int), c) == pieces(v@, out@) + split_on(
                v@.subrange(seg as int, hi as int),
                c,
            ),
            forall|k: int| 0 <= k < out@.len() ==> lo <= #[trigger] out@[k].0 <= out@[k].1 <= hi,
        decreases hi - i,
    {
        if v[i] == c {
            let ghost s = v@.subrange(seg as int, hi as int);
            proof {
                lemma_first_sep(s, c, i - seg);
                assert(s.subrange(0, i - seg) =~= v@.subrange(seg as int, i as int));
                assert(s.subrange(i - seg + 1, s.len() as int) =~= v@.subrange(i + 1, hi as int));
            }
            let ghost prev = out@;
            out.push((seg, i));
            assert(pieces(v@, out@) =~= pieces(v@, prev).push(v@.subrange(seg as int, i as int)));
            assert(pieces(v@, out@) + split_on(v@.subrange(i + 1, hi as int), c) =~= pieces(
                v@,
                prev,
            ) + split_on(s, c));
            seg = i + 1;
        }
        i = i + 1;
    }
    let ghost s = v@.subrange(seg as int, hi as int);
    proof {
        lemma_first_sep(s, c, hi - seg);
    }
    let ghost prev = out@;
    out.push((seg, hi));
    assert(pieces(v@, out@) =~= pieces(v@, prev) + split_on(s, c));
    out
}

/// The bounds of the white-space separated words of `v[lo..hi]`.
pub(crate) fn word_bounds(v: &Vec<char>, lo: usize, hi: usize) -> (r: Vec<(usize, usize)>)
    requires
        lo <= hi <= v@.len(),
    ensures
        pieces(v@, r@) == words(v@.subrange(lo as int, hi as int)),
        forall|k: int| 0 <= k < r@.len() ==> lo <= #[trigger] r@[k].0 <= r@[k].1 <= hi,
{
    let mut out: Vec<(usize, usize)> = Vec::new();
    let mut i = lo;
    assert(pieces(v@, out@) + words(v@.subrange(lo as int, hi as int)) =~= words(
        v@.subrange(lo as int, hi as int),
    ));
    while i < hi
        invariant
            lo <= i <= hi <= v@.len(),
            words(v@.subrange(lo as int, hi as int)) == pieces(v@, out@) + words(
                v@.subrange(i as int, hi as int),
            ),
            forall|k: int| 0 <= k < out@.len() ==> lo <= #[trigger] out@[k].0 <= out@[k].1 <= hi,
        decreases hi - i,
    {
        let ghost s = v@.subrange(i as int, hi as int);
        if is_whitespace_char(v[i]) {
            assert(s.drop_first() =~= v@.subrange(i + 1, hi as int));
            i = i + 1;
        } else {
            let mut j = i + 1;
            while j < hi && !is_whitespace_char(v[j])
                invariant
                    i < j <= hi <= v@.len(),
                    forall|k: int| i <= k < j ==> !is_ws(v@[k]),
                decreases hi - j,
            {
                j = j + 1;
            }
            proof {
                lemma_first_ws(s, j - i);
                assert(s.subrange(0, j - i) =~= v@.subrange(i as int, j as int));
                assert(s.subrange(j - i, s.len() as int) =~= v@.subrange(j as int, hi as int));
            }
            let ghost prev = out@;
            out.push((i, j));
            assert(pieces(v@, out@) + words(v@.subrange(j as int, hi as int)) =~= pieces(v@, prev)
                + words(s));
            i = j;
        }
    }
    assert(v@.subrange(hi as int, hi as int).len() == 0);
    assert(pieces(v@, out@) + words(v@.subrange(hi as int, hi as int)) =~= pieces(v@, out@));
    out
}

/// The end of the first word of `v[lo..hi]`, as an absolute position.
pub(crate) fn first_word_end(v: &Vec<char>, lo: usize, hi: usize) -> (r: usize)
    requires
        lo <= hi <= v@.len(),
    ensures
        lo <= r <= hi,
        v@.subrange(lo as int, r as int) == first_word(v@.subrange(lo as int, hi as int)),
{
    let ghost s = v@.subrange(lo as int, hi as int);
    let mut j = lo;
    while j < hi && !is_whitespace_char(v[j])
        invariant
            lo <= j <= hi <= v@.len(),
            forall|k: int| lo <= k < j ==> !is_ws(v@[k]),
        decreases hi - j,
    {
        j = j + 1;
    }
    proof {
        lemma_first_ws(s, j - lo);
        assert(s.subrange(0, j - lo) =~= v@.subrange(lo as int, j as int));
    }
    j
}

/// The last position of `c` in `v`.
pub(crate) fn rfind_in(v: &Vec<char>, c: char) -> (r: Option<usize>)
    ensures
        match rfind_char(v@, c) {
            Some(k) => r == Some(k as usize) && 0 <= k < v@.len(),
            None => r is None,
        },
{
    let mut i = v.len();
    assert(v@.subrange(0, i as int) =~= v@);
    while i > 0
        invariant
            i <= v@.len(),
            rfind_char(v@, c) == rfind_char(v@.subrange(0, i as int), c),
        decreases i,
    {
        if v[i - 1] == c {
            return Some(i - 1);
        }
        assert(v@.subrange(0, i as int).drop_last() =~= v@.subrange(0, i - 1));
        i = i - 1;
    }
    None
}

/// What `str::to_lowercase` makes of a text.
pub uninterp spec fn lower_of(s: Seq<char>) -> Seq<char>;

/// Relies on `str::to_lowercase`: the Unicode lower-case form of a text, which
/// depends on its characters alone.
#[verifier::external_body]
pub(crate) fn lowercase(s: &str) -> (r: String)
    ensures
        r@ == lower_of(s@),
{
    s.to_lowercase()
}

/// Whether `pat` occurs in `text`, character for character.
pub fn contains_text(text: &str, pat: &str) -> (r: bool)
    ensures
        r == (find(text@, pat@, false) is Some),
{
    let tv = chars_of(text);
    let pv = chars_of(pat);
    assert(tv@.subrange(0, tv@.len() as int) =~= tv@);
    find_in(&tv, 0, tv.len(), &pv, false).is_some()
}

} // verus!
