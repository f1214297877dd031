//! Browser version comparison.
//!
//! Version strings such as `"1.0.1"` are compared segment by segment, where
//! segments are separated by `.` and ordered by their decimal value. A
//! version with fewer segments is padded with empty segments, which count as
//! zero, so `"1.0"` and `"1.0.0"` compare equal. Segments are compared as
//! unbounded decimal numbers — a segment of any length is handled exactly,
//! without ever computing its value in machine arithmetic.

use vstd::prelude::*;

verus! {

/// The value a character contributes as a decimal digit; a character that is
/// no digit counts as zero.
pub open spec fn digit_value(c: char) -> nat {
    if 48 <= c as u32 && c as u32 <= 57 {
        (c as u32 - 48) as nat
    } else {
        0
    }
}

/// The decimal value of a segment: its characters read as digits, most
/// significant first.
pub open spec fn dec_value(s: Seq<char>) -> nat
    decreases s.len(),
{
    if s.len() == 0 {
        0
    } else {
        10 * dec_value(s.drop_last()) + digit_value(s.last())
    }
}

/// Three-way comparison of two naturals, encoded as -1, 0 or 1.
pub open spec fn cmp_nat(x: nat, y: nat) -> int {
    if x < y {
        -1
    } else if y < x {
        1
    } else {
        0
    }
}

/// Where the first segment of `s` ends: the index of the first `.`, or the
/// length of `s` if it has none.
pub open spec fn seg_end(s: Seq<char>) -> int
    decreases s.len(),
{
    if s.len() == 0 {
        0
    } else if s[0] == '.' {
        0
    } else {
        1 + seg_end(s.skip(1))
    }
}

/// What remains of `s` after its first segment and the `.` that closes it;
/// empty once the last segment is reached.
pub open spec fn seg_tail(s: Seq<char>, e: int) -> Seq<char> {
    if e < s.len() {
        s.skip(e + 1)
    } else {
        Seq::empty()
    }
}

/// Segment-wise numeric comparison of two version strings, encoded as -1, 0
/// or 1: the first segments are compared by decimal value, and on a tie the
/// comparison continues after the `.`, an exhausted side contributing empty
/// segments of value zero, until both sides end together.
pub open spec fn version_cmp(a: Seq<char>, b: Seq<char>) -> int
    decreases a.len() + b.len(),
    via version_cmp_decreases
{
    let ea = seg_end(a);
    let eb = seg_end(b);
    let c = cmp_nat(dec_value(a.take(ea)), dec_value(b.take(eb)));
    if c != 0 {
        c
    } else if ea == a.len() && eb == b.len() {
        0
    } else {
        version_cmp(seg_tail(a, ea), seg_tail(b, eb))
    }
}

#[via_fn]
proof fn version_cmp_decreases(a: Seq<char>, b: Seq<char>) {
    lemma_seg_end_bounds(a);
    lemma_seg_end_bounds(b);
}

/// The first segment ends within the string.
proof fn lemma_seg_end_bounds(s: Seq<char>)
    ensures
        0 <= seg_end(s) <= s.len(),
    decreases s.len(),
{
    if s.len() != 0 && s[0] != '.' {
        lemma_seg_end_bounds(s.skip(1));
    }
}

/// A position with no `.` before it and a `.` (or the end) at it is where
/// the first segment ends.
proof fn lemma_seg_end_at(s: Seq<char>, m: int)
    requires
        0 <= m <= s.len(),
        forall|k: int| 0 <= k < m ==> #[trigger] s[k] != '.',
        m < s.len() ==> s[m] == '.',
    ensures
        seg_end(s) == m,
    decreases m,
{
    if m == 0 {
    } else {
        let s1 = s.skip(1);
        assert(s[0] != '.');
        assert forall|k: int| 0 <= k < m - 1 implies #[trigger] s1[k] != '.' by {
            assert(s1[k] == s[k + 1]);
        }
        assert(m - 1 < s1.len() ==> s1[m - 1] == s[m]);
        lemma_seg_end_at(s1, m - 1);
    }
}

/// Powers of ten.
pub open spec fn pow10(n: nat) -> nat
    decreases n,
{
    if n == 0 {
        1
    } else {
        10 * pow10((n - 1) as nat)
    }
}

proof fn lemma_pow10_mono(m: nat, n: nat)
    requires
        m <= n,
    ensures
        pow10(m) <= pow10(n),
    decreases n,
{
    if m < n {
        lemma_pow10_mono(m, (n - 1) as nat);
    }
}

/// A segment of `n` digits is worth less than `10^n`.
proof fn lemma_dec_upper(s: Seq<char>)
    ensures
        dec_value(s) < pow10(s.len()),
    decreases s.len(),
{
    if s.len() != 0 {
        lemma_dec_upper(s.drop_last());
        assert(digit_value(s.last()) <= 9);
    }
}

/// A segment whose leading character counts is worth at least `10^(n-1)`.
proof fn lemma_dec_lower(s: Seq<char>)
    requires
        s.len() > 0,
        digit_value(s[0]) >= 1,
    ensures
        dec_value(s) >= pow10((s.len() - 1) as nat),
    decreases s.len(),
{
    if s.len() == 1 {
        assert(s.drop_last() =~= Seq::<char>::empty());
    } else {
        assert(s.drop_last()[0] == s[0]);
        lemma_dec_lower(s.drop_last());
    }
}

/// A leading zero does not change a segment's value.
proof fn lemma_dec_strip(s: Seq<char>)
    requires
        s.len() > 0,
        digit_value(s[0]) == 0,
    ensures
        dec_value(s) == dec_value(s.skip(1)),
    decreases s.len(),
{
    if s.len() == 1 {
        assert(s.drop_last() =~= Seq::<char>::empty());
        assert(s.skip(1) =~= Seq::<char>::empty());
    } else {
        let dl = s.drop_last();
        assert(dl[0] == s[0]);
        lemma_dec_strip(dl);
        assert(s.skip(1).drop_last() =~= dl.skip(1));
        assert(s.skip(1).last() == s.last());
    }
}

/// A segment's value splits into its leading digit's contribution and the
/// value of the rest.
proof fn lemma_dec_front(s: Seq<char>)
    requires
        s.len() > 0,
    ensures
        dec_value(s) == digit_value(s[0]) * pow10((s.len() - 1) as nat) + dec_value(s.skip(1)),
    decreases s.len(),
{
    if s.len() == 1 {
        assert(s.drop_last() =~= Seq::<char>::empty());
        assert(s.skip(1) =~= Seq::<char>::empty());
        assert(dec_value(s.drop_last()) == 0);
        assert(dec_value(s.skip(1)) == 0);
        assert(pow10(0) == 1);
        assert(s.last() == s[0]);
        assert(dec_value(s) == 10 * dec_value(s.drop_last()) + digit_value(s.last()));
    } else {
        let dl = s.drop_last();
        assert(dl[0] == s[0]);
        lemma_dec_front(dl);
        assert(s.skip(1).drop_last() =~= dl.skip(1));
        assert(s.skip(1).last() == s.last());
        let d0 = digit_value(s[0]);
        let p = pow10((s.len() - 2) as nat);
        let r = dec_value(dl.skip(1));
        assert(dec_value(s) == 10 * dec_value(dl) + digit_value(s.last()));
        assert(dec_value(dl) == d0 * p + r);
        assert(dec_value(s.skip(1)) == 10 * r + digit_value(s.last()));
        assert(10 * (d0 * p + r) == d0 * (10 * p) + 10 * r) by (nonlinear_arith);
        assert(pow10((s.len() - 1) as nat) == 10 * p);
    }
}

/// Segments of equal length with pairwise equal digits have equal value.
proof fn lemma_dec_eq(a: Seq<char>, b: Seq<char>)
    requires
        a.len() == b.len(),
        forall|m: int| 0 <= m < a.len() ==> digit_value(#[trigger] a[m]) == digit_value(b[m]),
    ensures
        dec_value(a) == dec_value(b),
    decreases a.len(),
{
    if a.len() != 0 {
        let da = a.drop_last();
        let db = b.drop_last();
        assert forall|m: int| 0 <= m < da.len() implies digit_value(#[trigger] da[m])
            == digit_value(db[m]) by {
            assert(da[m] == a[m]);
            assert(db[m] == b[m]);
            assert(digit_value(a[m]) == digit_value(b[m]));
        }
        lemma_dec_eq(da, db);
        assert(digit_value(a[a.len() - 1]) == digit_value(b[b.len() - 1]));
    }
}

/// Between segments of equal length, the first differing digit decides: the
/// side with the smaller digit there has the smaller value.
proof fn lemma_dec_lex_lt(a: Seq<char>, b: Seq<char>, k: int)
    requires
        a.len() == b.len(),
        0 <= k < a.len(),
        forall|m: int| 0 <= m < k ==> digit_value(#[trigger] a[m]) == digit_value(b[m]),
        digit_value(a[k]) < digit_value(b[k]),
    ensures
        dec_value(a) < dec_value(b),
    decreases k,
{
    lemma_dec_front(a);
    lemma_dec_front(b);
    let p = pow10((a.len() - 1) as nat);
    if k == 0 {
        lemma_dec_upper(a.skip(1));
        let da = digit_value(a[0]);
        let db = digit_value(b[0]);
        assert(dec_value(a.skip(1)) < p);
        assert(da * p + p == (da + 1) * p) by (nonlinear_arith);
        assert((da + 1) * p <= db * p) by (nonlinear_arith)
            requires
                da + 1 <= db,
                p >= 0,
        ;
    } else {
        assert(digit_value(a[0]) == digit_value(b[0]));
        let a1 = a.skip(1);
        let b1 = b.skip(1);
        assert forall|m: int| 0 <= m < k - 1 implies digit_value(#[trigger] a1[m])
            == digit_value(b1[m]) by {
            assert(a1[m] == a[m + 1]);
            assert(b1[m] == b[m + 1]);
            assert(digit_value(a[m + 1]) == digit_value(b[m + 1]));
        }
        assert(a1[k - 1] == a[k]);
        assert(b1[k - 1] == b[k]);
        lemma_dec_lex_lt(a1, b1, k - 1);
    }
}

/// The characters of a string, in order.
fn chars_of(s: &str) -> (v: Vec<char>)
    ensures
        v@ == s@,
{
    let n = s.unicode_len();
    let mut v: Vec<char> = Vec::new();
    let mut k: usize = 0;
    while k < n
        invariant
            k <= n,
            n as nat == s@.len(),
            v@ == s@.take(k as int),
        decreases n - k,
    {
        let c = s.get_char(k);
        v.push(c);
        k = k + 1;
        proof {
            assert(v@ =~= s@.take(k as int));
        }
    }
    proof {
        assert(s@.take(n as int) =~= s@);
    }
    v
}

/// The decimal digit a character stands for, with zero for anything else.
fn digit_of(c: char) -> (d: u8)
    ensures
        d as nat == digit_value(c),
{
    let u = c as u32;
    if 48 <= u && u <= 57 {
        (u - 48) as u8
    } else {
        0
    }
}

/// The index at which the segment starting at `start` ends: the first `.` at
/// or after `start`, or the end of the text.
fn seg_boundary(v: &Vec<char>, start: usize) -> (e: usize)
    requires
        start <= v@.len(),
    ensures
        start <= e <= v@.len(),
        e - start == seg_end(v@.skip(start as int)),
{
    let mut e = start;
    while e < v.len() && v[e] != '.'
        invariant
            start <= e <= v@.len(),
            forall|k: int| start <= k < e ==> #[trigger] v@[k] != '.',
        decreases v@.len() - e,
    {
        e = e + 1;
    }
    proof {
        let s = v@.skip(start as int);
        let m = e - start;
        assert forall|k: int| 0 <= k < m implies #[trigger] s[k] != '.' by {
            assert(s[k] == v@[k + start]);
        }
        assert(m < s.len() ==> s[m] == v@[e as int]);
        lemma_seg_end_at(s, m);
    }
    e
}

/// Numeric three-way comparison of the segment `v[s1..e1]` against the
/// segment `w[s2..e2]`, by decimal value and without machine arithmetic on
/// the values: leading zeros are skipped, then a longer remainder wins, then
/// the first differing digit decides.
fn compare_segments(v: &Vec<char>, s1: usize, e1: usize, w: &Vec<char>, s2: usize, e2: usize) -> (c:
    i32)
    requires
        s1 <= e1 <= v@.len(),
        s2 <= e2 <= w@.len(),
    ensures
        c == cmp_nat(
            dec_value(v@.subrange(s1 as int, e1 as int)),
            dec_value(w@.subrange(s2 as int, e2 as int)),
        ),
{
    let ghost a0 = v@.subrange(s1 as int, e1 as int);
    let ghost b0 = w@.subrange(s2 as int, e2 as int);
    let mut i = s1;
    while i < e1 && digit_of(v[i]) == 0
        invariant
            s1 <= i <= e1 <= v@.len(),
            a0 == v@.subrange(s1 as int, e1 as int),
            dec_value(v@.subrange(i as int, e1 as int)) == dec_value(a0),
        decreases e1 - i,
    {
        proof {
            let s = v@.subrange(i as int, e1 as int);
            assert(s[0] == v@[i as int]);
            lemma_dec_strip(s);
            assert(s.skip(1) =~= v@.subrange(i as int + 1, e1 as int));
        }
        i = i + 1;
    }
    let mut j = s2;
    while j < e2 && digit_of(w[j]) == 0
        invariant
            s2 <= j <= e2 <= w@.len(),
            b0 == w@.subrange(s2 as int, e2 as int),
            dec_value(w@.subrange(j as int, e2 as int)) == dec_value(b0),
        decreases e2 - j,
    {
        proof {
            let s = w@.subrange(j as int, e2 as int);
            assert(s[0] == w@[j as int]);
            lemma_dec_strip(s);
            assert(s.skip(1) =~= w@.subrange(j as int + 1, e2 as int));
        }
        j = j + 1;
    }
    let ghost a = v@.subrange(i as int, e1 as int);
    let ghost b = w@.subrange(j as int, e2 as int);
    let la = e1 - i;
    let lb = e2 - j;
    if la < lb {
        proof {
            assert(b[0] == w@[j as int]);
            assert(digit_value(b[0]) >= 1);
            lemma_dec_upper(a);
            lemma_pow10_mono(a.len(), (b.len() - 1) as nat);
            lemma_dec_lower(b);
        }
        return -1;
    }
    if lb < la {
        proof {
            assert(a[0] == v@[i as int]);
            assert(digit_value(a[0]) >= 1);
            lemma_dec_upper(b);
            lemma_pow10_mono(b.len(), (a.len() - 1) as nat);
            lemma_dec_lower(a);
        }
        return 1;
    }
    let mut k: usize = 0;
    while k < la
        invariant
            la == lb,
            s1 <= i <= e1 <= v@.len(),
            s2 <= j <= e2 <= w@.len(),
            la == e1 - i,
            lb == e2 - j,
            a == v@.subrange(i as int, e1 as int),
            b == w@.subrange(j as int, e2 as int),
            a0 == v@.subrange(s1 as int, e1 as int),
            b0 == w@.subrange(s2 as int, e2 as int),
            dec_value(a) == dec_value(a0),
            dec_value(b) == dec_value(b0),
            k <= la,
            forall|m: int| 0 <= m < k ==> digit_value(#[trigger] a[m]) == digit_value(b[m]),
        decreases la - k,
    {
        let da = digit_of(v[i + k]);
        let db = digit_of(w[j + k]);
        proof {
            assert(a[k as int] == v@[i as int + k]);
            assert(b[k as int] == w@[j as int + k]);
        }
        if da < db {
            proof {
                lemma_dec_lex_lt(a, b, k as int);
            }
            return -1;
        }
        if db < da {
            proof {
                lemma_dec_lex_lt(b, a, k as int);
            }
            return 1;
        }
        k = k + 1;
    }
    proof {
        lemma_dec_eq(a, b);
    }
    0
}

/// Compares two browser version strings, returning `-1`, `0` or `1` as the
/// first is numerically below, equal to, or above the second.
pub fn compare_browser_versions(version1: &str, version2: &str) -> (c: i32)
    ensures
        c == version_cmp(version1@, version2@),
{
    let v = chars_of(version1);
    let w = chars_of(version2);
    let mut i: usize = 0;
    let mut j: usize = 0;
    proof {
        assert(v@.skip(0) =~= v@);
        assert(w@.skip(0) =~= w@);
    }
    loop
        invariant
            i <= v.len(),
            j <= w.len(),
            v@ == version1@,
            w@ == version2@,
            version_cmp(version1@, version2@) == version_cmp(
                v@.skip(i as int),
                w@.skip(j as int),
            ),
        decreases v@.len() - i + w@.len() - j + 1,
    {
        let ghost va = v@.skip(i as int);
        let ghost wa = w@.skip(j as int);
        let e1 = seg_boundary(&v, i);
        let e2 = seg_boundary(&w, j);
        proof {
            assert(va.take(e1 - i) =~= v@.subrange(i as int, e1 as int));
            assert(wa.take(e2 - j) =~= w@.subrange(j as int, e2 as int));
        }
        let c = compare_segments(&v, i, e1, &w, j, e2);
        if c != 0 {
            return c;
        }
        if e1 == v.len() && e2 == w.len() {
            return 0;
        }
        proof {
            if e1 < v.len() {
                assert(seg_tail(va, e1 - i) =~= v@.skip(e1 as int + 1));
            } else {
                assert(seg_tail(va, e1 - i) =~= v@.skip(v@.len() as int));
            }
            if e2 < w.len() {
                assert(seg_tail(wa, e2 - j) =~= w@.skip(e2 as int + 1));
            } else {
                assert(seg_tail(wa, e2 - j) =~= w@.skip(w@.len() as int));
            }
        }
        i = if e1 < v.len() {
            e1 + 1
        } else {
            e1
        };
        j = if e2 < w.len() {
            e2 + 1
        } else {
            e2
        };
    }
}

} // verus!
