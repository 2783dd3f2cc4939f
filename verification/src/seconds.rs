//! A number of seconds as `str::parse::<f64>` accepts it (an optional sign, then `inf`,
//! `infinity` or `nan` in any case, or digits with an optional `.` and an optional exponent), in
//! whole milliseconds as a float's cast to `u64` gives them: negative and not-a-number are 0,
//! infinite and too large are `u64::MAX`.
//!
//! The value is taken exactly, as a decimal. Where a float's rounding would land it on the other
//! side of a whole millisecond (`1.005` is `1.00499…` as a float, so 1004 there and 1005 here, and
//! past 2^53 milliseconds a float no longer holds every whole number) the result differs by that.
use vstd::prelude::*;

use crate::text::{all_digits, decimal_value, digit_value, find_char, find_char_in, is_digit, lemma_find_char};

verus! {

/// `c` is the letter `l` in either case (`u` being its capital).
pub open spec fn ci(c: char, l: char, u: char) -> bool {
    c == l || c == u
}

/// `inf` or `infinity`, in any case.
pub open spec fn is_inf(b: Seq<char>) -> bool {
    (b.len() == 3 || b.len() == 8) && ci(b[0], 'i', 'I') && ci(b[1], 'n', 'N') && ci(b[2], 'f', 'F')
        && (b.len() == 8 ==> ci(b[3], 'i', 'I') && ci(b[4], 'n', 'N') && ci(b[5], 'i', 'I') && ci(
        b[6],
        't',
        'T',
    ) && ci(b[7], 'y', 'Y'))
}

/// `nan`, in any case.
pub open spec fn is_nan(b: Seq<char>) -> bool {
    b.len() == 3 && ci(b[0], 'n', 'N') && ci(b[1], 'a', 'A') && ci(b[2], 'n', 'N')
}

/// Where the exponent marker (`e` or `E`) is: the first of either.
pub open spec fn exp_at(b: Seq<char>) -> Option<int> {
    match (find_char(b, 'e'), find_char(b, 'E')) {
        (Some(i), Some(j)) => Some(if i < j { i } else { j }),
        (Some(i), None) => Some(i),
        (None, Some(j)) => Some(j),
        (None, None) => None,
    }
}

/// An exponent: an optional sign and at least one digit.
pub open spec fn exp_value(t: Seq<char>) -> Option<int> {
    let neg = t.len() > 0 && t[0] == '-';
    let d = if t.len() > 0 && (t[0] == '+' || t[0] == '-') {
        t.drop_first()
    } else {
        t
    };
    if d.len() > 0 && all_digits(d) {
        Some(
            if neg {
                -decimal_value(d)
            } else {
                decimal_value(d)
            },
        )
    } else {
        None
    }
}

pub open spec fn pow10(n: nat) -> int
    decreases n,
{
    if n == 0 {
        1
    } else {
        10 * pow10((n - 1) as nat)
    }
}

/// The whole number made of the digits `d` with the decimal point after the first `p` of them:
/// their leading part, or all of them followed by zeros.
pub open spec fn shifted(d: Seq<char>, p: int) -> int {
    if p <= 0 {
        0
    } else if p <= d.len() {
        decimal_value(d.take(p))
    } else {
        decimal_value(d) * pow10((p - d.len()) as nat)
    }
}

/// A non-negative whole number as a `u64`, the largest one when it does not fit.
pub open spec fn cap_u64(v: int) -> u64 {
    if v > u64::MAX {
        u64::MAX
    } else {
        v as u64
    }
}

/// A mantissa `m` (digits with an optional `.`) under the exponent `e`, as whole milliseconds;
/// `None` when `m` is not a mantissa.
pub open spec fn mantissa_ms(m: Seq<char>, e: int, neg: bool) -> Option<u64> {
    let ip = match find_char(m, '.') {
        Some(d) => m.take(d),
        None => m,
    };
    let fp = match find_char(m, '.') {
        Some(d) => m.skip(d + 1),
        None => Seq::<char>::empty(),
    };
    if ip.len() + fp.len() > 0 && all_digits(ip) && all_digits(fp) {
        if neg {
            Some(0)
        } else {
            Some(cap_u64(shifted(ip + fp, ip.len() + e + 3)))
        }
    } else {
        None
    }
}

/// An unsigned finite number `b` (its sign was `-` when `neg`) as whole milliseconds.
pub open spec fn number_ms(b: Seq<char>, neg: bool) -> Option<u64> {
    match exp_at(b) {
        Some(k) => match exp_value(b.skip(k + 1)) {
            Some(e) => mantissa_ms(b.take(k), e, neg),
            None => None,
        },
        None => mantissa_ms(b, 0, neg),
    }
}

/// Seconds as whole milliseconds, rounded down; `None` when the text is not a number.
pub open spec fn seconds_ms(s: Seq<char>) -> Option<u64> {
    let neg = s.len() > 0 && s[0] == '-';
    let b = if s.len() > 0 && (s[0] == '+' || s[0] == '-') {
        s.drop_first()
    } else {
        s
    };
    if is_inf(b) {
        Some(
            if neg {
                0
            } else {
                u64::MAX
            },
        )
    } else if is_nan(b) {
        Some(0)
    } else {
        number_ms(b, neg)
    }
}

// --- proofs --------------------------------------------------------------------------------------
/// 2^64: one past `u64::MAX`.
pub open spec fn capv(x: int) -> int {
    if x < 0x1_0000_0000_0000_0000 {
        x
    } else {
        0x1_0000_0000_0000_0000
    }
}

proof fn lemma_pow10_pos(n: nat)
    ensures
        pow10(n) >= 1,
    decreases n,
{
    if n > 0 {
        lemma_pow10_pos((n - 1) as nat);
    }
}

proof fn lemma_pow10_mono(a: nat, b: nat)
    requires
        a <= b,
    ensures
        pow10(a) <= pow10(b),
    decreases b,
{
    if a < b {
        lemma_pow10_mono(a, (b - 1) as nat);
        lemma_pow10_pos((b - 1) as nat);
    }
}

proof fn lemma_pow10_big(n: nat)
    requires
        n >= 20,
    ensures
        pow10(n) >= 0x1_0000_0000_0000_0000,
{
    reveal_with_fuel(pow10, 21);
    assert(pow10(20) == 100000000000000000000);
    lemma_pow10_mono(20, n);
}

proof fn lemma_decimal_nonneg_all(d: Seq<char>)
    requires
        all_digits(d),
    ensures
        decimal_value(d) >= 0,
    decreases d.len(),
{
    if d.len() > 0 {
        let p = d.drop_last();
        assert(all_digits(p)) by {
            assert forall|j: int| 0 <= j < p.len() implies is_digit(#[trigger] p[j]) by {
                assert(p[j] == d[j]);
            }
        }
        lemma_decimal_nonneg_all(p);
        assert(is_digit(d[d.len() - 1]));
    }
}

/// Shifting by more than the digits and twenty places past them, or by nothing, gives the same
/// capped result whatever the exact shift.
proof fn lemma_far_shift(d: Seq<char>, p: int, q: int)
    requires
        all_digits(d),
        (p <= 0 && q <= 0) || (p >= d.len() + 20 && q >= d.len() + 20),
    ensures
        cap_u64(shifted(d, p)) == cap_u64(shifted(d, q)),
{
    if p > 0 {
        let x = decimal_value(d);
        lemma_decimal_nonneg_all(d);
        lemma_pow10_big((p - d.len()) as nat);
        lemma_pow10_big((q - d.len()) as nat);
        let a = pow10((p - d.len()) as nat);
        let b = pow10((q - d.len()) as nat);
        if x == 0 {
            assert(x * a == 0 && x * b == 0) by (nonlinear_arith)
                requires
                    x == 0,
            ;
        } else {
            assert(x * a >= a) by (nonlinear_arith)
                requires
                    x >= 1,
                    a >= 1,
            ;
            assert(x * b >= b) by (nonlinear_arith)
                requires
                    x >= 1,
                    b >= 1,
            ;
        }
    }
}

// --- the code ------------------------------------------------------------------------------------
fn ci_char(c: char, l: char, u: char) -> (r: bool)
    ensures
        r == ci(c, l, u),
{
    c == l || c == u
}

/// Whether `s[lo..hi]` is `inf` or `infinity`, in any case.
fn inf_at(s: &[char], lo: usize, hi: usize) -> (r: bool)
    requires
        lo <= hi <= s@.len(),
    ensures
        r == is_inf(s@.subrange(lo as int, hi as int)),
{
    let n = hi - lo;
    if n != 3 && n != 8 {
        return false;
    }
    let head = ci_char(s[lo], 'i', 'I') && ci_char(s[lo + 1], 'n', 'N') && ci_char(
        s[lo + 2],
        'f',
        'F',
    );
    let tail = n == 3 || (ci_char(s[lo + 3], 'i', 'I') && ci_char(s[lo + 4], 'n', 'N') && ci_char(
        s[lo + 5],
        'i',
        'I',
    ) && ci_char(s[lo + 6], 't', 'T') && ci_char(s[lo + 7], 'y', 'Y'));
    head && tail
}

/// Whether `s[lo..hi]` is `nan`, in any case.
fn nan_at(s: &[char], lo: usize, hi: usize) -> (r: bool)
    requires
        lo <= hi <= s@.len(),
    ensures
        r == is_nan(s@.subrange(lo as int, hi as int)),
{
    hi - lo == 3 && ci_char(s[lo], 'n', 'N') && ci_char(s[lo + 1], 'a', 'A') && ci_char(
        s[lo + 2],
        'n',
        'N',
    )
}

/// Whether `s[lo..hi]` is all digits.
fn digits_at(s: &[char], lo: usize, hi: usize) -> (r: bool)
    requires
        lo <= hi <= s@.len(),
    ensures
        r == all_digits(s@.subrange(lo as int, hi as int)),
{
    let mut i = lo;
    while i < hi
        invariant
            lo <= i <= hi <= s@.len(),
            forall|j: int| lo <= j < i ==> is_digit(#[trigger] s@[j]),
        decreases hi - i,
    {
        if !('0' <= s[i] && s[i] <= '9') {
            assert(s@.subrange(lo as int, hi as int)[i - lo] == s@[i as int]);
            return false;
        }
        i = i + 1;
    }
    assert forall|j: int| 0 <= j < hi - lo implies is_digit(
        #[trigger] s@.subrange(lo as int, hi as int)[j],
    ) by {
        assert(s@.subrange(lo as int, hi as int)[j] == s@[lo + j]);
    }
    true
}

/// The largest exponent magnitude that is kept exactly: past it the result no longer depends on
/// the exponent's size.
pub const EXP_CAP: u128 = 0x40_0000_0000_0000_0000;

/// The digits `s[lo..hi]` as a number, capped at [`EXP_CAP`].
fn capped_exponent(s: &[char], lo: usize, hi: usize) -> (r: u128)
    requires
        lo <= hi <= s@.len(),
        all_digits(s@.subrange(lo as int, hi as int)),
    ensures
        r == (if decimal_value(s@.subrange(lo as int, hi as int)) < EXP_CAP {
            decimal_value(s@.subrange(lo as int, hi as int))
        } else {
            EXP_CAP as int
        }),
{
    let mut acc: u128 = 0;
    let mut i = lo;
    assert(s@.subrange(lo as int, lo as int) =~= Seq::<char>::empty());
    while i < hi
        invariant
            lo <= i <= hi <= s@.len(),
            all_digits(s@.subrange(lo as int, hi as int)),
            acc == (if decimal_value(s@.subrange(lo as int, i as int)) < EXP_CAP {
                decimal_value(s@.subrange(lo as int, i as int))
            } else {
                EXP_CAP as int
            }),
        decreases hi - i,
    {
        let ghost pre = s@.subrange(lo as int, i as int);
        let ghost post = s@.subrange(lo as int, i + 1);
        assert(post.drop_last() =~= pre);
        assert(s@.subrange(lo as int, hi as int)[i - lo] == s@[i as int]);
        let c = s[i];
        let d = (c as u32 - '0' as u32) as u128;
        proof {
            assert(all_digits(pre)) by {
                assert forall|j: int| 0 <= j < pre.len() implies is_digit(#[trigger] pre[j]) by {
                    assert(pre[j] == s@.subrange(lo as int, hi as int)[j]);
                }
            }
            lemma_decimal_nonneg_all(pre);
            assert(decimal_value(post) == decimal_value(pre) * 10 + d);
        }
        let a = acc * 10 + d;
        acc = if a < EXP_CAP {
            a
        } else {
            EXP_CAP
        };
        i = i + 1;
    }
    acc
}

/// `cap_u64(shifted(d, p))` for the digits `d = s[b0..ie] + s[fs..me]`.
fn shifted_at(s: &[char], b0: usize, ie: usize, fs: usize, me: usize, p: i128) -> (r: u64)
    requires
        b0 <= ie <= fs <= me <= s@.len(),
        all_digits(s@.subrange(b0 as int, ie as int)),
        all_digits(s@.subrange(fs as int, me as int)),
    ensures
        r == cap_u64(shifted(s@.subrange(b0 as int, ie as int) + s@.subrange(fs as int, me as int), p as int)),
{
    let ghost d = s@.subrange(b0 as int, ie as int) + s@.subrange(fs as int, me as int);
    let n1 = ie - b0;
    let n = n1 + (me - fs);
    assert(all_digits(d)) by {
        assert forall|j: int| 0 <= j < d.len() implies is_digit(#[trigger] d[j]) by {
            if j < n1 {
                assert(d[j] == s@.subrange(b0 as int, ie as int)[j]);
            } else {
                assert(d[j] == s@.subrange(fs as int, me as int)[j - n1]);
            }
        }
    }
    if p <= 0 {
        return 0;
    }
    let q: usize = if p < n as i128 {
        p as usize
    } else {
        n
    };
    let mut acc: u128 = 0;
    let mut j: usize = 0;
    assert(d.take(0) =~= Seq::<char>::empty());
    while j < q
        invariant
            q <= n,
            n == d.len(),
            n1 == ie - b0,
            b0 <= ie <= fs <= me <= s@.len(),
            d == s@.subrange(b0 as int, ie as int) + s@.subrange(fs as int, me as int),
            all_digits(d),
            j <= q,
            acc == capv(decimal_value(d.take(j as int))),
        decreases q - j,
    {
        let c = if j < n1 {
            s[b0 + j]
        } else {
            s[fs + (j - n1)]
        };
        assert(c == d[j as int]);
        assert(is_digit(d[j as int]));
        let dv = (c as u32 - '0' as u32) as u128;
        proof {
            let pre = d.take(j as int);
            let post = d.take(j + 1);
            assert(post.drop_last() =~= pre);
            assert(post.last() == c);
            assert(all_digits(pre)) by {
                assert forall|k: int| 0 <= k < pre.len() implies is_digit(#[trigger] pre[k]) by {
                    assert(pre[k] == d[k]);
                }
            }
            lemma_decimal_nonneg_all(pre);
            assert(decimal_value(post) == decimal_value(pre) * 10 + dv);
        }
        let a = acc * 10 + dv;
        acc = if a < 0x1_0000_0000_0000_0000 {
            a
        } else {
            0x1_0000_0000_0000_0000
        };
        j = j + 1;
    }
    if p <= n as i128 {
        return if acc >= 0x1_0000_0000_0000_0000 {
            u64::MAX
        } else {
            acc as u64
        };
    }
    assert(d.take(n as int) =~= d);
    let ghost x = decimal_value(d);
    proof {
        lemma_decimal_nonneg_all(d);
    }
    let extra: i128 = p - n as i128;
    let mut i: i128 = 0;
    assert(pow10(0) == 1);
    while i < extra && acc != 0 && acc < 0x1_0000_0000_0000_0000
        invariant
            0 <= i <= extra,
            x >= 0,
            acc == capv(x * pow10(i as nat)),
        decreases extra - i,
    {
        proof {
            lemma_pow10_pos(i as nat);
            assert(pow10((i + 1) as nat) == 10 * pow10(i as nat));
            assert(x * pow10((i + 1) as nat) == (x * pow10(i as nat)) * 10) by (nonlinear_arith)
                requires
                    pow10((i + 1) as nat) == 10 * pow10(i as nat),
            ;
        }
        let a = acc * 10;
        acc = if a < 0x1_0000_0000_0000_0000 {
            a
        } else {
            0x1_0000_0000_0000_0000
        };
        i = i + 1;
    }
    proof {
        let k = (p - n) as nat;
        lemma_pow10_pos(i as nat);
        lemma_pow10_mono(i as nat, k);
        let a = pow10(i as nat);
        let b = pow10(k);
        if acc == 0 {
            assert(x == 0) by (nonlinear_arith)
                requires
                    x >= 0,
                    a >= 1,
                    x * a == 0,
            ;
            assert(x * b == 0) by (nonlinear_arith)
                requires
                    x == 0,
            ;
        } else if acc >= 0x1_0000_0000_0000_0000 {
            assert(x * b >= x * a) by (nonlinear_arith)
                requires
                    x >= 0,
                    a <= b,
            ;
        }
    }
    if acc >= 0x1_0000_0000_0000_0000 {
        u64::MAX
    } else {
        acc as u64
    }
}

/// Where the exponent marker of `s[lo..hi]` is, as an index into `s`.
fn exp_marker(s: &[char], lo: usize, hi: usize) -> (r: Option<usize>)
    requires
        lo <= hi <= s@.len(),
    ensures
        match exp_at(s@.subrange(lo as int, hi as int)) {
            Some(x) => r == Some((lo + x) as usize) && 0 <= x < hi - lo,
            None => r is None,
        },
{
    let ghost b = s@.subrange(lo as int, hi as int);
    proof {
        lemma_find_char(b, 'e');
        lemma_find_char(b, 'E');
    }
    let e1 = find_char_in(s, lo, hi, 'e');
    let e2 = find_char_in(s, lo, hi, 'E');
    match (e1, e2) {
        (Some(i), Some(j)) => Some(
            if i < j {
                i
            } else {
                j
            },
        ),
        (Some(i), None) => Some(i),
        (None, Some(j)) => Some(j),
        (None, None) => None,
    }
}

/// The exponent `s[lo..hi]`: `None` when it is not one; else its value, exact when the flag is
/// off, and `EXP_CAP` with its sign when the flag is on and the value is at least that large.
fn exponent_at(s: &[char], lo: usize, hi: usize) -> (r: Option<(i128, bool)>)
    requires
        lo <= hi <= s@.len(),
    ensures
        r is None <==> exp_value(s@.subrange(lo as int, hi as int)) is None,
        r matches Some((ev, big)) ==> {
            let x = exp_value(s@.subrange(lo as int, hi as int))->0;
            &&& !big ==> ev == x
            &&& big ==> (x >= EXP_CAP && ev == EXP_CAP) || (x <= -EXP_CAP && ev == -EXP_CAP)
            &&& -EXP_CAP <= ev <= EXP_CAP
        },
{
    let ghost t = s@.subrange(lo as int, hi as int);
    let neg = lo < hi && s[lo] == '-';
    let d0 = if lo < hi && (s[lo] == '+' || s[lo] == '-') {
        lo + 1
    } else {
        lo
    };
    assert(s@.subrange(d0 as int, hi as int) =~= if t.len() > 0 && (t[0] == '+' || t[0] == '-') {
        t.drop_first()
    } else {
        t
    });
    if d0 < hi && digits_at(s, d0, hi) {
        let c = capped_exponent(s, d0, hi);
        let ev: i128 = if neg {
            -(c as i128)
        } else {
            c as i128
        };
        Some((ev, c >= EXP_CAP))
    } else {
        None
    }
}

/// Where the integer digits of the mantissa `s[lo..hi]` end and its fraction digits start.
fn mantissa_at(s: &[char], lo: usize, hi: usize) -> (r: (usize, usize))
    requires
        lo <= hi <= s@.len(),
    ensures
        lo <= r.0 <= r.1 <= hi,
        s@.subrange(lo as int, r.0 as int) == match find_char(s@.subrange(lo as int, hi as int), '.') {
            Some(d) => s@.subrange(lo as int, hi as int).take(d),
            None => s@.subrange(lo as int, hi as int),
        },
        s@.subrange(r.1 as int, hi as int) == match find_char(s@.subrange(lo as int, hi as int), '.') {
            Some(d) => s@.subrange(lo as int, hi as int).skip(d + 1),
            None => Seq::<char>::empty(),
        },
{
    let ghost m = s@.subrange(lo as int, hi as int);
    proof {
        lemma_find_char(m, '.');
    }
    match find_char_in(s, lo, hi, '.') {
        Some(d) => {
            assert(m.take(d - lo) =~= s@.subrange(lo as int, d as int));
            assert(m.skip(d - lo + 1) =~= s@.subrange(d + 1, hi as int));
            (d, d + 1)
        },
        None => {
            assert(s@.subrange(hi as int, hi as int) =~= Seq::<char>::empty());
            assert(m =~= s@.subrange(lo as int, hi as int));
            (hi, hi)
        },
    }
}

/// The mantissa `s[lo..hi]` under an exponent `e`, given as `ev`: `e` itself, or, when `big`, a
/// value as far out as `e` on the same side.
fn mantissa_ms_at(s: &[char], lo: usize, hi: usize, ev: i128, big: bool, neg: bool, Ghost(e): Ghost<int>) -> (r: Option<u64>)
    requires
        lo <= hi <= s@.len(),
        -EXP_CAP <= ev <= EXP_CAP,
        !big ==> ev == e,
        big ==> (e >= EXP_CAP && ev == EXP_CAP) || (e <= -EXP_CAP && ev == -EXP_CAP),
    ensures
        r == mantissa_ms(s@.subrange(lo as int, hi as int), e, neg),
{
    let (ie, fs) = mantissa_at(s, lo, hi);
    if (ie - lo) + (hi - fs) == 0 {
        return None;
    }
    if !digits_at(s, lo, ie) || !digits_at(s, fs, hi) {
        return None;
    }
    if neg {
        return Some(0);
    }
    let p: i128 = (ie - lo) as i128 + ev + 3;
    let r = shifted_at(s, lo, ie, fs, hi, p);
    proof {
        let d = s@.subrange(lo as int, ie as int) + s@.subrange(fs as int, hi as int);
        if big {
            assert(all_digits(d)) by {
                assert forall|j: int| 0 <= j < d.len() implies is_digit(#[trigger] d[j]) by {
                    if j < ie - lo {
                        assert(d[j] == s@.subrange(lo as int, ie as int)[j]);
                    } else {
                        assert(d[j] == s@.subrange(fs as int, hi as int)[j - (ie - lo)]);
                    }
                }
            }
            lemma_far_shift(d, p as int, (ie - lo) + e + 3);
        }
    }
    Some(r)
}

/// The unsigned finite number `s[lo..hi]`, as `number_ms` reads it.
fn number_ms_at(s: &[char], lo: usize, hi: usize, neg: bool) -> (r: Option<u64>)
    requires
        lo <= hi <= s@.len(),
    ensures
        r == number_ms(s@.subrange(lo as int, hi as int), neg),
{
    let ghost b = s@.subrange(lo as int, hi as int);
    match exp_marker(s, lo, hi) {
        Some(x) => {
            assert(b.take(x - lo) =~= s@.subrange(lo as int, x as int));
            assert(b.skip(x - lo + 1) =~= s@.subrange(x + 1, hi as int));
            match exponent_at(s, x + 1, hi) {
                None => None,
                Some((ev, big)) => {
                    let ghost e = exp_value(s@.subrange(x + 1, hi as int))->0;
                    mantissa_ms_at(s, lo, x, ev, big, neg, Ghost(e))
                },
            }
        },
        None => mantissa_ms_at(s, lo, hi, 0, false, neg, Ghost(0int)),
    }
}

/// Seconds in `s[lo..hi]` as milliseconds, as `seconds_ms` reads them.
pub fn seconds_ms_at(s: &[char], lo: usize, hi: usize) -> (r: Option<u64>)
    requires
        lo <= hi <= s@.len(),
    ensures
        r == seconds_ms(s@.subrange(lo as int, hi as int)),
{
    let ghost t = s@.subrange(lo as int, hi as int);
    let neg = lo < hi && s[lo] == '-';
    let b0 = if lo < hi && (s[lo] == '+' || s[lo] == '-') {
        lo + 1
    } else {
        lo
    };
    assert(s@.subrange(b0 as int, hi as int) =~= if t.len() > 0 && (t[0] == '+' || t[0] == '-') {
        t.drop_first()
    } else {
        t
    });
    if inf_at(s, b0, hi) {
        return Some(
            if neg {
                0
            } else {
                u64::MAX
            },
        );
    }
    if nan_at(s, b0, hi) {
        return Some(0);
    }
    number_ms_at(s, b0, hi, neg)
}

} // verus!
