//! Numeric encodings: Cadence fixed-point literals, decimal magnitudes as
//! big-endian bytes, and the stable address hash of a printed value.

use vstd::prelude::*;
use crate::text::{
    all_radix_digits, digits_value, find_char, first_index, is_first_index, is_radix_digit,
    lemma_first_index_unique,
    lemma_digits_value_nonneg, lemma_first_index_bounds, parse_i64, slice_chars, string_of, trim, trim_chars,
};

verus! {

/// `n` copies of the character `0`.
pub open spec fn zeros(n: nat) -> Seq<char> {
    Seq::new(n, |i: int| '0')
}

/// Sign flag and unsigned text of a fixed-point literal (already trimmed).
pub open spec fn fixed_sign_split(v: Seq<char>) -> (bool, Seq<char>) {
    if v.len() > 0 && v[0] == '-' {
        (true, v.drop_first())
    } else if v.len() > 0 && v[0] == '+' {
        (false, v.drop_first())
    } else {
        (false, v)
    }
}

/// Integer and fractional digit texts of an unsigned fixed-point literal.
pub open spec fn fixed_parts(rest: Seq<char>) -> (Seq<char>, Seq<char>) {
    match first_index(rest, '.') {
        Some(d) => (rest.subrange(0, d), rest.subrange(d + 1, rest.len() as int)),
        None => (rest, seq![]),
    }
}

/// A Cadence fixed-point literal scaled by 10^8, as `Fix64` / `UFix64` hold
/// it: an optional sign, decimal digits, an optional `.` and at most eight
/// fractional digits; `None` for any other text or a magnitude above
/// `i64::MAX`.
pub open spec fn fixed_point_scaled(value: Seq<char>) -> Option<i64> {
    let (neg, rest) = fixed_sign_split(trim(value));
    let (ip, fp) = fixed_parts(rest);
    if (ip.len() == 0 && fp.len() == 0) || !all_radix_digits(ip, 10) || !all_radix_digits(fp, 10)
        || fp.len() > 8 {
        None
    } else {
        let m = digits_value(ip, 10) * 100_000_000 + digits_value(fp + zeros((8 - fp.len()) as nat), 10);
        if m > i64::MAX {
            None
        } else if neg {
            Some((-m) as i64)
        } else {
            Some(m as i64)
        }
    }
}

pub(crate) fn all_decimal_digits(s: &[char]) -> (res: bool)
    ensures
        res == all_radix_digits(s@, 10),
{
    let mut i: usize = 0;
    while i < s.len()
        invariant
            i <= s@.len(),
            forall|k: int| 0 <= k < i ==> is_radix_digit(s@[k], 10),
        decreases s@.len() - i,
    {
        if !('0' <= s[i] && s[i] <= '9') {
            assert(!is_radix_digit(s@[i as int], 10));
            return false;
        }
        i = i + 1;
    }
    true
}

/// Parse a fixed-point literal into its value scaled by 10^8.
pub fn parse_fixed_point_scaled(value: &[char]) -> (res: Option<i64>)
    ensures
        res == fixed_point_scaled(value@),
{
    let v = trim_chars(value);
    let (neg, rest) = if v.len() > 0 && v[0] == '-' {
        (true, slice_chars(&v, 1, v.len()))
    } else if v.len() > 0 && v[0] == '+' {
        (false, slice_chars(&v, 1, v.len()))
    } else {
        (false, slice_chars(&v, 0, v.len()))
    };
    assert(v@.subrange(1, v@.len() as int) =~= v@.drop_first());
    assert(v@.subrange(0, v@.len() as int) =~= v@);
    assert((neg, rest@) == fixed_sign_split(trim(value@)));
    proof {
        lemma_first_index_bounds(rest@, '.');
    }
    let (ip, fp) = match find_char(&rest, '.') {
        Some(d) => (slice_chars(&rest, 0, d), slice_chars(&rest, d + 1, rest.len())),
        None => (slice_chars(&rest, 0, rest.len()), Vec::new()),
    };
    assert(rest@.subrange(0, rest@.len() as int) =~= rest@);
    assert((ip@, fp@) == fixed_parts(rest@));
    if ip.len() == 0 && fp.len() == 0 {
        return None;
    }
    if !all_decimal_digits(&ip) && ip.len() != 0 {
        return None;
    }
    if ip.len() == 0 {
        assert(all_radix_digits(ip@, 10));
    }
    if !all_decimal_digits(&fp) {
        return None;
    }
    if fp.len() > 8 {
        return None;
    }
    let mut padded = fp.clone();
    while padded.len() < 8
        invariant
            fp@.len() <= padded@.len() <= 8,
            padded@ == fp@ + zeros((padded@.len() - fp@.len()) as nat),
        decreases 8 - padded@.len(),
    {
        padded.push('0');
        assert(padded@ =~= fp@ + zeros((padded@.len() - fp@.len()) as nat));
    }
    let ghost pd = fp@ + zeros((8 - fp@.len()) as nat);
    assert(padded@ == pd);
    assert(all_radix_digits(pd, 10));
    proof {
        lemma_digits_value_nonneg(ip@, 10);
        lemma_digits_value_nonneg(pd, 10);
        if pd.len() > 0 {
            assert(is_radix_digit(pd[0], 10));
        }
        if ip@.len() > 0 {
            assert(is_radix_digit(ip@[0], 10));
        }
    }
    let int_val: i64 = if ip.len() == 0 {
        0
    } else {
        match parse_i64(&ip) {
            Some(x) => x,
            None => return None,
        }
    };
    assert(int_val == digits_value(ip@, 10));
    let frac_val: i64 = match parse_i64(&padded) {
        Some(x) => x,
        None => return None,
    };
    assert(frac_val == digits_value(pd, 10));
    let scaled = match int_val.checked_mul(100_000_000) {
        Some(x) => x,
        None => return None,
    };
    let magnitude = match scaled.checked_add(frac_val) {
        Some(x) => x,
        None => return None,
    };
    if neg {
        Some(-magnitude)
    } else {
        Some(magnitude)
    }
}

/// The sign of a fixed-point literal applies to its whole magnitude: for an
/// unsigned literal `x` (starting with a digit or `.`, with no trailing
/// whitespace) that scales to `m`, the literal `-x` scales to `-m`, whatever
/// its integer part; and `+x` scales to `m`.
pub proof fn law_fixed_point_sign(x: Seq<char>)
    requires
        x.len() > 0,
        is_radix_digit(x[0], 10) || x[0] == '.',
        !crate::text::is_ws(x.last()),
    ensures
        fixed_point_scaled(x) matches Some(m) ==> fixed_point_scaled(seq!['-'] + x) == Some(
            (-m) as i64,
        ) && -m == (-m) as i64,
        fixed_point_scaled(x) matches Some(m) ==> fixed_point_scaled(seq!['+'] + x) == Some(m),
        fixed_point_scaled(x) is None ==> fixed_point_scaled(seq!['-'] + x) is None,
{
    let neg = seq!['-'] + x;
    let pos = seq!['+'] + x;
    assert(!crate::text::is_ws(x[0]));
    assert(crate::text::trim_start(x) == x);
    assert(crate::text::trim_end(x) == x);
    assert(neg[0] == '-' && neg.last() == x.last());
    assert(pos[0] == '+' && pos.last() == x.last());
    assert(crate::text::trim_start(neg) == neg);
    assert(crate::text::trim_end(neg) == neg);
    assert(crate::text::trim_start(pos) == pos);
    assert(crate::text::trim_end(pos) == pos);
    assert(neg.drop_first() =~= x);
    assert(pos.drop_first() =~= x);
    assert(x[0] != '-' && x[0] != '+');
    assert(fixed_sign_split(trim(x)) == (false, x));
    assert(fixed_sign_split(trim(neg)) == (true, x));
    assert(fixed_sign_split(trim(pos)) == (false, x));
    let (ip, fp) = fixed_parts(x);
    if all_radix_digits(ip, 10) && all_radix_digits(fp, 10) && fp.len() <= 8 {
        let pd = fp + zeros((8 - fp.len()) as nat);
        assert(all_radix_digits(pd, 10)) by {
            assert forall|i: int| 0 <= i < pd.len() implies is_radix_digit(#[trigger] pd[i], 10) by {
                if i >= fp.len() {
                    assert(pd[i] == '0');
                }
            }
        }
        lemma_digits_value_nonneg(ip, 10);
        lemma_digits_value_nonneg(pd, 10);
    }
}

proof fn lemma_zeros_value(n: nat)
    ensures
        digits_value(zeros(n), 10) == 0,
        all_radix_digits(zeros(n), 10),
    decreases n,
{
    if n > 0 {
        lemma_zeros_value((n - 1) as nat);
        assert(zeros(n).drop_last() =~= zeros((n - 1) as nat));
    }
}

/// A whole number scales by 10^8: for decimal digits `d`, the literal `d`
/// is `d * 10^8`, or `None` when that exceeds `i64::MAX`.
pub proof fn law_fixed_point_whole(d: Seq<char>)
    requires
        d.len() > 0,
        all_radix_digits(d, 10),
    ensures
        digits_value(d, 10) * 100_000_000 <= i64::MAX ==> fixed_point_scaled(d) == Some(
            (digits_value(d, 10) * 100_000_000) as i64,
        ),
        digits_value(d, 10) * 100_000_000 > i64::MAX ==> fixed_point_scaled(d) is None,
{
    assert(is_radix_digit(d[0], 10));
    assert(is_radix_digit(d.last(), 10));
    assert(crate::text::trim_start(d) == d);
    assert(crate::text::trim_end(d) == d);
    assert(fixed_sign_split(trim(d)) == (false, d));
    lemma_first_index_bounds(d, '.');
    if d.contains('.') {
        let j = choose|j: int| 0 <= j < d.len() && d[j] == '.';
        assert(is_radix_digit(d[j], 10));
    }
    assert(fixed_parts(d) == (d, Seq::<char>::empty()));
    assert(Seq::<char>::empty() + zeros(8) =~= zeros(8));
    lemma_zeros_value(8);
    lemma_digits_value_nonneg(d, 10);
}

/// The scaled value of `d.f` for decimal digits `d` and `f`.
proof fn lemma_fixed_dot(d: Seq<char>, f: Seq<char>)
    requires
        all_radix_digits(d, 10),
        all_radix_digits(f, 10),
        d.len() > 0 || f.len() > 0,
    ensures
        fixed_point_scaled(d + seq!['.'] + f) == if f.len() > 8 {
            None::<i64>
        } else {
            let m = digits_value(d, 10) * 100_000_000 + digits_value(
                f + zeros((8 - f.len()) as nat),
                10,
            );
            if m > i64::MAX {
                None
            } else {
                Some(m as i64)
            }
        },
        digits_value(d, 10) >= 0,
        f.len() <= 8 ==> digits_value(f + zeros((8 - f.len()) as nat), 10) >= 0,
{
    let x = d + seq!['.'] + f;
    let n = d.len() as int;
    assert forall|k: int| 0 <= k < n implies x[k] != '.' by {
        assert(x[k] == d[k]);
        assert(is_radix_digit(d[k], 10));
    }
    assert(is_first_index(x, '.', n));
    lemma_first_index_unique(x, '.', n);
    assert(x.subrange(0, n) =~= d);
    assert(x.subrange(n + 1, x.len() as int) =~= f);
    if d.len() > 0 {
        assert(is_radix_digit(d[0], 10));
        assert(x[0] == d[0]);
    } else {
        assert(x[0] == '.');
    }
    if f.len() > 0 {
        assert(is_radix_digit(f.last(), 10));
        assert(x.last() == f.last());
    } else {
        assert(x.last() == '.');
    }
    assert(crate::text::trim_start(x) == x);
    assert(crate::text::trim_end(x) == x);
    assert(fixed_sign_split(trim(x)) == (false, x));
    assert(fixed_parts(x) == (d, f));
    lemma_digits_value_nonneg(d, 10);
    if f.len() <= 8 {
        let pd = f + zeros((8 - f.len()) as nat);
        assert(all_radix_digits(pd, 10)) by {
            assert forall|i: int| 0 <= i < pd.len() implies is_radix_digit(#[trigger] pd[i], 10) by {
                if i >= f.len() {
                    assert(pd[i] == '0');
                }
            }
        }
        lemma_digits_value_nonneg(pd, 10);
    }
}

/// Trailing zeros of the fraction do not change the value: for decimal
/// digits `d` and `f` (not both empty, `f` shorter than eight digits), the
/// literals `d.f` and `d.f0` scale alike.
pub proof fn law_fixed_point_trailing_zero(d: Seq<char>, f: Seq<char>)
    requires
        all_radix_digits(d, 10),
        all_radix_digits(f, 10),
        d.len() > 0 || f.len() > 0,
        f.len() < 8,
    ensures
        fixed_point_scaled(d + seq!['.'] + f) == fixed_point_scaled(d + seq!['.'] + f + seq!['0']),
{
    let f2 = f + seq!['0'];
    assert(d + seq!['.'] + f2 =~= d + seq!['.'] + f + seq!['0']);
    assert(all_radix_digits(f2, 10)) by {
        assert forall|i: int| 0 <= i < f2.len() implies is_radix_digit(#[trigger] f2[i], 10) by {
            if i < f.len() {
                assert(f2[i] == f[i]);
            }
        }
    }
    lemma_fixed_dot(d, f);
    lemma_fixed_dot(d, f2);
    assert(f + zeros((8 - f.len()) as nat) =~= f2 + zeros((8 - f2.len()) as nat));
}

/// At most eight fractional digits: `d.f` with nine or more digits in `f`
/// is no fixed-point literal.
pub proof fn law_fixed_point_precision(d: Seq<char>, f: Seq<char>)
    requires
        all_radix_digits(d, 10),
        all_radix_digits(f, 10),
        f.len() > 8,
    ensures
        fixed_point_scaled(d + seq!['.'] + f) is None,
{
    lemma_fixed_dot(d, f);
}

/// `10^n`.
pub open spec fn pow10(n: nat) -> int
    decreases n,
{
    if n == 0 {
        1
    } else {
        10 * pow10((n - 1) as nat)
    }
}

proof fn lemma_digits_value_below(s: Seq<char>)
    requires
        all_radix_digits(s, 10),
    ensures
        0 <= digits_value(s, 10) < pow10(s.len()),
    decreases s.len(),
{
    if s.len() > 0 {
        let t = s.drop_last();
        assert(all_radix_digits(t, 10)) by {
            assert forall|i: int| 0 <= i < t.len() implies is_radix_digit(#[trigger] t[i], 10) by {
                assert(t[i] == s[i]);
            }
        }
        lemma_digits_value_below(t);
        assert(is_radix_digit(s.last(), 10));
    }
}

/// Eight fractional digits are the scaled value itself: `0.f` scales to
/// the number the eight digits `f` write.
pub proof fn law_fixed_point_fraction(f: Seq<char>)
    requires
        all_radix_digits(f, 10),
        f.len() == 8,
    ensures
        fixed_point_scaled(seq!['0', '.'] + f) == Some(digits_value(f, 10) as i64),
        0 <= digits_value(f, 10) < 100_000_000,
{
    let z = seq!['0'];
    assert(all_radix_digits(z, 10)) by {
        assert(is_radix_digit(z[0], 10));
    }
    assert(seq!['0', '.'] + f =~= z + seq!['.'] + f);
    lemma_fixed_dot(z, f);
    assert(z.drop_last() =~= Seq::<char>::empty());
    assert(digits_value(Seq::<char>::empty(), 10) == 0);
    assert(crate::text::digit_value(z.last()) == 0);
    assert(digits_value(z, 10) == digits_value(z.drop_last(), 10) * 10 + crate::text::digit_value(
        z.last(),
    ));
    assert(digits_value(z, 10) == 0);
    assert(f + zeros(0) =~= f);
    lemma_digits_value_below(f);
    assert(pow10(8) == 100_000_000) by {
        reveal_with_fuel(pow10, 9);
    }
}

/// The integer and fractional parts add up: when `d.f` scales to `m`, the
/// whole number `d` and the fraction `0.f` scale to parts that sum to `m`.
pub proof fn law_fixed_point_parts_add(d: Seq<char>, f: Seq<char>)
    requires
        d.len() > 0,
        all_radix_digits(d, 10),
        all_radix_digits(f, 10),
    ensures
        fixed_point_scaled(d + seq!['.'] + f) matches Some(m) ==> (fixed_point_scaled(d) matches Some(a)
            && fixed_point_scaled(seq!['0', '.'] + f) matches Some(b) && m == a + b),
{
    let z = seq!['0'];
    assert(all_radix_digits(z, 10)) by {
        assert(is_radix_digit(z[0], 10));
    }
    assert(seq!['0', '.'] + f =~= z + seq!['.'] + f);
    lemma_fixed_dot(d, f);
    lemma_fixed_dot(z, f);
    assert(z.drop_last() =~= Seq::<char>::empty());
    assert(digits_value(Seq::<char>::empty(), 10) == 0);
    assert(crate::text::digit_value(z.last()) == 0);
    assert(digits_value(z, 10) == digits_value(z.drop_last(), 10) * 10 + crate::text::digit_value(
        z.last(),
    ));
    assert(digits_value(z, 10) == 0);
    law_fixed_point_whole(d);
}

/// The decimal digits of `d` in order, each as its value; other characters
/// are skipped.
pub open spec fn digit_nums(d: Seq<char>) -> Seq<u8>
    decreases d.len(),
{
    if d.len() == 0 {
        seq![]
    } else if is_radix_digit(d.last(), 10) && '0' <= d.last() && d.last() <= '9' {
        digit_nums(d.drop_last()).push((d.last() as int - '0' as int) as u8)
    } else {
        digit_nums(d.drop_last())
    }
}

/// The number written by decimal digit values, most significant first.
pub open spec fn horner(ds: Seq<u8>) -> nat
    decreases ds.len(),
{
    if ds.len() == 0 {
        0
    } else {
        horner(ds.drop_last()) * 10 + ds.last() as nat
    }
}

/// The shortest big-endian bytes of `n` (one zero byte for zero).
pub open spec fn be_bytes(n: nat) -> Seq<u8>
    decreases n,
{
    if n < 256 {
        seq![n as u8]
    } else {
        be_bytes(n / 256).push((n % 256) as u8)
    }
}

/// The number that big-endian bytes denote.
pub open spec fn be_value(b: Seq<u8>) -> nat
    decreases b.len(),
{
    if b.len() == 0 {
        0
    } else {
        be_value(b.drop_last()) * 256 + b.last() as nat
    }
}

/// The big-endian magnitude of the decimal digits in `d`: nothing when `d`
/// holds no digit.
pub open spec fn decimal_be_bytes(d: Seq<char>) -> Seq<u8> {
    if digit_nums(d).len() == 0 {
        seq![]
    } else {
        be_bytes(horner(digit_nums(d)))
    }
}

pub open spec fn all_small_digits(ds: Seq<u8>) -> bool {
    forall|i: int| 0 <= i < ds.len() ==> #[trigger] ds[i] <= 9
}

proof fn lemma_horner_zero_prefix(ds: Seq<u8>, k: int)
    requires
        0 <= k <= ds.len(),
        forall|i: int| 0 <= i < k ==> ds[i] == 0,
    ensures
        horner(ds) == horner(ds.subrange(k, ds.len() as int)),
    decreases ds.len(),
{
    if ds.len() == 0 || k == 0 {
        assert(ds.subrange(k, ds.len() as int) =~= ds);
    } else if k == ds.len() {
        lemma_horner_all_zero(ds);
        assert(ds.subrange(k, ds.len() as int) =~= Seq::<u8>::empty());
    } else {
        let t = ds.drop_last();
        lemma_horner_zero_prefix(t, k);
        assert(ds.subrange(k, ds.len() as int).drop_last() =~= t.subrange(k, t.len() as int));
    }
}

proof fn lemma_horner_all_zero(ds: Seq<u8>)
    requires
        forall|i: int| 0 <= i < ds.len() ==> ds[i] == 0,
    ensures
        horner(ds) == 0,
    decreases ds.len(),
{
    if ds.len() > 0 {
        lemma_horner_all_zero(ds.drop_last());
    }
}

proof fn lemma_horner_single(ds: Seq<u8>)
    requires
        ds.len() == 1,
    ensures
        horner(ds) == ds[0],
{
    assert(ds.drop_last() =~= Seq::<u8>::empty());
    assert(horner(Seq::<u8>::empty()) == 0);
}

proof fn lemma_horner_ge_first(ds: Seq<u8>)
    requires
        ds.len() > 0,
    ensures
        horner(ds) >= ds[0],
    decreases ds.len(),
{
    if ds.len() > 1 {
        lemma_horner_ge_first(ds.drop_last());
    } else {
        lemma_horner_single(ds);
    }
}

/// Divide the decimal digits in place by 256; returns the remainder.
fn divide_digits(digits: &mut Vec<u8>) -> (rem: u32)
    requires
        all_small_digits(old(digits)@),
    ensures
        final(digits)@.len() == old(digits)@.len(),
        all_small_digits(final(digits)@),
        horner(old(digits)@) == horner(final(digits)@) * 256 + rem,
        rem < 256,
{
    let ghost orig = digits@;
    let mut remainder: u32 = 0;
    let mut j: usize = 0;
    while j < digits.len()
        invariant
            j <= digits@.len(),
            digits@.len() == orig.len(),
            all_small_digits(orig),
            all_small_digits(digits@),
            forall|i: int| j <= i < orig.len() ==> digits@[i] == orig[i],
            horner(orig.take(j as int)) == horner(digits@.take(j as int)) * 256 + remainder,
            remainder < 256,
        decreases digits@.len() - j,
    {
        let d = digits[j];
        let acc = remainder * 10 + (d as u32);
        let q = acc / 256;
        let r = acc % 256;
        assert(q <= 9);
        let ghost before = digits@;
        digits.set(j, q as u8);
        proof {
            assert(orig.take(j + 1).drop_last() =~= orig.take(j as int));
            assert(digits@.take(j + 1).drop_last() =~= before.take(j as int));
            assert(horner(orig.take(j + 1)) == horner(orig.take(j as int)) * 10 + d);
            assert(horner(digits@.take(j + 1)) == horner(before.take(j as int)) * 10 + q);
            assert(acc == q * 256 + r);
        }
        remainder = r;
        j = j + 1;
    }
    assert(orig.take(orig.len() as int) =~= orig);
    assert(digits@.take(digits@.len() as int) =~= digits@);
    remainder
}

/// The big-endian magnitude bytes of the decimal digits in `decimal`.
pub fn decimal_to_be_bytes(decimal: &[char]) -> (res: Vec<u8>)
    ensures
        res@ == decimal_be_bytes(decimal@),
{
    let mut digits: Vec<u8> = Vec::new();
    let mut i: usize = 0;
    while i < decimal.len()
        invariant
            i <= decimal@.len(),
            digits@ == digit_nums(decimal@.take(i as int)),
            all_small_digits(digits@),
        decreases decimal@.len() - i,
    {
        let c = decimal[i];
        assert(decimal@.take(i + 1).drop_last() =~= decimal@.take(i as int));
        if '0' <= c && c <= '9' {
            digits.push(((c as u32) - ('0' as u32)) as u8);
        }
        i = i + 1;
    }
    assert(decimal@.take(decimal@.len() as int) =~= decimal@);
    if digits.len() == 0 {
        return Vec::new();
    }
    let ghost n = horner(digits@);
    let mut idx: usize = 0;
    let dlen = digits.len();
    while idx < dlen - 1 && digits[idx] == 0
        invariant
            dlen == digits@.len(),
            idx < digits@.len(),
            forall|k: int| 0 <= k < idx ==> digits@[k] == 0,
        decreases digits@.len() - idx,
    {
        idx = idx + 1;
    }
    proof {
        lemma_horner_zero_prefix(digits@, idx as int);
    }
    let mut ds: Vec<u8> = Vec::new();
    let mut t = idx;
    while t < digits.len()
        invariant
            idx <= t <= digits@.len(),
            ds@ == digits@.subrange(idx as int, t as int),
        decreases digits@.len() - t,
    {
        ds.push(digits[t]);
        t = t + 1;
        assert(ds@ =~= digits@.subrange(idx as int, t as int));
    }
    assert(horner(ds@) == n);
    assert(all_small_digits(ds@));
    if ds.len() == 1 && ds[0] == 0 {
        let mut z: Vec<u8> = Vec::new();
        z.push(0);
        proof {
            lemma_horner_single(ds@);
        }
        assert(z@ =~= be_bytes(n));
        return z;
    }
    assert(ds@.len() == 1 || ds@[0] != 0);
    proof {
        if ds@.len() == 1 {
            lemma_horner_single(ds@);
        } else {
            lemma_horner_ge_first(ds@);
        }
    }
    let mut le: Vec<u8> = Vec::new();
    assert(le@.reverse() =~= Seq::<u8>::empty());
    assert(be_bytes(n) =~= be_bytes(horner(ds@)) + le@.reverse());
    loop
        invariant
            ds@.len() >= 1,
            ds@.len() == 1 || ds@[0] != 0,
            all_small_digits(ds@),
            horner(ds@) == 0 ==> be_bytes(n) == le@.reverse(),
            horner(ds@) > 0 ==> be_bytes(n) == be_bytes(horner(ds@)) + le@.reverse(),
        ensures
            be_bytes(n) == le@.reverse(),
        decreases horner(ds@),
    {
        proof {
            if ds@.len() == 1 {
                lemma_horner_single(ds@);
            } else {
                lemma_horner_ge_first(ds@);
            }
        }
        if ds.len() == 1 && ds[0] == 0 {
            break;
        }
        let ghost h = horner(ds@);
        let r = divide_digits(&mut ds);
        le.push(r as u8);
        proof {
            let h2 = horner(ds@);
            assert(h == h2 * 256 + r);
            assert(le@.reverse() =~= seq![r as u8] + le@.drop_last().reverse());
            if h < 256 {
                assert(h2 == 0);
                assert(be_bytes(h) == seq![h as u8]);
            } else {
                assert(h2 > 0);
                assert(be_bytes(h) == be_bytes(h2).push(r as u8));
                assert(be_bytes(h2) + le@.reverse() =~= be_bytes(h2).push(r as u8) + le@.drop_last().reverse());
            }
        }
        let mut lead: usize = 0;
        let dslen = ds.len();
        while lead < dslen - 1 && ds[lead] == 0
            invariant
                dslen == ds@.len(),
                lead < ds@.len(),
                forall|k: int| 0 <= k < lead ==> ds@[k] == 0,
            decreases ds@.len() - lead,
        {
            lead = lead + 1;
        }
        proof {
            lemma_horner_zero_prefix(ds@, lead as int);
        }
        let mut nds: Vec<u8> = Vec::new();
        let mut t2 = lead;
        while t2 < ds.len()
            invariant
                lead <= t2 <= ds@.len(),
                nds@ == ds@.subrange(lead as int, t2 as int),
            decreases ds@.len() - t2,
        {
            nds.push(ds[t2]);
            t2 = t2 + 1;
            assert(nds@ =~= ds@.subrange(lead as int, t2 as int));
        }
        ds = nds;
    }
    let mut out: Vec<u8> = Vec::new();
    let mut k: usize = le.len();
    while k > 0
        invariant
            k <= le@.len(),
            out@ == le@.subrange(k as int, le@.len() as int).reverse(),
        decreases k,
    {
        k = k - 1;
        out.push(le[k]);
        assert(out@ =~= le@.subrange(k as int, le@.len() as int).reverse());
    }
    assert(le@.subrange(0, le@.len() as int) =~= le@);
    out
}

/// FNV-1a over `bytes`.
pub open spec fn fnv1a(bytes: Seq<u8>) -> u64
    decreases bytes.len(),
{
    if bytes.len() == 0 {
        0xcbf29ce484222325
    } else {
        (fnv1a(bytes.drop_last()) ^ (bytes.last() as u64)).wrapping_mul(0x100000001b3)
    }
}

/// The stable 63-bit hash of a printed value: FNV-1a over its UTF-8 bytes
/// with the top bit cleared.
pub open spec fn address_hash(s: Seq<char>) -> u64 {
    fnv1a(vstd::utf8::encode_utf8(s)) & 0x7fff_ffff_ffff_ffff
}

/// The stable address hash of the text `s`.
pub fn stable_address_hash(s: &[char]) -> (res: u64)
    ensures
        res == address_hash(s@),
        res <= 0x7fff_ffff_ffff_ffff,
{
    let st = string_of(s);
    let bytes = st.as_str().as_bytes();
    let mut h: u64 = 0xcbf29ce484222325;
    let mut i: usize = 0;
    while i < bytes.len()
        invariant
            i <= bytes@.len(),
            bytes@ == vstd::utf8::encode_utf8(s@),
            h == fnv1a(bytes@.take(i as int)),
        decreases bytes@.len() - i,
    {
        assert(bytes@.take(i + 1).drop_last() =~= bytes@.take(i as int));
        h = (h ^ (bytes[i] as u64)).wrapping_mul(0x100000001b3);
        i = i + 1;
    }
    assert(bytes@.take(bytes@.len() as int) =~= bytes@);
    let r = h & 0x7fff_ffff_ffff_ffff;
    assert(r <= 0x7fff_ffff_ffff_ffff) by (bit_vector)
        requires
            r == h & 0x7fff_ffff_ffff_ffff,
    ;
    r
}

/// Big-endian bytes keep the number: reading back the bytes of `n` gives
/// `n`, and they carry no leading zero byte but for zero itself.
pub proof fn law_be_bytes_round_trip(n: nat)
    ensures
        be_value(be_bytes(n)) == n,
        be_bytes(n).len() >= 1,
        n > 0 ==> be_bytes(n)[0] != 0,
    decreases n,
{
    if n >= 256 {
        law_be_bytes_round_trip(n / 256);
        let b = be_bytes(n / 256).push((n % 256) as u8);
        assert(b.drop_last() =~= be_bytes(n / 256));
        assert(b[0] == be_bytes(n / 256)[0]);
        assert(be_bytes(n) == b);
        assert(b.last() == (n % 256) as u8);
        assert(be_value(b) == be_value(be_bytes(n / 256)) * 256 + ((n % 256) as u8) as nat);
        assert((n / 256) * 256 + n % 256 == n) by (nonlinear_arith);
    } else {
        let b = seq![n as u8];
        assert(b.drop_last() =~= Seq::<u8>::empty());
        assert(be_value(b) == be_value(b.drop_last()) * 256 + b.last() as nat);
    }
}

/// A wide integer keeps its exact magnitude: the bytes made of a decimal
/// text denote the number its digits spell.
pub proof fn law_decimal_bytes_exact(d: Seq<char>)
    ensures
        digit_nums(d).len() > 0 ==> be_value(decimal_be_bytes(d)) == horner(digit_nums(d)),
        digit_nums(d).len() == 0 ==> decimal_be_bytes(d).len() == 0,
{
    law_be_bytes_round_trip(horner(digit_nums(d)));
}

} // verus!
