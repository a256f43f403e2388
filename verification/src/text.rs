//! Character-level text primitives over the `Seq<char>` view of strings.

use vstd::prelude::*;

verus! {

/// Characters of a string, in order.
pub(crate) fn chars_of(s: &str) -> (res: Vec<char>)
    ensures
        res@ == s@,
{
    let n = s.unicode_len();
    let mut out: Vec<char> = Vec::new();
    let mut i: usize = 0;
    while i < n
        invariant
            i <= n,
            n == s@.len(),
            out@ == s@.take(i as int),
        decreases n - i,
    {
        out.push(s.get_char(i));
        i = i + 1;
        assert(out@ =~= s@.take(i as int));
    }
    assert(s@.take(n as int) =~= s@);
    out
}

/// The string made of the given characters.
///
/// Trusted: collects the characters through `FromIterator<char>` for
/// `String`; the claim is that the result's characters are exactly `cs`.
#[verifier::external_body]
pub(crate) fn string_of(cs: &[char]) -> (res: String)
    ensures
        res@ == cs@,
{
    cs.iter().collect()
}

/// Whether `c` has the Unicode `White_Space` property, as `char::is_whitespace`.
pub open spec fn is_ws(c: char) -> bool {
    ||| ('\u{9}' <= c && c <= '\u{d}')
    ||| c == ' '
    ||| c == '\u{85}'
    ||| c == '\u{a0}'
    ||| c == '\u{1680}'
    ||| ('\u{2000}' <= c && c <= '\u{200a}')
    ||| c == '\u{2028}'
    ||| c == '\u{2029}'
    ||| c == '\u{202f}'
    ||| c == '\u{205f}'
    ||| c == '\u{3000}'
}

/// `s` without its leading whitespace.
pub open spec fn trim_start(s: Seq<char>) -> Seq<char>
    decreases s.len(),
{
    if s.len() > 0 && is_ws(s[0]) {
        trim_start(s.drop_first())
    } else {
        s
    }
}

/// `s` without its trailing whitespace.
pub open spec fn trim_end(s: Seq<char>) -> Seq<char>
    decreases s.len(),
{
    if s.len() > 0 && is_ws(s.last()) {
        trim_end(s.drop_last())
    } else {
        s
    }
}

/// `s` without leading and trailing whitespace, as `str::trim`.
pub open spec fn trim(s: Seq<char>) -> Seq<char> {
    trim_end(trim_start(s))
}

pub fn is_whitespace(c: char) -> (res: bool)
    ensures
        res == is_ws(c),
{
    ('\u{9}' <= c && c <= '\u{d}') || c == ' ' || c == '\u{85}' || c == '\u{a0}' || c
        == '\u{1680}' || ('\u{2000}' <= c && c <= '\u{200a}') || c == '\u{2028}' || c
        == '\u{2029}' || c == '\u{202f}' || c == '\u{205f}' || c == '\u{3000}'
}

proof fn lemma_trim_start_suffix(s: Seq<char>, i: int)
    requires
        0 <= i <= s.len(),
        forall|j: int| 0 <= j < i ==> is_ws(s[j]),
    ensures
        trim_start(s) == trim_start(s.subrange(i, s.len() as int)),
    decreases i,
{
    if i > 0 {
        assert(s.drop_first() =~= s.subrange(1, s.len() as int));
        let t = s.drop_first();
        assert(t.subrange(i - 1, t.len() as int) =~= s.subrange(i, s.len() as int));
        lemma_trim_start_suffix(t, i - 1);
    } else {
        assert(s.subrange(0, s.len() as int) =~= s);
    }
}

proof fn lemma_trim_end_prefix(s: Seq<char>, e: int)
    requires
        0 <= e <= s.len(),
        forall|j: int| e <= j < s.len() ==> is_ws(s[j]),
    ensures
        trim_end(s) == trim_end(s.subrange(0, e)),
    decreases s.len() - e,
{
    if e < s.len() {
        let t = s.drop_last();
        assert(t.subrange(0, e) =~= s.subrange(0, e));
        lemma_trim_end_prefix(t, e);
    } else {
        assert(s.subrange(0, e) =~= s);
    }
}

/// Bounds `(a, b)` such that `s[a..b]` is `s` trimmed.
pub fn trim_bounds(s: &[char]) -> (res: (usize, usize))
    ensures
        res.0 <= res.1 <= s@.len(),
        s@.subrange(res.0 as int, res.1 as int) == trim(s@),
{
    let mut a: usize = 0;
    while a < s.len() && is_whitespace(s[a])
        invariant
            a <= s@.len(),
            forall|j: int| 0 <= j < a ==> is_ws(s@[j]),
        decreases s@.len() - a,
    {
        a = a + 1;
    }
    let mut b: usize = s.len();
    while b > a && is_whitespace(s[b - 1])
        invariant
            a <= b <= s@.len(),
            forall|j: int| b <= j < s@.len() ==> is_ws(s@[j]),
        decreases b,
    {
        b = b - 1;
    }
    proof {
        lemma_trim_start_suffix(s@, a as int);
        let t = s@.subrange(a as int, s@.len() as int);
        assert(a == s@.len() || !is_ws(t[0]));
        assert(trim_start(t) == t);
        lemma_trim_end_prefix(t, b - a);
        assert(t.subrange(0, b - a) =~= s@.subrange(a as int, b as int));
        assert(b == a || !is_ws(s@[b - 1]));
        let u = s@.subrange(a as int, b as int);
        assert(trim_end(u) == u);
    }
    (a, b)
}

/// The characters `s[a..b]` as a new vector.
pub fn slice_chars(s: &[char], a: usize, b: usize) -> (res: Vec<char>)
    requires
        a <= b <= s@.len(),
    ensures
        res@ == s@.subrange(a as int, b as int),
{
    let mut out: Vec<char> = Vec::new();
    let mut i = a;
    while i < b
        invariant
            a <= i <= b <= s@.len(),
            out@ == s@.subrange(a as int, i as int),
        decreases b - i,
    {
        out.push(s[i]);
        i = i + 1;
        assert(out@ =~= s@.subrange(a as int, i as int));
    }
    out
}

/// `s` trimmed, as a new vector.
pub fn trim_chars(s: &[char]) -> (res: Vec<char>)
    ensures
        res@ == trim(s@),
{
    let (a, b) = trim_bounds(s);
    slice_chars(s, a, b)
}

/// Whether `c` is a digit of the given radix (10 or 16), as `char::to_digit`.
pub open spec fn is_radix_digit(c: char, radix: u32) -> bool {
    ||| ('0' <= c && c <= '9')
    ||| (radix == 16 && (('a' <= c && c <= 'f') || ('A' <= c && c <= 'F')))
}

/// The numeric value of a digit character.
pub open spec fn digit_value(c: char) -> int {
    if '0' <= c && c <= '9' {
        c as int - '0' as int
    } else if 'a' <= c && c <= 'f' {
        c as int - 'a' as int + 10
    } else {
        c as int - 'A' as int + 10
    }
}

pub open spec fn all_radix_digits(s: Seq<char>, radix: u32) -> bool {
    forall|i: int| 0 <= i < s.len() ==> is_radix_digit(#[trigger] s[i], radix)
}

/// The number written by the digit sequence `s` in base `radix`.
pub open spec fn digits_value(s: Seq<char>, radix: u32) -> int
    decreases s.len(),
{
    if s.len() == 0 {
        0
    } else {
        digits_value(s.drop_last(), radix) * radix + digit_value(s.last())
    }
}

/// The digits of `body` read in base `radix`, when there is at least one,
/// all are digits, and the number is at most `limit`.
pub open spec fn spec_bounded_digits(body: Seq<char>, radix: u32, limit: int) -> Option<int> {
    if body.len() == 0 || !all_radix_digits(body, radix) || digits_value(body, radix) > limit {
        None
    } else {
        Some(digits_value(body, radix))
    }
}

/// What `i64::from_str` returns on `s`: an optional sign, then decimal digits.
pub open spec fn spec_parse_i64(s: Seq<char>) -> Option<i64> {
    if s.len() > 0 && s[0] == '-' {
        match spec_bounded_digits(s.drop_first(), 10, 0x8000_0000_0000_0000) {
            Some(v) => Some((-v) as i64),
            None => None,
        }
    } else {
        let body = if s.len() > 0 && s[0] == '+' {
            s.drop_first()
        } else {
            s
        };
        match spec_bounded_digits(body, 10, 0x7fff_ffff_ffff_ffff) {
            Some(v) => Some(v as i64),
            None => None,
        }
    }
}

/// What `u64::from_str_radix(s, radix)` returns on `s`: an optional `+`, then digits.
pub open spec fn spec_parse_u64_radix(s: Seq<char>, radix: u32) -> Option<u64> {
    let body = if s.len() > 0 && s[0] == '+' {
        s.drop_first()
    } else {
        s
    };
    match spec_bounded_digits(body, radix, 0xffff_ffff_ffff_ffff) {
        Some(v) => Some(v as u64),
        None => None,
    }
}

pub proof fn lemma_digits_value_nonneg(s: Seq<char>, radix: u32)
    requires
        all_radix_digits(s, radix),
        radix == 10 || radix == 16,
    ensures
        digits_value(s, radix) >= 0,
    decreases s.len(),
{
    if s.len() > 0 {
        assert(all_radix_digits(s.drop_last(), radix));
        lemma_digits_value_nonneg(s.drop_last(), radix);
        assert(is_radix_digit(s[s.len() - 1], radix));
    }
}

/// Reading more digits never gives a smaller number.
pub proof fn lemma_digits_value_mono(s: Seq<char>, i: int, radix: u32)
    requires
        0 <= i <= s.len(),
        all_radix_digits(s, radix),
        radix == 10 || radix == 16,
    ensures
        digits_value(s.take(i), radix) <= digits_value(s, radix),
    decreases s.len() - i,
{
    if i < s.len() {
        let t = s.drop_last();
        assert(all_radix_digits(t, radix));
        assert(t.take(i) =~= s.take(i));
        lemma_digits_value_mono(t, i, radix);
        lemma_digits_value_nonneg(t, radix);
        assert(is_radix_digit(s[s.len() - 1], radix));
        assert(digits_value(s, radix) == digits_value(t, radix) * radix + digit_value(s.last()));
    } else {
        assert(s.take(i) =~= s);
    }
}

fn radix_digit(c: char, radix: u32) -> (res: Option<u32>)
    requires
        radix == 10 || radix == 16,
    ensures
        res is Some <==> is_radix_digit(c, radix),
        res matches Some(d) ==> d == digit_value(c) && d < radix,
{
    if '0' <= c && c <= '9' {
        Some((c as u32) - ('0' as u32))
    } else if radix == 16 && 'a' <= c && c <= 'f' {
        Some((c as u32) - ('a' as u32) + 10)
    } else if radix == 16 && 'A' <= c && c <= 'F' {
        Some((c as u32) - ('A' as u32) + 10)
    } else {
        None
    }
}

/// The digits `s[start..]` read in base `radix`, bounded by `limit`.
fn bounded_digits(s: &[char], start: usize, radix: u32, limit: u64) -> (res: Option<u64>)
    requires
        start <= s@.len(),
        radix == 10 || radix == 16,
    ensures
        res is None <==> spec_bounded_digits(s@.subrange(start as int, s@.len() as int), radix, limit as int) is None,
        res matches Some(v) ==> spec_bounded_digits(s@.subrange(start as int, s@.len() as int), radix, limit as int) == Some(v as int),
        res matches Some(v) ==> v <= limit,
{
    let ghost body = s@.subrange(start as int, s@.len() as int);
    if start == s.len() {
        return None;
    }
    let mut acc: u128 = 0;
    let mut i = start;
    while i < s.len()
        invariant
            start <= i <= s@.len(),
            body == s@.subrange(start as int, s@.len() as int),
            radix == 10 || radix == 16,
            all_radix_digits(body.take(i - start), radix),
            acc as int == digits_value(body.take(i - start), radix),
            acc <= limit,
        decreases s@.len() - i,
    {
        let d = match radix_digit(s[i], radix) {
            Some(d) => d,
            None => {
                assert(!is_radix_digit(body[i - start], radix));
                return None;
            },
        };
        let ghost k = i - start;
        assert(body.take(k + 1).drop_last() =~= body.take(k));
        let m: u128 = if radix == 10 {
            acc * 10
        } else {
            acc * 16
        };
        assert(m == acc * radix);
        acc = m + (d as u128);
        i = i + 1;
        assert(all_radix_digits(body.take(i - start), radix));
        if acc > limit as u128 {
            proof {
                if all_radix_digits(body, radix) {
                    lemma_digits_value_mono(body, i - start, radix);
                }
            }
            return None;
        }
    }
    assert(body.take(i - start) =~= body);
    proof {
        lemma_digits_value_nonneg(body, radix);
    }
    Some(acc as u64)
}

/// `i64::from_str`.
pub fn parse_i64(s: &[char]) -> (res: Option<i64>)
    ensures
        res == spec_parse_i64(s@),
{
    if s.len() > 0 && s[0] == '-' {
        assert(s@.subrange(1, s@.len() as int) =~= s@.drop_first());
        match bounded_digits(s, 1, 10, 0x8000_0000_0000_0000) {
            Some(v) => {
                if v == 0x8000_0000_0000_0000 {
                    assert(((-(v as int)) as i64) == i64::MIN);
                    Some(i64::MIN)
                } else {
                    let r = -(v as i64);
                    assert(r == (-(v as int)) as i64);
                    Some(r)
                }
            },
            None => None,
        }
    } else {
        let start: usize = if s.len() > 0 && s[0] == '+' {
            1
        } else {
            0
        };
        assert(start == 1 ==> s@.subrange(1, s@.len() as int) =~= s@.drop_first());
        assert(s@.subrange(0, s@.len() as int) =~= s@);
        match bounded_digits(s, start, 10, 0x7fff_ffff_ffff_ffff) {
            Some(v) => Some(v as i64),
            None => None,
        }
    }
}

/// `u64::from_str_radix` for radix 10 or 16.
pub fn parse_u64_radix(s: &[char], radix: u32) -> (res: Option<u64>)
    requires
        radix == 10 || radix == 16,
    ensures
        res == spec_parse_u64_radix(s@, radix),
{
    let start: usize = if s.len() > 0 && s[0] == '+' {
        1
    } else {
        0
    };
    assert(start == 1 ==> s@.subrange(1, s@.len() as int) =~= s@.drop_first());
    assert(s@.subrange(0, s@.len() as int) =~= s@);
    bounded_digits(s, start, radix, 0xffff_ffff_ffff_ffff)
}

/// Whether `p` is a prefix of `s`.
pub open spec fn is_prefix(p: Seq<char>, s: Seq<char>) -> bool {
    p.len() <= s.len() && s.subrange(0, p.len() as int) == p
}

/// Whether `p` is a suffix of `s`.
pub open spec fn is_suffix(p: Seq<char>, s: Seq<char>) -> bool {
    p.len() <= s.len() && s.subrange(s.len() - p.len(), s.len() as int) == p
}

/// `j` is the index of the first occurrence of `c` in `s`.
pub open spec fn is_first_index(s: Seq<char>, c: char, j: int) -> bool {
    &&& 0 <= j < s.len()
    &&& s[j] == c
    &&& forall|k: int| 0 <= k < j ==> s[k] != c
}

/// The index of the first occurrence of `c` in `s`, as `str::find` on a char.
pub open spec fn first_index(s: Seq<char>, c: char) -> Option<int> {
    if exists|j: int| is_first_index(s, c, j) {
        Some(choose|j: int| is_first_index(s, c, j))
    } else {
        None
    }
}

pub proof fn lemma_first_index_unique(s: Seq<char>, c: char, j: int)
    requires
        is_first_index(s, c, j),
    ensures
        first_index(s, c) == Some(j),
{
    let k = choose|k: int| is_first_index(s, c, k);
    assert(is_first_index(s, c, k));
    if k < j {
        assert(s[k] != c);
    }
    if j < k {
        assert(s[j] != c);
    }
}

pub proof fn lemma_first_index_bounds(s: Seq<char>, c: char)
    ensures
        first_index(s, c) matches Some(j) ==> is_first_index(s, c, j),
        first_index(s, c) is None ==> !s.contains(c),
{
    if first_index(s, c) is None && s.contains(c) {
        let j = choose|j: int| 0 <= j < s.len() && s[j] == c;
        lemma_first_occurrence_exists(s, c, j);
    }
}

proof fn lemma_first_occurrence_exists(s: Seq<char>, c: char, j: int)
    requires
        0 <= j < s.len(),
        s[j] == c,
    ensures
        exists|k: int| is_first_index(s, c, k),
    decreases j,
{
    if exists|k: int| 0 <= k < j && s[k] == c {
        let k = choose|k: int| 0 <= k < j && s[k] == c;
        lemma_first_occurrence_exists(s, c, k);
    } else {
        assert(is_first_index(s, c, j));
    }
}

/// The index of the first `c` in `s`.
pub fn find_char(s: &[char], c: char) -> (res: Option<usize>)
    ensures
        match first_index(s@, c) {
            Some(j) => res == Some(j as usize),
            None => res is None,
        },
        res matches Some(j) ==> j < s@.len(),
{
    let mut i: usize = 0;
    while i < s.len()
        invariant
            i <= s@.len(),
            forall|k: int| 0 <= k < i ==> s@[k] != c,
        decreases s@.len() - i,
    {
        if s[i] == c {
            proof {
                lemma_first_index_unique(s@, c, i as int);
            }
            return Some(i);
        }
        i = i + 1;
    }
    None
}

/// Whether `c` occurs in `s`.
pub fn contains_char(s: &[char], c: char) -> (res: bool)
    ensures
        res == s@.contains(c),
{
    let mut i: usize = 0;
    while i < s.len()
        invariant
            i <= s@.len(),
            forall|k: int| 0 <= k < i ==> s@[k] != c,
        decreases s@.len() - i,
    {
        if s[i] == c {
            assert(s@[i as int] == c);
            return true;
        }
        i = i + 1;
    }
    false
}

/// Whether `a` and `b` hold the same characters.
pub fn chars_eq(a: &[char], b: &[char]) -> (res: bool)
    ensures
        res == (a@ == b@),
{
    if a.len() != b.len() {
        return false;
    }
    let mut i: usize = 0;
    while i < a.len()
        invariant
            i <= a@.len(),
            a@.len() == b@.len(),
            forall|k: int| 0 <= k < i ==> a@[k] == b@[k],
        decreases a@.len() - i,
    {
        if a[i] != b[i] {
            return false;
        }
        i = i + 1;
    }
    assert(a@ =~= b@);
    true
}

/// Whether `s` starts with `p`.
pub fn has_prefix(s: &[char], p: &[char]) -> (res: bool)
    ensures
        res == is_prefix(p@, s@),
{
    if p.len() > s.len() {
        return false;
    }
    let head = slice_chars(s, 0, p.len());
    chars_eq(&head, p)
}

/// Whether `s` equals the literal `lit`.
pub fn is_lit(s: &[char], lit: &str) -> (res: bool)
    ensures
        res == (s@ == lit@),
{
    let l = chars_of(lit);
    chars_eq(s, &l)
}

/// Whether `s` starts with the literal `lit`.
pub fn starts_with_lit(s: &[char], lit: &str) -> (res: bool)
    ensures
        res == is_prefix(lit@, s@),
{
    let l = chars_of(lit);
    has_prefix(s, &l)
}

/// ASCII lower-casing of one character, as `char::to_ascii_lowercase`.
pub open spec fn ascii_lower(c: char) -> char {
    if 'A' <= c && c <= 'Z' {
        ((c as u32) + 32) as char
    } else {
        c
    }
}

/// ASCII lower-casing of a string, as `str::to_ascii_lowercase`.
pub open spec fn ascii_lower_seq(s: Seq<char>) -> Seq<char> {
    Seq::new(s.len(), |i: int| ascii_lower(s[i]))
}

pub fn to_ascii_lower(s: &[char]) -> (res: Vec<char>)
    ensures
        res@ == ascii_lower_seq(s@),
{
    let mut out: Vec<char> = Vec::new();
    let mut i: usize = 0;
    while i < s.len()
        invariant
            i <= s@.len(),
            out@ == ascii_lower_seq(s@.take(i as int)),
        decreases s@.len() - i,
    {
        let c = s[i];
        let l = if 'A' <= c && c <= 'Z' {
            let u = (c as u8) + 32;
            u as char
        } else {
            c
        };
        out.push(l);
        i = i + 1;
        assert(out@ =~= ascii_lower_seq(s@.take(i as int)));
    }
    assert(s@.take(s@.len() as int) =~= s@);
    out
}

/// The decimal digits of `n`, most significant first, as `u64`'s `Display`.
pub open spec fn decimal_digits(n: nat) -> Seq<char>
    decreases n,
{
    if n < 10 {
        seq![((n + 48) as u32) as char]
    } else {
        decimal_digits(n / 10).push((((n % 10) + 48) as u32) as char)
    }
}

/// `n` written in decimal.
pub fn u64_decimal(n: u64) -> (res: Vec<char>)
    ensures
        res@ == decimal_digits(n as nat),
    decreases n,
{
    let d = n % 10;
    let c = ((d as u8) + 48) as char;
    if n < 10 {
        let mut v: Vec<char> = Vec::new();
        v.push(c);
        assert(v@ =~= decimal_digits(n as nat));
        v
    } else {
        let mut v = u64_decimal(n / 10);
        v.push(c);
        v
    }
}

pub proof fn lemma_trim_start_shorter(s: Seq<char>)
    ensures
        trim_start(s).len() <= s.len(),
    decreases s.len(),
{
    if s.len() > 0 && is_ws(s[0]) {
        lemma_trim_start_shorter(s.drop_first());
    }
}

pub proof fn lemma_trim_end_shorter(s: Seq<char>)
    ensures
        trim_end(s).len() <= s.len(),
    decreases s.len(),
{
    if s.len() > 0 && is_ws(s.last()) {
        lemma_trim_end_shorter(s.drop_last());
    }
}

/// Trimming never lengthens a string.
pub proof fn lemma_trim_shorter(s: Seq<char>)
    ensures
        trim(s).len() <= s.len(),
{
    lemma_trim_start_shorter(s);
    lemma_trim_end_shorter(trim_start(s));
}

/// Append the characters of `b` to `a`.
pub fn push_chars(a: &mut Vec<char>, b: &[char])
    ensures
        final(a)@ == old(a)@ + b@,
{
    let mut i: usize = 0;
    let ghost a0 = a@;
    while i < b.len()
        invariant
            i <= b@.len(),
            a@ == a0 + b@.take(i as int),
        decreases b@.len() - i,
    {
        a.push(b[i]);
        i = i + 1;
        assert(a@ =~= a0 + b@.take(i as int));
    }
    assert(b@.take(b@.len() as int) =~= b@);
}

/// Append the characters of the literal `lit` to `a`.
pub fn push_lit(a: &mut Vec<char>, lit: &str)
    ensures
        final(a)@ == old(a)@ + lit@,
{
    let l = chars_of(lit);
    push_chars(a, &l);
}

} // verus!
