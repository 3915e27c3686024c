//! Lexical classification of numeric tokens, and decimal rendering of
//! integers.
//!
//! The source grammar admits integers (an optional sign followed by decimal
//! digits) and floats (an optional sign, digits, a decimal point, and
//! fractional digits).

use vstd::prelude::*;

verus! {

pub open spec fn is_digit(c: char) -> bool {
    '0' <= c && c <= '9'
}

pub open spec fn digit_val(c: char) -> int {
    c as int - '0' as int
}

pub open spec fn all_digits(s: Seq<char>) -> bool {
    forall|i: int| 0 <= i < s.len() ==> is_digit(#[trigger] s[i])
}

/// The token with a leading `+` or `-` removed.
pub open spec fn unsigned_part(s: Seq<char>) -> Seq<char> {
    if s.len() > 0 && (s[0] == '+' || s[0] == '-') {
        s.subrange(1, s.len() as int)
    } else {
        s
    }
}

/// Value of a run of decimal digits, most significant first.
pub open spec fn digits_val(s: Seq<char>) -> int
    decreases s.len(),
{
    if s.len() == 0 {
        0
    } else {
        digits_val(s.drop_last()) * 10 + digit_val(s.last())
    }
}

/// An optional sign followed by at least one digit.
pub open spec fn is_int_literal(s: Seq<char>) -> bool {
    unsigned_part(s).len() > 0 && all_digits(unsigned_part(s))
}

pub open spec fn int_literal_val(s: Seq<char>) -> int
    recommends
        is_int_literal(s),
{
    if s.len() > 0 && s[0] == '-' {
        -digits_val(unsigned_part(s))
    } else {
        digits_val(unsigned_part(s))
    }
}

/// What reading the token as a 64-bit signed integer yields: its value if it
/// is an integer literal in range, nothing otherwise.
pub open spec fn spec_parse_i64(s: Seq<char>) -> Option<i64> {
    if is_int_literal(s) && i64::MIN <= int_literal_val(s) <= i64::MAX {
        Some(int_literal_val(s) as i64)
    } else {
        None
    }
}

/// Index of the first `.` in `s`, or -1 if there is none.
pub open spec fn first_dot(s: Seq<char>, i: int) -> int
    decreases s.len() - i,
{
    if i < 0 || i >= s.len() {
        -1
    } else if s[i] == '.' {
        i
    } else {
        first_dot(s, i + 1)
    }
}

/// An optional sign, one or more digits, a decimal point, and one or more
/// fractional digits.
pub open spec fn is_float_literal(s: Seq<char>) -> bool {
    let u = unsigned_part(s);
    let j = first_dot(u, 0);
    1 <= j < u.len() - 1 && all_digits(u.subrange(0, j)) && all_digits(
        u.subrange(j + 1, u.len() as int),
    )
}

proof fn lemma_digits_val_nonneg(s: Seq<char>)
    requires
        all_digits(s),
    ensures
        digits_val(s) >= 0,
    decreases s.len(),
{
    if s.len() > 0 {
        assert(all_digits(s.drop_last()));
        lemma_digits_val_nonneg(s.drop_last());
    }
}

proof fn lemma_digits_val_prefix(s: Seq<char>, k: int)
    requires
        all_digits(s),
        0 <= k <= s.len(),
    ensures
        digits_val(s) >= digits_val(s.subrange(0, k)),
        digits_val(s.subrange(0, k)) >= 0,
    decreases s.len() - k,
{
    assert(all_digits(s.subrange(0, k)));
    lemma_digits_val_nonneg(s.subrange(0, k));
    if k < s.len() {
        let t = s.subrange(0, k + 1);
        assert(t.drop_last() =~= s.subrange(0, k));
        assert(digits_val(t) == digits_val(s.subrange(0, k)) * 10 + digit_val(s[k]));
        lemma_digits_val_prefix(s, k + 1);
    } else {
        assert(s.subrange(0, k) =~= s);
    }
}

/// Reads the characters of `s` as a 64-bit signed integer, exactly as
/// `spec_parse_i64` describes.
pub fn parse_i64(s: &Vec<char>) -> (r: Option<i64>)
    ensures
        r == spec_parse_i64(s@),
{
    let n = s.len();
    let mut start: usize = 0;
    let mut negative = false;
    if n > 0 && (s[0] == '+' || s[0] == '-') {
        negative = s[0] == '-';
        start = 1;
    }
    assert(s@.subrange(start as int, n as int) =~= unsigned_part(s@));
    if start == n {
        return None;
    }
    // Magnitude bound: i64::MIN has magnitude 2^63.
    let limit: u64 = if negative {
        9223372036854775808u64
    } else {
        9223372036854775807u64
    };
    let ghost u = unsigned_part(s@);
    let mut acc: u64 = 0;
    let mut i: usize = start;
    while i < n
        invariant
            start <= i <= n,
            n == s@.len(),
            start < n,
            negative == (n > 0 && s@[0] == '-'),
            limit == if negative {
                9223372036854775808u64
            } else {
                9223372036854775807u64
            },
            u == unsigned_part(s@),
            u =~= s@.subrange(start as int, n as int),
            all_digits(u.subrange(0, i - start)),
            acc as int == digits_val(u.subrange(0, i - start)),
            acc <= limit,
        decreases n - i,
    {
        let c = s[i];
        if !('0' <= c && c <= '9') {
            assert(!is_digit(u[i - start]));
            return None;
        }
        let d: u64 = (c as u32 as u64) - ('0' as u32 as u64);
        assert(d as int == digit_val(u[i - start]));
        let ghost pre = u.subrange(0, i - start);
        assert(u.subrange(0, i + 1 - start).drop_last() =~= pre);
        if acc > (limit - d) / 10 {
            // The digits read so far already exceed the range; more digits
            // only increase the value.
            proof {
                assert(acc * 10 + d > limit) by (nonlinear_arith)
                    requires
                        acc > (limit - d) / 10,
                        d < 10,
                        d <= limit,
                {}
                if all_digits(u) {
                    assert(digits_val(u.subrange(0, i + 1 - start)) == acc * 10 + d);
                    lemma_digits_val_prefix(u, i + 1 - start);
                    assert(digits_val(u) > limit);
                }
            }
            return None;
        }
        proof {
            assert(acc * 10 + d <= limit) by (nonlinear_arith)
                requires
                    acc <= (limit - d) / 10,
                    d < 10,
                    d <= limit,
            {}
        }
        acc = acc * 10 + d;
        i = i + 1;
    }
    assert(u.subrange(0, n - start) =~= u);
    if negative {
        proof {
            assert(s@[0] == '-');
        }
        if acc == 9223372036854775808u64 {
            Some(i64::MIN)
        } else {
            Some(-(acc as i64))
        }
    } else {
        Some(acc as i64)
    }
}

/// The decimal digits of `n`, most significant first.
pub open spec fn nat_digits_text(n: int) -> Seq<char>
    decreases n,
{
    if n < 10 {
        seq![digit_char(n)]
    } else {
        nat_digits_text(n / 10).push(digit_char(n % 10))
    }
}

/// Decimal text of an integer: a `-` sign for negatives, then the digits.
pub open spec fn int_text(n: int) -> Seq<char> {
    if n < 0 {
        seq!['-'] + nat_digits_text(-n)
    } else {
        nat_digits_text(n)
    }
}

pub open spec fn digit_char(d: int) -> char {
    if d == 0 {
        '0'
    } else if d == 1 {
        '1'
    } else if d == 2 {
        '2'
    } else if d == 3 {
        '3'
    } else if d == 4 {
        '4'
    } else if d == 5 {
        '5'
    } else if d == 6 {
        '6'
    } else if d == 7 {
        '7'
    } else if d == 8 {
        '8'
    } else {
        '9'
    }
}

fn digit_to_char(d: u64) -> (c: char)
    requires
        d < 10,
    ensures
        c == digit_char(d as int),
{
    if d == 0 {
        '0'
    } else if d == 1 {
        '1'
    } else if d == 2 {
        '2'
    } else if d == 3 {
        '3'
    } else if d == 4 {
        '4'
    } else if d == 5 {
        '5'
    } else if d == 6 {
        '6'
    } else if d == 7 {
        '7'
    } else if d == 8 {
        '8'
    } else {
        '9'
    }
}

fn u64_to_string(n: u64) -> (r: String)
    ensures
        r@ == nat_digits_text(n as int),
    decreases n,
{
    if n < 10 {
        let mut r = String::new();
        r.push(digit_to_char(n));
        r
    } else {
        let mut r = u64_to_string(n / 10);
        r.push(digit_to_char(n % 10));
        r
    }
}

/// Decimal text of a 64-bit signed integer, exactly as `int_text` describes.
pub fn i64_to_string(n: i64) -> (r: String)
    ensures
        r@ == int_text(n as int),
{
    if n >= 0 {
        u64_to_string(n as u64)
    } else {
        let magnitude: u64 = if n == i64::MIN {
            9223372036854775808u64
        } else {
            (-n) as u64
        };
        let mut r = String::new();
        r.push('-');
        let digits = u64_to_string(magnitude);
        r.append(digits.as_str());
        assert(r@ =~= seq!['-'] + nat_digits_text(magnitude as int));
        r
    }
}

/// Reads the characters of `s` as a float literal of the source grammar.
#[verifier::rlimit(30)]
pub fn is_float_token(s: &Vec<char>) -> (r: bool)
    ensures
        r == is_float_literal(s@),
{
    let n = s.len();
    let mut start: usize = 0;
    if n > 0 && (s[0] == '+' || s[0] == '-') {
        start = 1;
    }
    assert(s@.subrange(start as int, n as int) =~= unsigned_part(s@));
    let ghost u = unsigned_part(s@);
    // Find the first dot in the unsigned part.
    let mut j: usize = start;
    while j < n && s[j] != '.'
        invariant
            start <= j <= n,
            n == s@.len(),
            u =~= s@.subrange(start as int, n as int),
            forall|k: int| start <= k < j ==> s@[k] != '.',
            first_dot(u, 0) == first_dot(u, j - start),
        decreases n - j,
    {
        j = j + 1;
    }
    if j == n {
        assert(first_dot(u, j - start) == -1);
        return false;
    }
    assert(u[j - start] == '.');
    assert(first_dot(u, 0) == j - start);
    if j == start || j == n - 1 {
        return false;
    }
    // Digits before the dot.
    let mut k: usize = start;
    while k < j
        invariant
            start <= k <= j < n,
            n == s@.len(),
            u == unsigned_part(s@),
            u =~= s@.subrange(start as int, n as int),
            first_dot(u, 0) == j - start,
            1 <= j - start < u.len() - 1,
            all_digits(u.subrange(0, k - start)),
        decreases j - k,
    {
        let c = s[k];
        if !('0' <= c && c <= '9') {
            assert(!is_digit(u.subrange(0, j - start)[k - start]));
            return false;
        }
        assert(u.subrange(0, k + 1 - start) =~= u.subrange(0, k - start).push(u[k - start]));
        k = k + 1;
    }
    assert(all_digits(u.subrange(0, j - start)));
    // Digits after the dot.
    let mut m: usize = j + 1;
    while m < n
        invariant
            j + 1 <= m <= n,
            start <= j < n,
            n == s@.len(),
            u == unsigned_part(s@),
            u =~= s@.subrange(start as int, n as int),
            first_dot(u, 0) == j - start,
            1 <= j - start < u.len() - 1,
            all_digits(u.subrange(0, j - start)),
            all_digits(u.subrange(j + 1 - start, m - start)),
        decreases n - m,
    {
        let c = s[m];
        if !('0' <= c && c <= '9') {
            assert(!is_digit(u.subrange(j + 1 - start, u.len() as int)[m - (j + 1)]));
            return false;
        }
        assert(u.subrange(j + 1 - start, m + 1 - start) =~= u.subrange(
            j + 1 - start,
            m - start,
        ).push(u[m - start]));
        m = m + 1;
    }
    assert(u.subrange(j + 1 - start, m - start) =~= u.subrange(j + 1 - start, u.len() as int));
    true
}

} // verus!
