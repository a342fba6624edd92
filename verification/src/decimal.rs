//! A fixed-point decimal number with two fractional digits.
//!
//! A [`Decimal`] stores `actual_value * 100` in an `i64`; all arithmetic
//! works on that scaled integer, so monetary math is exact except where the
//! fixed-point convention itself truncates (multiplication and division
//! discard, toward zero, anything below one cent).

use vstd::prelude::*;

verus! {

/// A signed fixed-point number holding `actual_value * 100`.
#[derive(Clone, Copy, Debug, PartialEq, Eq, Structural)]
pub struct Decimal(pub i64);

/// The ways a [`Decimal`] operation can fail.
#[derive(Clone, Copy, Debug, PartialEq, Eq, Structural)]
pub enum DecimalError {
    /// The text did not normalize to a valid integer.
    ParseError,
    /// The divisor was the zero value.
    DivisionByZero,
}

/// Truncating (toward zero) integer division, as the machine's `/` operator
/// performs it on signed integers.
pub open spec fn trunc_div(a: int, b: int) -> int {
    if (a < 0) == (b < 0) {
        (vstd::math::abs(a) / vstd::math::abs(b)) as int
    } else {
        -((vstd::math::abs(a) / vstd::math::abs(b)) as int)
    }
}

// ------------------------------------------------------------------
// The model of parsing: split on the first `.`, pad or truncate the
// fractional part to exactly two digits, concatenate, and read the result
// as a plain integer literal.
// ------------------------------------------------------------------

/// Whether `c` is an ASCII decimal digit.
pub open spec fn is_digit_char(c: char) -> bool {
    48 <= c as u32 <= 57
}

/// The numeric value of a digit character.
pub open spec fn digit_val(c: char) -> int {
    c as u32 - 48
}

/// Whether every character of `s` is a decimal digit.
pub open spec fn all_digits(s: Seq<char>) -> bool {
    forall|i: int| 0 <= i < s.len() ==> is_digit_char(#[trigger] s[i])
}

/// The number denoted by a sequence of digit characters, most significant
/// first.
pub open spec fn digits_val(s: Seq<char>) -> int
    decreases s.len(),
{
    if s.len() == 0 {
        0
    } else {
        digits_val(s.drop_last()) * 10 + digit_val(s.last())
    }
}

/// The index of the first `.` at or after position `i`, or `s.len()` if
/// there is none.
pub open spec fn dot_from(s: Seq<char>, i: int) -> int
    decreases s.len() - i,
{
    if i < 0 || i >= s.len() {
        s.len() as int
    } else if s[i] == '.' {
        i
    } else {
        dot_from(s, i + 1)
    }
}

/// The text before the first `.` (the whole text if there is no `.`).
pub open spec fn int_part(s: Seq<char>) -> Seq<char> {
    s.take(dot_from(s, 0))
}

/// The text between the first `.` and the next `.` or the end; `0` if there
/// is no `.` at all.
pub open spec fn frac_part(s: Seq<char>) -> Seq<char> {
    let d1 = dot_from(s, 0);
    if d1 == s.len() {
        seq!['0']
    } else {
        s.subrange(d1 + 1, dot_from(s, d1 + 1))
    }
}

/// `f` padded on the right with `0`, or truncated, to exactly two
/// characters.
pub open spec fn pad2(f: Seq<char>) -> Seq<char> {
    if f.len() >= 2 {
        f.take(2)
    } else if f.len() == 1 {
        f + seq!['0']
    } else {
        seq!['0', '0']
    }
}

/// The integer part concatenated with the two-digit fractional part: the
/// text that is then read as one integer.
pub open spec fn normalized(s: Seq<char>) -> Seq<char> {
    int_part(s) + pad2(frac_part(s))
}

/// Whether `s` starts with an explicit sign.
pub open spec fn has_sign(s: Seq<char>) -> bool {
    s.len() > 0 && (s[0] == '-' || s[0] == '+')
}

/// `s` without its sign, if any.
pub open spec fn digits_of(s: Seq<char>) -> Seq<char> {
    if has_sign(s) {
        s.skip(1)
    } else {
        s
    }
}

/// Whether `s` is an integer literal: an optional sign followed by at least
/// one digit.
pub open spec fn is_int_literal(s: Seq<char>) -> bool {
    digits_of(s).len() > 0 && all_digits(digits_of(s))
}

/// The value of an integer literal.
pub open spec fn int_literal_val(s: Seq<char>) -> int {
    if s.len() > 0 && s[0] == '-' {
        -digits_val(digits_of(s))
    } else {
        digits_val(digits_of(s))
    }
}

/// What parsing `s` as a decimal yields: the scaled value, or nothing when
/// the normalized text is not an integer literal that fits in an `i64`.
pub open spec fn parse_decimal(s: Seq<char>) -> Option<i64> {
    let t = normalized(s);
    if is_int_literal(t) && i64::MIN <= int_literal_val(t) <= i64::MAX {
        Some(int_literal_val(t) as i64)
    } else {
        None
    }
}

// ------------------------------------------------------------------
// The model of formatting: the scaled value divided by 100, rendered
// exactly, with trailing zeros of the fractional part dropped.
// ------------------------------------------------------------------

/// The digit character for a value between 0 and 9.
pub open spec fn digit_char(d: int) -> char {
    if d == 0 {
        '0'
    } else if d == 1 {
        '1'
    } else if d == 2 {
        '2'
    } else if d == 3 {
        '3'
    } else if d == 4 {
        '4'
    } else if d == 5 {
        '5'
    } else if d == 6 {
        '6'
    } else if d == 7 {
        '7'
    } else if d == 8 {
        '8'
    } else {
        '9'
    }
}

/// The decimal digit string of a natural number, most significant digit
/// first.
pub open spec fn dec_rep(n: nat) -> Seq<char>
    decreases n,
{
    if n < 10 {
        seq![digit_char(n as int)]
    } else {
        dec_rep(n / 10).push(digit_char((n % 10) as int))
    }
}

/// The text that formatting the scaled value `v` yields: sign, integer part,
/// and a fractional part only where it is nonzero, with a trailing zero cent
/// digit dropped.
pub open spec fn render(v: int) -> Seq<char> {
    let a = vstd::math::abs(v);
    let sign: Seq<char> = if v < 0 {
        seq!['-']
    } else {
        Seq::<char>::empty()
    };
    let ip = dec_rep(a / 100);
    let f = a % 100;
    if f == 0 {
        sign + ip
    } else if f % 10 == 0 {
        sign + ip + seq!['.', digit_char(f as int / 10)]
    } else {
        sign + ip + seq!['.', digit_char(f as int / 10), digit_char(f as int % 10)]
    }
}

impl Decimal {
    /// The integer `val` as an exact decimal (`3` becomes `3.00`).
    pub fn from_int(val: i64) -> (r: Decimal)
        requires
            i64::MIN <= val * 100 <= i64::MAX,
        ensures
            r.0 == val * 100,
    {
        Decimal(val * 100)
    }

    /// Exact addition on the scaled representation.
    pub fn add(self, rhs: Decimal) -> (r: Decimal)
        requires
            i64::MIN <= self.0 + rhs.0 <= i64::MAX,
        ensures
            r.0 == self.0 + rhs.0,
    {
        Decimal(self.0 + rhs.0)
    }

    /// Exact subtraction on the scaled representation.
    pub fn sub(self, rhs: Decimal) -> (r: Decimal)
        requires
            i64::MIN <= self.0 - rhs.0 <= i64::MAX,
        ensures
            r.0 == self.0 - rhs.0,
    {
        Decimal(self.0 - rhs.0)
    }

    /// Fixed-point multiplication: the product of the scaled values,
    /// rescaled by 100 with truncation toward zero. `0.10 * 0.10` is `0.01`;
    /// `0.10 * 0.01` is `0.00`.
    pub fn mul(self, rhs: Decimal) -> (r: Decimal)
        requires
            i64::MIN <= self.0 * rhs.0 <= i64::MAX,
        ensures
            r.0 == trunc_div(self.0 * rhs.0, 100),
    {
        let p = self.0 * rhs.0;
        Decimal(div_trunc_i64(p, 100))
    }

    /// Fixed-point division: the dividend rescaled by 100, divided by the
    /// divisor's scaled value with truncation toward zero. Fails if and only
    /// if the divisor is the zero value.
    pub fn div(self, rhs: Decimal) -> (r: Result<Decimal, DecimalError>)
        requires
            i64::MIN <= self.0 * 100 <= i64::MAX,
        ensures
            match r {
                Ok(d) => rhs.0 != 0 && d.0 == trunc_div(self.0 * 100, rhs.0 as int),
                Err(e) => rhs.0 == 0 && e == DecimalError::DivisionByZero,
            },
    {
        if rhs.0 == 0 {
            Err(DecimalError::DivisionByZero)
        } else {
            let p = self.0 * 100;
            proof {
                assert(p != i64::MIN) by {
                    assert((100 * (self.0 as int)) % 100 == 0) by (nonlinear_arith);
                    assert((i64::MIN as int) % 100 == 92);
                };
            }
            Ok(Decimal(div_trunc_i64(p, rhs.0)))
        }
    }

    /// Exact comparison on the scaled representation.
    pub fn lt(self, rhs: Decimal) -> (r: bool)
        ensures
            r == (self.0 < rhs.0),
    {
        self.0 < rhs.0
    }

    /// Exact comparison on the scaled representation.
    pub fn le(self, rhs: Decimal) -> (r: bool)
        ensures
            r == (self.0 <= rhs.0),
    {
        self.0 <= rhs.0
    }
}

// ------------------------------------------------------------------
// Facts about digit strings and the position of the decimal separator.
// ------------------------------------------------------------------

/// A string of digits denotes a non-negative number.
proof fn lemma_digits_val_nonneg(s: Seq<char>)
    requires
        all_digits(s),
    ensures
        digits_val(s) >= 0,
    decreases s.len(),
{
    if s.len() > 0 {
        assert(all_digits(s.drop_last()));
        lemma_digits_val_nonneg(s.drop_last());
    }
}

/// Dropping trailing digits can only make the denoted number smaller.
proof fn lemma_digits_val_take(s: Seq<char>, k: int)
    requires
        all_digits(s),
        0 <= k <= s.len(),
    ensures
        digits_val(s.take(k)) <= digits_val(s),
    decreases s.len(),
{
    if k < s.len() {
        assert(all_digits(s.drop_last()));
        assert(s.take(k) =~= s.drop_last().take(k));
        lemma_digits_val_take(s.drop_last(), k);
        lemma_digits_val_nonneg(s.drop_last());
        assert(is_digit_char(s[s.len() - 1]));
    } else {
        assert(s.take(k) =~= s);
    }
}

/// `dot_from` never points before its start nor past the end.
proof fn lemma_dot_from_bounds(s: Seq<char>, k: int)
    requires
        0 <= k <= s.len(),
    ensures
        k <= dot_from(s, k) <= s.len(),
    decreases s.len() - k,
{
    if k < s.len() && s[k] != '.' {
        lemma_dot_from_bounds(s, k + 1);
    }
}

/// Where a scan shows no dot up to `d` and one (or the end) at `d`, that is
/// where `dot_from` points.
proof fn lemma_dot_from_is(s: Seq<char>, k: int, d: int)
    requires
        0 <= k <= d <= s.len(),
        forall|j: int| k <= j < d ==> s[j] != '.',
        d == s.len() || s[d] == '.',
    ensures
        dot_from(s, k) == d,
    decreases d - k,
{
    if k < d {
        lemma_dot_from_is(s, k + 1, d);
    }
}

/// Where a scan shows no dot up to `j`, `dot_from` points at or after `j`.
proof fn lemma_dot_from_ge(s: Seq<char>, k: int, j: int)
    requires
        0 <= k <= j <= s.len(),
        forall|t: int| k <= t < j ==> s[t] != '.',
    ensures
        dot_from(s, k) >= j,
    decreases j - k,
{
    if k < j {
        lemma_dot_from_ge(s, k + 1, j);
    } else {
        lemma_dot_from_bounds(s, k);
    }
}

// ------------------------------------------------------------------
// Executable parsing.
// ------------------------------------------------------------------

/// Reads a (possibly signed) integer literal, failing exactly where the text
/// is not such a literal or its value does not fit in an `i64`.
fn parse_int64(c: &Vec<char>) -> (r: Option<i64>)
    ensures
        match r {
            Some(v) => is_int_literal(c@) && i64::MIN <= int_literal_val(c@) <= i64::MAX
                && v == int_literal_val(c@),
            None => !(is_int_literal(c@) && i64::MIN <= int_literal_val(c@) <= i64::MAX),
        },
{
    let len = c.len();
    let mut start: usize = 0;
    let mut neg = false;
    if len > 0 && (c[0] == '-' || c[0] == '+') {
        neg = c[0] == '-';
        start = 1;
    }
    if start >= len {
        assert(digits_of(c@).len() == 0);
        return None;
    }
    let limit: i128 = if neg {
        9223372036854775808i128
    } else {
        9223372036854775807i128
    };
    let mut acc: i128 = 0;
    let mut i: usize = start;
    proof {
        assert(c@.subrange(start as int, start as int) =~= Seq::<char>::empty());
    }
    while i < len
        invariant
            start <= i <= len,
            0 < len,
            start < len,
            len == c@.len(),
            start == if has_sign(c@) { 1int } else { 0int },
            neg == (c@.len() > 0 && c@[0] == '-'),
            limit == if neg { 0x8000000000000000i128 } else { 0x7fffffffffffffffi128 },
            all_digits(c@.subrange(start as int, i as int)),
            acc == digits_val(c@.subrange(start as int, i as int)),
            0 <= acc <= limit,
        decreases len - i,
    {
        let ch = c[i];
        let cu = ch as u32;
        if cu < 48 || cu > 57 {
            proof {
                assert(digits_of(c@)[i - start] == c@[i as int]);
                assert(!all_digits(digits_of(c@)));
            }
            return None;
        }
        let d = (cu - 48) as i128;
        proof {
            assert(c@.subrange(start as int, i + 1).drop_last() =~= c@.subrange(
                start as int,
                i as int,
            ));
            assert(c@.subrange(start as int, i + 1).last() == c@[i as int]);
        }
        acc = acc * 10 + d;
        if acc > limit {
            proof {
                if is_int_literal(c@) {
                    let ds = c@.subrange(start as int, len as int);
                    assert(ds =~= digits_of(c@));
                    assert(ds.take(i + 1 - start) =~= c@.subrange(start as int, i + 1));
                    lemma_digits_val_take(ds, i + 1 - start);
                }
            }
            return None;
        }
        i += 1;
    }
    proof {
        assert(c@.subrange(start as int, len as int) =~= digits_of(c@));
    }
    if neg {
        Some((-acc) as i64)
    } else {
        Some(acc as i64)
    }
}

impl Decimal {
    /// Parses decimal text: the part before the first `.` and the part after
    /// it, the latter padded or truncated to exactly two digits, are read
    /// together as one scaled integer. Fails with `ParseError` if and only
    /// if that text is not a valid integer.
    pub fn from_str(s: &str) -> (r: Result<Decimal, DecimalError>)
        ensures
            match r {
                Ok(d) => parse_decimal(s@) == Some(d.0),
                Err(e) => e == DecimalError::ParseError && parse_decimal(s@) is None,
            },
    {
        let n = s.unicode_len();
        let mut combined: Vec<char> = Vec::new();
        let mut i: usize = 0;
        loop
            invariant
                0 <= i <= n,
                n == s@.len(),
                combined@ == s@.take(i as int),
                forall|j: int| 0 <= j < i ==> s@[j] != '.',
            ensures
                0 <= i <= n,
                n == s@.len(),
                combined@ == s@.take(i as int),
                forall|j: int| 0 <= j < i ==> s@[j] != '.',
                i == n || s@[i as int] == '.',
            decreases n - i,
        {
            if i >= n {
                break ;
            }
            let ch = s.get_char(i);
            if ch == '.' {
                break ;
            }
            combined.push(ch);
            proof {
                assert(combined@ =~= s@.take(i + 1));
            }
            i += 1;
        }
        proof {
            lemma_dot_from_is(s@, 0, i as int);
            assert(int_part(s@) =~= combined@);
        }
        if i < n {
            let ghost d2 = dot_from(s@, i + 1);
            proof {
                lemma_dot_from_bounds(s@, i + 1);
            }
            let mut fcount: usize = 0;
            let mut j: usize = i + 1;
            loop
                invariant
                    n == s@.len(),
                    i < n,
                    s@[i as int] == '.',
                    i + 1 <= j <= n,
                    fcount == j - i - 1,
                    fcount <= 2,
                    combined@ == s@.take(i as int) + s@.subrange(i + 1, j as int),
                    forall|t: int| i + 1 <= t < j ==> s@[t] != '.',
                ensures
                    i + 1 <= j <= n,
                    fcount == j - i - 1,
                    fcount <= 2,
                    combined@ == s@.take(i as int) + s@.subrange(i + 1, j as int),
                    forall|t: int| i + 1 <= t < j ==> s@[t] != '.',
                    fcount == 2 || j == n || s@[j as int] == '.',
                decreases n - j,
            {
                if j >= n || fcount >= 2 {
                    break ;
                }
                let ch = s.get_char(j);
                if ch == '.' {
                    break ;
                }
                combined.push(ch);
                proof {
                    assert(combined@ =~= s@.take(i as int) + s@.subrange(i + 1, j + 1));
                }
                fcount += 1;
                j += 1;
            }
            proof {
                if fcount < 2 {
                    lemma_dot_from_is(s@, i + 1, j as int);
                } else {
                    lemma_dot_from_ge(s@, i + 1, j as int);
                }
            }
            if fcount == 0 {
                combined.push('0');
                combined.push('0');
            } else if fcount == 1 {
                combined.push('0');
            }
            proof {
                let f = frac_part(s@);
                if fcount < 2 {
                    assert(f =~= s@.subrange(i + 1, j as int));
                } else {
                    assert(f == s@.subrange(i + 1, d2));
                    assert(f.take(2) =~= s@.subrange(i + 1, j as int));
                }
                assert(combined@ =~= normalized(s@));
            }
        } else {
            combined.push('0');
            combined.push('0');
            proof {
                assert(int_part(s@) =~= s@);
                assert(combined@ =~= normalized(s@));
            }
        }
        match parse_int64(&combined) {
            Some(v) => Ok(Decimal(v)),
            None => Err(DecimalError::ParseError),
        }
    }
}

/// The decimal denoted by `val`, which must be valid decimal text.
pub fn dec(val: &str) -> (r: Decimal)
    requires
        parse_decimal(val@) is Some,
    ensures
        parse_decimal(val@) == Some(r.0),
{
    match Decimal::from_str(val) {
        Ok(d) => d,
        Err(_) => vstd::pervasive::unreached(),
    }
}

// ------------------------------------------------------------------
// Executable formatting.
// ------------------------------------------------------------------

/// A digit's value is between 0 and 9 and `digit_char` inverts `digit_val`.
proof fn lemma_digit_char(d: int)
    requires
        0 <= d <= 9,
    ensures
        is_digit_char(digit_char(d)),
        digit_val(digit_char(d)) == d,
{
}

/// The one-character string for a digit value.
fn digit_str(d: u64) -> (r: &'static str)
    requires
        d < 10,
    ensures
        r@ == seq![digit_char(d as int)],
{
    if d == 0 {
        proof {
            reveal_strlit("0");
            assert("0"@ =~= seq![digit_char(0)]);
        }
        "0"
    } else if d == 1 {
        proof {
            reveal_strlit("1");
            assert("1"@ =~= seq![digit_char(1)]);
        }
        "1"
    } else if d == 2 {
        proof {
            reveal_strlit("2");
            assert("2"@ =~= seq![digit_char(2)]);
        }
        "2"
    } else if d == 3 {
        proof {
            reveal_strlit("3");
            assert("3"@ =~= seq![digit_char(3)]);
        }
        "3"
    } else if d == 4 {
        proof {
            reveal_strlit("4");
            assert("4"@ =~= seq![digit_char(4)]);
        }
        "4"
    } else if d == 5 {
        proof {
            reveal_strlit("5");
            assert("5"@ =~= seq![digit_char(5)]);
        }
        "5"
    } else if d == 6 {
        proof {
            reveal_strlit("6");
            assert("6"@ =~= seq![digit_char(6)]);
        }
        "6"
    } else if d == 7 {
        proof {
            reveal_strlit("7");
            assert("7"@ =~= seq![digit_char(7)]);
        }
        "7"
    } else if d == 8 {
        proof {
            reveal_strlit("8");
            assert("8"@ =~= seq![digit_char(8)]);
        }
        "8"
    } else {
        proof {
            reveal_strlit("9");
            assert("9"@ =~= seq![digit_char(9)]);
        }
        "9"
    }
}

/// Appends the decimal digits of `n`, most significant first.
fn push_uint(s: &mut String, n: u64)
    ensures
        final(s)@ == old(s)@ + dec_rep(n as nat),
    decreases n,
{
    if n < 10 {
        s.append(digit_str(n));
        proof {
            assert(s@ =~= old(s)@ + dec_rep(n as nat));
        }
    } else {
        proof {
            assert(n as int / 10 < n as int) by (nonlinear_arith)
                requires
                    n >= 10,
            ;
        }
        push_uint(s, n / 10);
        s.append(digit_str(n % 10));
        proof {
            assert(s@ =~= old(s)@ + dec_rep(n as nat));
        }
    }
}

impl Decimal {
    /// Renders the value: the scaled integer divided by 100, written
    /// exactly, with the fractional part left off when it is zero and its
    /// trailing zero dropped (stored 10 prints as "0.1", not "0.10").
    pub fn to_string(&self) -> (r: String)
        ensures
            r@ == render(self.0 as int),
    {
        let v = self.0;
        let mut s = String::new();
        if v < 0 {
            s.append("-");
        }
        proof {
            reveal_strlit("-");
            assert(v < 0 ==> s@ =~= seq!['-']);
        }
        let a = abs_u64(v);
        push_uint(&mut s, a / 100);
        let f = a % 100;
        if f != 0 {
            s.append(".");
            proof {
                reveal_strlit(".");
            }
            if f % 10 == 0 {
                s.append(digit_str(f / 10));
            } else {
                s.append(digit_str(f / 10));
                s.append(digit_str(f % 10));
            }
        }
        proof {
            assert(s@ =~= render(v as int));
        }
        s
    }
}

// ------------------------------------------------------------------
// The round trip from text through a value back to text.
// ------------------------------------------------------------------

/// The digit string of `n` is non-empty, all digits, and denotes `n`.
proof fn lemma_dec_rep(n: nat)
    ensures
        dec_rep(n).len() >= 1,
        all_digits(dec_rep(n)),
        digits_val(dec_rep(n)) == n,
    decreases n,
{
    if n < 10 {
        lemma_digit_char(n as int);
        assert(dec_rep(n).drop_last() =~= Seq::<char>::empty());
        assert(digits_val(dec_rep(n).drop_last()) == 0);
        assert(dec_rep(n).last() == digit_char(n as int));
    } else {
        lemma_dec_rep(n / 10);
        lemma_digit_char((n % 10) as int);
        let p = dec_rep(n / 10);
        let c = digit_char((n % 10) as int);
        assert(p.push(c).drop_last() =~= p);
        assert(p.push(c).last() == c);
        assert(digits_val(p.push(c)) == digits_val(p) * 10 + digit_val(c));
        vstd::arithmetic::div_mod::lemma_fundamental_div_mod(n as int, 10);
        assert(all_digits(p.push(c)));
    }
}

/// Digit strings contain no decimal separator.
proof fn lemma_no_dot_in_digits(s: Seq<char>)
    requires
        all_digits(s),
    ensures
        forall|j: int| 0 <= j < s.len() ==> s[j] != '.',
{
    assert forall|j: int| 0 <= j < s.len() implies s[j] != '.' by {
        assert(is_digit_char(s[j]));
    }
}

/// Appending two characters to a digit string shifts its value by two
/// decimal places.
proof fn lemma_digits_val_two_more(p: Seq<char>, c1: char, c2: char)
    ensures
        digits_val(p + seq![c1, c2]) == digits_val(p) * 100 + digit_val(c1) * 10 + digit_val(c2),
{
    let q = p + seq![c1, c2];
    assert(q.drop_last() =~= p.push(c1));
    assert(q.last() == c2);
    assert(p.push(c1).drop_last() =~= p);
    assert(p.push(c1).last() == c1);
    assert(digits_val(p.push(c1)) == digits_val(p) * 10 + digit_val(c1));
    assert(digits_val(q) == digits_val(p.push(c1)) * 10 + digit_val(c2));
}

/// An optional minus sign followed by digits is an integer literal with the
/// signed value of those digits.
proof fn lemma_literal_value(t: Seq<char>, neg: bool, ds: Seq<char>)
    requires
        t =~= (if neg {
            seq!['-']
        } else {
            Seq::<char>::empty()
        }) + ds,
        all_digits(ds),
        ds.len() > 0,
    ensures
        is_int_literal(t),
        int_literal_val(t) == if neg {
            -digits_val(ds)
        } else {
            digits_val(ds)
        },
{
    if neg {
        assert(t[0] == '-');
        assert(digits_of(t) =~= ds);
    } else {
        assert(t[0] == ds[0]);
        assert(is_digit_char(ds[0]));
        assert(t =~= ds);
        assert(digits_of(t) == t);
    }
}

/// Parsing the rendering of any scaled value gives that value back: the
/// textual round trip is exact for every representable decimal.
pub proof fn lemma_render_parse_round_trip(v: i64)
    ensures
        parse_decimal(render(v as int)) == Some(v),
{
    let a = vstd::math::abs(v as int);
    let ip = a / 100;
    let f = a % 100;
    lemma_dec_rep(ip);
    let rep = dec_rep(ip);
    let sign: Seq<char> = if v < 0 {
        seq!['-']
    } else {
        Seq::<char>::empty()
    };
    let sl = sign.len() as int;
    let t = render(v as int);
    lemma_no_dot_in_digits(rep);
    vstd::arithmetic::div_mod::lemma_fundamental_div_mod(a as int, 100);
    vstd::arithmetic::div_mod::lemma_fundamental_div_mod(f as int, 10);
    let ds = if f == 0 {
        rep + seq!['0', '0']
    } else if f % 10 == 0 {
        rep + seq![digit_char(f as int / 10), '0']
    } else {
        rep + seq![digit_char(f as int / 10), digit_char(f as int % 10)]
    };
    lemma_digit_char(0);
    lemma_digit_char(f as int / 10);
    lemma_digit_char(f as int % 10);
    assert(all_digits(ds));
    if f == 0 {
        lemma_digits_val_two_more(rep, '0', '0');
        assert(forall|j: int| 0 <= j < t.len() ==> t[j] != '.');
        lemma_dot_from_is(t, 0, t.len() as int);
        assert(int_part(t) =~= t);
        assert(pad2(frac_part(t)) =~= seq!['0', '0']);
        assert(normalized(t) =~= sign + ds);
    } else {
        let c1 = digit_char(f as int / 10);
        let p = sl + rep.len() as int;
        assert(t[p] == '.');
        assert(forall|j: int| 0 <= j < p ==> t[j] != '.');
        lemma_dot_from_is(t, 0, p);
        assert(forall|j: int| p + 1 <= j < t.len() ==> t[j] != '.');
        lemma_dot_from_is(t, p + 1, t.len() as int);
        assert(int_part(t) =~= sign + rep);
        if f % 10 == 0 {
            lemma_digits_val_two_more(rep, c1, '0');
            assert(frac_part(t) =~= seq![c1]);
            assert(pad2(frac_part(t)) =~= seq![c1, '0']);
        } else {
            let c2 = digit_char(f as int % 10);
            lemma_digits_val_two_more(rep, c1, c2);
            assert(frac_part(t) =~= seq![c1, c2]);
            assert(pad2(frac_part(t)) =~= seq![c1, c2]);
        }
        assert(normalized(t) =~= sign + ds);
    }
    assert(digits_val(ds) == a);
    lemma_literal_value(normalized(t), v < 0, ds);
    assert(int_literal_val(normalized(t)) == v);
}

/// Formatting a parsed decimal gives text that parses back to the very same
/// scaled value: the scale is preserved even where trailing zeros are not.
pub proof fn lemma_format_parse_round_trip(s: Seq<char>)
    requires
        parse_decimal(s) is Some,
    ensures
        parse_decimal(render(parse_decimal(s).unwrap() as int)) == parse_decimal(s),
{
    lemma_render_parse_round_trip(parse_decimal(s).unwrap());
}

/// The absolute value of `a`, as the unsigned type that can hold all of it.
fn abs_u64(a: i64) -> (r: u64)
    ensures
        r == vstd::math::abs(a as int),
{
    if a >= 0 {
        a as u64
    } else {
        (-(a as i128)) as u64
    }
}

/// Truncating division on signed machine words, via the unsigned magnitudes.
fn div_trunc_i64(a: i64, b: i64) -> (r: i64)
    requires
        b != 0,
        !(a == i64::MIN && b == -1),
    ensures
        r == trunc_div(a as int, b as int),
{
    let ma = abs_u64(a);
    let mb = abs_u64(b);
    let q = ma / mb;
    proof {
        assert(ma as int / mb as int <= ma as int) by (nonlinear_arith)
            requires
                mb >= 1,
                ma >= 0,
        ;
        if a == i64::MIN && b < 0 {
            assert(mb >= 2);
            assert(ma as int / mb as int <= ma as int / 2) by (nonlinear_arith)
                requires
                    mb >= 2,
                    ma >= 0,
            ;
        }
    }
    if (a < 0) != (b < 0) {
        (-(q as i128)) as i64
    } else {
        q as i64
    }
}

} // verus!

