//! Decimal numbers in text, held as fixed-point integers.
//!
//! A decimal is a whole number of units of 10^-10: the integer
//! 5 000 000 000 stands for one half. Text is read as floating point
//! numbers are written, with or without an exponent; what it writes down is
//! taken exactly up to the tenth digit behind the point and cut off there.
//! Text is written without an exponent and with as few digits as give the
//! number back.

use vstd::arithmetic::div_mod::{lemma_fundamental_div_mod, lemma_fundamental_div_mod_converse};
use vstd::prelude::*;
use vstd::string::StringExecFns;

verus! {

/// The number of digits that a decimal keeps behind the point.
pub const FRACTION_DIGITS: usize = 10;

/// The decimal that stands for one.
pub const UNIT: i128 = 10_000_000_000;

/// The bound of the decimals that text can hold: two to the power of 32,
/// in units. A decimal `v` is in range if `-LIMIT < v < LIMIT`.
pub const LIMIT: i128 = 42_949_672_960_000_000_000;

/// Whether `v` is a decimal in range.
pub open spec fn in_range(v: int) -> bool {
    -LIMIT < v < LIMIT
}

/// Whether `c` is one of the ten digits.
pub open spec fn is_digit(c: char) -> bool {
    '0' <= c && c <= '9'
}

/// The number that the digit `c` stands for.
pub open spec fn digit_value(c: char) -> int {
    c as int - '0' as int
}

/// The digit that stands for `d`, which is less than ten.
pub open spec fn digit_char(d: int) -> char {
    (d + '0' as int) as char
}

/// Whether `s` holds nothing but digits.
pub open spec fn all_digits(s: Seq<char>) -> bool {
    forall|i: int| 0 <= i < s.len() ==> is_digit(#[trigger] s[i])
}

/// The number that a sequence of digits stands for; the empty sequence
/// stands for zero.
pub open spec fn digits_value(s: Seq<char>) -> int
    decreases s.len(),
{
    if s.len() == 0 {
        0
    } else {
        10 * digits_value(s.drop_last()) + digit_value(s.last())
    }
}

/// Ten to the power of `n`.
pub open spec fn pow10(n: nat) -> int
    decreases n,
{
    if n == 0 {
        1
    } else {
        10 * pow10((n - 1) as nat)
    }
}

/// The position of the first `c` in `s`, or the length of `s` where it
/// holds none.
pub open spec fn find_char(s: Seq<char>, c: char) -> int {
    crate::text::first_of(s, c, c)
}

/// A number as it stands in text: a sign, the digits before the point, the
/// digits behind it, and the power of ten that all of it is multiplied by.
pub struct Numeral {
    pub negative: bool,
    pub whole: Seq<char>,
    pub fraction: Seq<char>,
    pub exponent: int,
}

/// `v` times ten to the power of `shift`, cut off to a whole number where
/// `shift` is negative.
pub open spec fn scaled(v: int, shift: int) -> int {
    if shift >= 0 {
        v * pow10(shift as nat)
    } else {
        v / pow10((-shift) as nat)
    }
}

impl Numeral {
    /// The power of ten that turns the digits, read as one whole number,
    /// into units.
    pub open spec fn shift(self) -> int {
        FRACTION_DIGITS + self.exponent - self.fraction.len()
    }

    /// The absolute value in units, cut off behind the tenth digit behind
    /// the point.
    pub open spec fn magnitude(self) -> int {
        scaled(digits_value(self.whole + self.fraction), self.shift())
    }

    /// The value in units, with its sign.
    pub open spec fn value(self) -> int {
        if self.negative {
            -self.magnitude()
        } else {
            self.magnitude()
        }
    }
}

/// Whether `t` starts with a sign.
pub open spec fn is_signed(t: Seq<char>) -> bool {
    t.len() > 0 && (t[0] == '+' || t[0] == '-')
}

/// `t` without its sign.
pub open spec fn unsigned_part(t: Seq<char>) -> Seq<char> {
    if is_signed(t) {
        t.drop_first()
    } else {
        t
    }
}

/// The number that the text `t` writes down, if it is one: an optional sign,
/// then digits with at most one point among them, before them or behind
/// them, and at least one digit; behind that there may stand an `e` or an
/// `E` and an integer, the exponent. Nothing may stand before or behind the
/// number.
pub open spec fn numeral_of(t: Seq<char>) -> Option<Numeral> {
    let body = unsigned_part(t);
    let mark = crate::text::first_of(body, 'e', 'E');
    let mantissa = body.take(mark);
    let exponent = if mark < body.len() {
        integer_value(body.skip(mark + 1))
    } else {
        Some(0int)
    };
    let point = find_char(mantissa, '.');
    let whole = mantissa.take(point);
    let fraction = if point < mantissa.len() {
        mantissa.skip(point + 1)
    } else {
        Seq::<char>::empty()
    };
    if all_digits(whole) && all_digits(fraction) && whole.len() + fraction.len() > 0
        && exponent is Some {
        Some(Numeral { negative: t[0] == '-', whole, fraction, exponent: exponent.unwrap() })
    } else {
        None
    }
}

/// The decimal that the text `t` writes down, if it writes one that is in
/// range.
pub open spec fn decimal_value(t: Seq<char>) -> Option<int> {
    match numeral_of(t) {
        Some(n) => if n.magnitude() < LIMIT {
            Some(n.value())
        } else {
            None
        },
        None => None,
    }
}

/// The integer that the text `t` writes down, if it writes one: an optional
/// sign and at least one digit.
pub open spec fn integer_value(t: Seq<char>) -> Option<int> {
    let body = unsigned_part(t);
    if all_digits(body) && body.len() > 0 {
        Some(
            if t[0] == '-' {
                -digits_value(body)
            } else {
                digits_value(body)
            },
        )
    } else {
        None
    }
}

/// A digit more at the end makes a number ten times as large, and more.
pub proof fn lemma_digits_value_push(s: Seq<char>, c: char)
    ensures
        digits_value(s.push(c)) == 10 * digits_value(s) + digit_value(c),
{
    assert(s.push(c).drop_last() =~= s);
}

/// A sequence of digits stands for a number that is not negative, and for
/// no less than any of its beginnings.
pub proof fn lemma_digits_value_grows(s: Seq<char>, k: int)
    requires
        all_digits(s),
        0 <= k <= s.len(),
    ensures
        0 <= digits_value(s.take(k)) <= digits_value(s),
        digits_value(s) < pow10(s.len()),
    decreases s.len(),
{
    if s.len() == 0 {
        assert(s.take(k) =~= s);
    } else {
        let front = s.drop_last();
        assert(is_digit(s.last()));
        if k == s.len() {
            assert(s.take(k) =~= s);
            lemma_digits_value_grows(front, k - 1);
        } else {
            assert(s.take(k) =~= front.take(k));
            lemma_digits_value_grows(front, k);
        }
    }
}

/// The digits of two sequences in a row: the first counts for as many
/// powers of ten more as the second is long.
pub proof fn lemma_digits_value_concat(a: Seq<char>, b: Seq<char>)
    ensures
        digits_value(a + b) == digits_value(a) * pow10(b.len()) + digits_value(b),
    decreases b.len(),
{
    if b.len() == 0 {
        assert(a + b =~= a);
    } else {
        let front = b.drop_last();
        assert((a + b).drop_last() =~= a + front);
        assert((a + b).last() == b.last());
        lemma_digits_value_concat(a, front);
        assert(pow10(b.len()) == 10 * pow10(front.len()));
        assert(10 * (digits_value(a) * pow10(front.len())) == digits_value(a) * (10 * pow10(
            front.len(),
        ))) by (nonlinear_arith);
    }
}

/// Powers of ten are positive.
pub proof fn lemma_pow10_positive(n: nat)
    ensures
        pow10(n) > 0,
    decreases n,
{
    if n > 0 {
        lemma_pow10_positive((n - 1) as nat);
    }
}

/// The product of two powers of ten is the power of the sum.
pub proof fn lemma_pow10_adds(a: nat, b: nat)
    ensures
        pow10(a + b) == pow10(a) * pow10(b),
    decreases a,
{
    if a > 0 {
        lemma_pow10_adds((a - 1) as nat, b);
        assert(10 * (pow10((a - 1) as nat) * pow10(b)) == (10 * pow10((a - 1) as nat)) * pow10(b))
            by (nonlinear_arith);
    }
}

/// `pow10(10)` is the unit.
pub proof fn lemma_pow10_is_unit()
    ensures
        pow10(FRACTION_DIGITS as nat) == UNIT,
{
    reveal_with_fuel(pow10, 11);
}

/// A larger power of ten is a larger number, and twenty-one digits are more
/// than a decimal in range has.
pub proof fn lemma_pow10_grows(a: nat, b: nat)
    requires
        a <= b,
    ensures
        1 <= pow10(a) <= pow10(b),
        21 <= b ==> LIMIT < pow10(b),
    decreases b,
{
    lemma_pow10_positive(a);
    if a < b {
        lemma_pow10_grows(a, (b - 1) as nat);
    }
    if b == 21 {
        reveal_with_fuel(pow10, 22);
    } else if b > 21 {
        lemma_pow10_grows(21, (b - 1) as nat);
    }
}

/// To cut a number off before its last digits is to leave the digits out.
pub proof fn lemma_cut(d: Seq<char>, k: int)
    requires
        all_digits(d),
        0 <= k <= d.len(),
    ensures
        digits_value(d) / pow10((d.len() - k) as nat) == digits_value(d.take(k)),
{
    let head = d.take(k);
    let tail = d.skip(k);
    assert(head + tail =~= d);
    assert(all_digits(tail));
    lemma_digits_value_concat(head, tail);
    lemma_digits_value_grows(tail, 0);
    lemma_pow10_positive(tail.len());
    let q = pow10(tail.len());
    assert(digits_value(head) * q == q * digits_value(head)) by (nonlinear_arith);
    lemma_fundamental_div_mod_converse(digits_value(d), q, digits_value(head), digits_value(tail));
}

/// A number that is cut off before its first digit is zero.
pub proof fn lemma_cut_all(d: Seq<char>, beyond: nat)
    requires
        all_digits(d),
        beyond >= d.len(),
    ensures
        digits_value(d) / pow10(beyond) == 0,
{
    lemma_digits_value_grows(d, 0);
    lemma_pow10_grows(d.len(), beyond);
    lemma_fundamental_div_mod_converse(digits_value(d), pow10(beyond), 0, digits_value(d));
}

/// Whether `c` is a digit.
pub fn is_digit_char(c: char) -> (r: bool)
    ensures
        r == is_digit(c),
{
    '0' <= c && c <= '9'
}

/// The position of the first `a` or `b` from `from` up to `to`, or `to`.
fn find(t: &Vec<char>, from: usize, to: usize, a: char, b: char) -> (k: usize)
    requires
        from <= to <= t.len(),
    ensures
        from <= k <= to,
        k - from == crate::text::first_of(t@.subrange(from as int, to as int), a, b),
{
    let mut k = from;
    while k < to && t[k] != a && t[k] != b
        invariant
            from <= k <= to <= t.len(),
            forall|i: int| from <= i < k ==> t[i] != a && t[i] != b,
        decreases to - k,
    {
        k += 1;
    }
    proof {
        let part = t@.subrange(from as int, to as int);
        assert forall|i: int| 0 <= i < k - from implies part[i] != a && part[i] != b by {
            assert(part[i] == t[from + i]);
        }
        if k < to {
            assert(part[k - from] == t[k as int]);
        }
        crate::text::lemma_first_of(part, a, b, k - from);
    }
    k
}

/// Whether `t` holds nothing but digits from `lo` up to `hi`.
fn digits_only(t: &Vec<char>, lo: usize, hi: usize) -> (r: bool)
    requires
        lo <= hi <= t.len(),
    ensures
        r == all_digits(t@.subrange(lo as int, hi as int)),
{
    let mut i = lo;
    while i < hi
        invariant
            lo <= i <= hi <= t.len(),
            forall|j: int| lo <= j < i ==> is_digit(t[j]),
        decreases hi - i,
    {
        if !is_digit_char(t[i]) {
            proof {
                let sub = t@.subrange(lo as int, hi as int);
                assert(sub[i - lo] == t[i as int]);
            }
            return false;
        }
        i += 1;
    }
    proof {
        let sub = t@.subrange(lo as int, hi as int);
        assert forall|j: int| 0 <= j < sub.len() implies is_digit(#[trigger] sub[j]) by {
            assert(sub[j] == t[lo + j]);
        }
    }
    true
}

/// The largest number that [`read_digits`] can be asked to read up to.
const READ_LIMIT: u128 = 0x1000_0000_0000_0000_0000_0000_0000_0000;

/// The number that the digits of `t` from `lo` up to `hi` stand for, unless
/// it is larger than `cap`.
fn read_digits(t: &Vec<char>, lo: usize, hi: usize, cap: u128) -> (r: Option<u128>)
    requires
        lo <= hi <= t.len(),
        all_digits(t@.subrange(lo as int, hi as int)),
        cap <= READ_LIMIT,
    ensures
        match r {
            Some(v) => v == digits_value(t@.subrange(lo as int, hi as int)) && v <= cap,
            None => digits_value(t@.subrange(lo as int, hi as int)) > cap,
        },
{
    let ghost digits = t@.subrange(lo as int, hi as int);
    let mut v: u128 = 0;
    let mut i = lo;
    while i < hi
        invariant
            lo <= i <= hi <= t.len(),
            digits == t@.subrange(lo as int, hi as int),
            all_digits(digits),
            v == digits_value(digits.take(i - lo)),
            v <= cap <= READ_LIMIT,
        decreases hi - i,
    {
        let c = t[i];
        proof {
            assert(digits[i - lo] == c);
            assert(digits.take(i - lo + 1) =~= digits.take(i - lo).push(c));
            lemma_digits_value_push(digits.take(i - lo), c);
            lemma_digits_value_grows(digits, i - lo + 1);
        }
        let d: u128 = (c as u32 - '0' as u32) as u128;
        if d > cap || v > (cap - d) / 10 {
            return None;
        }
        v = v * 10 + d;
        i += 1;
    }
    assert(digits.take(hi - lo) =~= digits);
    Some(v)
}

/// The bound that an exponent is held to: far more than a text has digits.
const EXPONENT_LIMIT: i128 = 0x10_0000_0000_0000_0000_0000;

/// The integer that `t` writes down from `lo` to its end, if it writes one;
/// an integer beyond the exponent limit is given as the limit.
fn read_exponent(t: &Vec<char>, lo: usize) -> (r: Option<i128>)
    requires
        lo <= t.len(),
    ensures
        r is Some <==> integer_value(t@.skip(lo as int)) is Some,
        r matches Some(e) ==> {
            let v = integer_value(t@.skip(lo as int)).unwrap();
            &&& -EXPONENT_LIMIT <= e <= EXPONENT_LIMIT
            &&& -EXPONENT_LIMIT < v < EXPONENT_LIMIT ==> e == v
            &&& v >= EXPONENT_LIMIT ==> e == EXPONENT_LIMIT
            &&& v <= -EXPONENT_LIMIT ==> e == -EXPONENT_LIMIT
        },
{
    let n = t.len();
    let ghost text = t@.skip(lo as int);
    let negative = lo < n && t[lo] == '-';
    let start: usize = if lo < n && (t[lo] == '+' || t[lo] == '-') {
        lo + 1
    } else {
        lo
    };
    proof {
        if lo < n {
            assert(text[0] == t[lo as int]);
        }
        assert(unsigned_part(text) =~= t@.subrange(start as int, n as int));
    }
    if n == start || !digits_only(t, start, n) {
        return None;
    }
    let magnitude: i128 = match read_digits(t, start, n, EXPONENT_LIMIT as u128) {
        Some(v) => v as i128,
        None => EXPONENT_LIMIT,
    };
    if negative {
        Some(-magnitude)
    } else {
        Some(magnitude)
    }
}

/// The number that the first `count` of the digits of `t` stand for, unless
/// it is not less than the limit of the decimals. The digits are those from
/// `start` up to `point` and, behind them, those from `after` up to `mark`.
fn read_mantissa(t: &Vec<char>, start: usize, point: usize, after: usize, mark: usize, count: usize) -> (r:
    Option<u128>)
    requires
        start <= point <= after <= mark <= t.len(),
        all_digits(t@.subrange(start as int, point as int)),
        all_digits(t@.subrange(after as int, mark as int)),
        count <= (point - start) + (mark - after),
    ensures
        ({
            let digits = t@.subrange(start as int, point as int) + t@.subrange(
                after as int,
                mark as int,
            );
            match r {
                Some(v) => v == digits_value(digits.take(count as int)) && v < LIMIT,
                None => digits_value(digits.take(count as int)) >= LIMIT,
            }
        }),
{
    let ghost whole = t@.subrange(start as int, point as int);
    let ghost fraction = t@.subrange(after as int, mark as int);
    let ghost digits = whole + fraction;
    let whole_len = point - start;
    let mut v: u128 = 0;
    let mut j: usize = 0;
    assert(all_digits(digits)) by {
        assert forall|i: int| 0 <= i < digits.len() implies is_digit(#[trigger] digits[i]) by {
            if i < whole.len() {
                assert(digits[i] == whole[i]);
            } else {
                assert(digits[i] == fraction[i - whole.len()]);
            }
        }
    }
    while j < count
        invariant
            start <= point <= after <= mark <= t.len(),
            whole_len == point - start,
            whole == t@.subrange(start as int, point as int),
            fraction == t@.subrange(after as int, mark as int),
            digits == whole + fraction,
            all_digits(digits),
            j <= count <= digits.len(),
            v == digits_value(digits.take(j as int)),
            v < LIMIT,
        decreases count - j,
    {
        let c = if j < whole_len {
            t[start + j]
        } else {
            t[after + (j - whole_len)]
        };
        proof {
            if j < whole_len {
                assert(whole[j as int] == c);
            } else {
                assert(fraction[j - whole_len] == c);
            }
            assert(digits[j as int] == c);
            assert(digits.take(j + 1) =~= digits.take(j as int).push(c));
            lemma_digits_value_push(digits.take(j as int), c);
            let kept = digits.take(count as int);
            assert(kept.take(j + 1) =~= digits.take(j + 1));
            lemma_digits_value_grows(kept, j + 1);
        }
        let d: u128 = (c as u32 - '0' as u32) as u128;
        v = v * 10 + d;
        if v >= LIMIT as u128 {
            return None;
        }
        j += 1;
    }
    Some(v)
}

/// Where the parts of a number stand in a text: the digits before the
/// point from `start` up to `point`, the digits behind it from `after` up
/// to `mark`, and the exponent.
struct Layout {
    negative: bool,
    start: usize,
    point: usize,
    after: usize,
    mark: usize,
    exponent: i128,
}

impl Layout {
    /// Whether the layout is that of the numeral `n` in the text `t`. An
    /// exponent beyond the exponent limit is held as the limit.
    spec fn lays_out(self, t: Seq<char>, n: Numeral) -> bool {
        &&& self.start <= self.point <= self.after <= self.mark <= t.len()
        &&& n.negative == self.negative
        &&& n.whole == t.subrange(self.start as int, self.point as int)
        &&& n.fraction == t.subrange(self.after as int, self.mark as int)
        &&& all_digits(n.whole)
        &&& all_digits(n.fraction)
        &&& -EXPONENT_LIMIT <= self.exponent <= EXPONENT_LIMIT
        &&& -EXPONENT_LIMIT < n.exponent < EXPONENT_LIMIT ==> self.exponent == n.exponent
        &&& n.exponent >= EXPONENT_LIMIT ==> self.exponent == EXPONENT_LIMIT
        &&& n.exponent <= -EXPONENT_LIMIT ==> self.exponent == -EXPONENT_LIMIT
    }
}

/// Finds the parts of the number that `t` writes down, if it writes one.
fn lay_out(t: &Vec<char>) -> (r: Option<Layout>)
    ensures
        r is Some <==> numeral_of(t@) is Some,
        r matches Some(layout) ==> layout.lays_out(t@, numeral_of(t@).unwrap()),
{
    let n = t.len();
    let negative = n > 0 && t[0] == '-';
    let start: usize = if n > 0 && (t[0] == '+' || t[0] == '-') {
        1
    } else {
        0
    };
    let ghost body = unsigned_part(t@);
    assert(body =~= t@.subrange(start as int, n as int));
    let mark = find(t, start, n, 'e', 'E');
    let ghost mantissa = body.take(mark - start);
    assert(mantissa =~= t@.subrange(start as int, mark as int));
    let point = find(t, start, mark, '.', '.');
    let after = if point < mark {
        point + 1
    } else {
        mark
    };
    proof {
        assert(mantissa.take(point - start) =~= t@.subrange(start as int, point as int));
        if point < mark {
            assert(mantissa.skip(point - start + 1) =~= t@.subrange(after as int, mark as int));
        } else {
            assert(Seq::<char>::empty() =~= t@.subrange(after as int, mark as int));
        }
        if mark < n {
            assert(body.skip(mark - start + 1) =~= t@.skip(mark + 1));
        }
    }
    if !digits_only(t, start, point) || !digits_only(t, after, mark) || (point - start) + (mark
        - after) == 0 {
        return None;
    }
    let exponent: i128 = if mark < n {
        match read_exponent(t, mark + 1) {
            Some(e) => e,
            None => {
                return None;
            },
        }
    } else {
        0
    };
    Some(Layout { negative, start, point, after, mark, exponent })
}

/// The digits of a numeral are digits, and stand for no negative number.
proof fn lemma_numeral_digits(n: Numeral)
    requires
        all_digits(n.whole),
        all_digits(n.fraction),
    ensures
        all_digits(n.whole + n.fraction),
        digits_value(n.whole + n.fraction) >= 0,
{
    let digits = n.whole + n.fraction;
    assert forall|i: int| 0 <= i < digits.len() implies is_digit(#[trigger] digits[i]) by {
        if i < n.whole.len() {
            assert(digits[i] == n.whole[i]);
        } else {
            assert(digits[i] == n.fraction[i - n.whole.len()]);
        }
    }
    lemma_digits_value_grows(digits, 0);
}

/// A numeral is worth no less than its digits where a power of ten that is
/// not negative is put to them.
proof fn lemma_magnitude_is_large(n: Numeral)
    requires
        all_digits(n.whole),
        all_digits(n.fraction),
        n.shift() >= 0,
    ensures
        n.magnitude() >= digits_value(n.whole + n.fraction),
        digits_value(n.whole + n.fraction) >= 1 ==> n.magnitude() >= pow10(n.shift() as nat),
{
    lemma_numeral_digits(n);
    lemma_pow10_grows(0, n.shift() as nat);
    let v = digits_value(n.whole + n.fraction);
    let p = pow10(n.shift() as nat);
    assert(v * p >= v) by (nonlinear_arith)
        requires
            v >= 0,
            p >= 1,
    ;
    if v >= 1 {
        assert(v * p >= p) by (nonlinear_arith)
            requires
                v >= 1,
                p >= 1,
        ;
    }
}

/// The units that all digits of a layout stand for once zeros are put
/// behind them, unless that is out of range: `zeros` zeros, or, where
/// `exact` is false, a number of zeros that is only known to be too large
/// for any decimal in range but zero.
fn read_with_zeros(
    t: &Vec<char>,
    layout: &Layout,
    zeros: i128,
    exact: bool,
    Ghost(n): Ghost<Numeral>,
) -> (r: Option<u128>)
    requires
        layout.lays_out(t@, n),
        0 <= zeros,
        exact ==> zeros == n.shift(),
        !exact ==> n.shift() >= 21,
    ensures
        match r {
            Some(v) => v == n.magnitude() && v < LIMIT,
            None => n.magnitude() >= LIMIT,
        },
{
    let length = (layout.point - layout.start) + (layout.mark - layout.after);
    proof {
        lemma_numeral_digits(n);
        lemma_magnitude_is_large(n);
        assert((n.whole + n.fraction).take(length as int) =~= n.whole + n.fraction);
        lemma_pow10_grows(21, if n.shift() >= 21 {
            n.shift() as nat
        } else {
            21
        });
    }
    let mut v: u128 = match read_mantissa(
        t,
        layout.start,
        layout.point,
        layout.after,
        layout.mark,
        length,
    ) {
        Some(v) => v,
        None => {
            return None;
        },
    };
    if v == 0 {
        assert(n.magnitude() == 0) by (nonlinear_arith)
            requires
                n.magnitude() == v * pow10(n.shift() as nat),
                v == 0,
        ;
        return Some(0);
    }
    if !exact {
        return None;
    }
    let mut left: i128 = zeros;
    assert(pow10(0) == 1);
    while left > 0
        invariant
            0 <= left <= n.shift(),
            1 <= v < LIMIT,
            v * pow10(left as nat) == n.magnitude(),
        decreases LIMIT - v,
    {
        proof {
            let p = pow10((left - 1) as nat);
            lemma_pow10_positive((left - 1) as nat);
            assert(pow10(left as nat) == 10 * p);
            assert(v * (10 * p) == (v * 10) * p) by (nonlinear_arith);
            assert((v * 10) * p >= v * 10) by (nonlinear_arith)
                requires
                    p >= 1,
                    v >= 0,
            ;
        }
        v = v * 10;
        if v >= LIMIT as u128 {
            return None;
        }
        left -= 1;
    }
    Some(v)
}

/// The units that a layout stands for, unless they are out of range: see
/// [`Numeral::magnitude`].
fn read_units(t: &Vec<char>, layout: &Layout, Ghost(n): Ghost<Numeral>) -> (r: Option<u128>)
    requires
        layout.lays_out(t@, n),
    ensures
        match r {
            Some(v) => v == n.magnitude() && v < LIMIT,
            None => n.magnitude() >= LIMIT,
        },
{
    let whole_len = layout.point - layout.start;
    let length = whole_len + (layout.mark - layout.after);
    let ghost digits = n.whole + n.fraction;
    proof {
        lemma_numeral_digits(n);
    }
    if layout.exponent >= EXPONENT_LIMIT {
        read_with_zeros(t, layout, 0, false, Ghost(n))
    } else if layout.exponent <= -EXPONENT_LIMIT {
        // So small a power of ten leaves nothing of the digits.
        proof {
            lemma_cut_all(digits, (-n.shift()) as nat);
        }
        Some(0)
    } else {
        // The number of digits that count as units.
        let counted: i128 = whole_len as i128 + layout.exponent + FRACTION_DIGITS as i128;
        assert(counted == length + n.shift());
        if counted <= 0 {
            proof {
                if n.shift() < 0 {
                    lemma_cut_all(digits, (-n.shift()) as nat);
                } else {
                    assert(digits =~= Seq::<char>::empty());
                    assert(digits_value(digits) * pow10(n.shift() as nat) == 0) by (nonlinear_arith)
                        requires
                            digits_value(digits) == 0,
                    ;
                }
            }
            Some(0)
        } else if counted < length as i128 {
            proof {
                lemma_cut(digits, counted as int);
            }
            read_mantissa(t, layout.start, layout.point, layout.after, layout.mark, counted as usize)
        } else {
            read_with_zeros(t, layout, counted - length as i128, true, Ghost(n))
        }
    }
}

/// Reads a decimal: see [`decimal_value`].
pub fn parse_decimal(t: &Vec<char>) -> (r: Option<i128>)
    ensures
        r is Some <==> decimal_value(t@) is Some,
        r matches Some(v) ==> decimal_value(t@) == Some(v as int) && in_range(v as int),
{
    let layout = match lay_out(t) {
        Some(layout) => layout,
        None => {
            return None;
        },
    };
    match read_units(t, &layout, Ghost(numeral_of(t@).unwrap())) {
        Some(magnitude) => if layout.negative {
            Some(-(magnitude as i128))
        } else {
            Some(magnitude as i128)
        },
        None => None,
    }
}

/// Reads an integer: see [`integer_value`]. An integer whose absolute value
/// is more than `i64::MAX` is not read.
pub fn parse_integer(t: &Vec<char>) -> (r: Option<i64>)
    ensures
        r is Some <==> (integer_value(t@) matches Some(v) && i64::MIN < v <= i64::MAX),
        r matches Some(v) ==> integer_value(t@) == Some(v as int),
{
    let n = t.len();
    let negative = n > 0 && t[0] == '-';
    let start: usize = if n > 0 && (t[0] == '+' || t[0] == '-') {
        1
    } else {
        0
    };
    assert(unsigned_part(t@) =~= t@.subrange(start as int, n as int));
    if n == start || !digits_only(t, start, n) {
        return None;
    }
    match read_digits(t, start, n, 0x7fff_ffff_ffff_ffff) {
        Some(v) => if negative {
            Some(-(v as i64))
        } else {
            Some(v as i64)
        },
        None => None,
    }
}

/// The absolute value of `v`.
pub open spec fn magnitude_of(v: int) -> nat {
    if v < 0 {
        (-v) as nat
    } else {
        v as nat
    }
}

/// The digits of `n`, without leading zeros; zero is written `0`.
pub open spec fn nat_digits(n: nat) -> Seq<char>
    decreases n,
{
    if n < 10 {
        seq![digit_char(n as int)]
    } else {
        nat_digits(n / 10).push(digit_char((n % 10) as int))
    }
}

/// The last `width` digits of `v`, leading zeros included.
pub open spec fn padded_digits(v: nat, width: nat) -> Seq<char>
    decreases width,
{
    if width == 0 {
        Seq::<char>::empty()
    } else {
        padded_digits(v / 10, (width - 1) as nat).push(digit_char((v % 10) as int))
    }
}

/// The digits behind the point that stand for `f` units of a unit of
/// `width` digits, without trailing zeros.
pub open spec fn fraction_digits(f: nat, width: nat) -> Seq<char>
    decreases width,
{
    if width == 0 {
        Seq::<char>::empty()
    } else if f % 10 == 0 {
        fraction_digits(f / 10, (width - 1) as nat)
    } else {
        padded_digits(f, width)
    }
}

/// The sign that text gives to `v`: a minus for a negative number, and
/// nothing otherwise.
pub open spec fn sign_text(v: int) -> Seq<char> {
    if v < 0 {
        seq!['-']
    } else {
        Seq::<char>::empty()
    }
}

/// The text of the integer `v`.
pub open spec fn integer_text(v: int) -> Seq<char> {
    sign_text(v) + nat_digits(magnitude_of(v))
}

/// The text of the decimal `v`: the sign, the whole part, and, unless it is
/// zero, a point and the fraction without trailing zeros.
pub open spec fn decimal_text(v: int) -> Seq<char> {
    let whole = magnitude_of(v) / (UNIT as nat);
    let fraction = magnitude_of(v) % (UNIT as nat);
    sign_text(v) + nat_digits(whole) + if fraction == 0 {
        Seq::<char>::empty()
    } else {
        seq!['.'] + fraction_digits(fraction, FRACTION_DIGITS as nat)
    }
}

/// The digits of a number are digits, and stand for the number.
pub proof fn lemma_nat_digits(n: nat)
    ensures
        all_digits(nat_digits(n)),
        nat_digits(n).len() >= 1,
        digits_value(nat_digits(n)) == n,
    decreases n,
{
    if n < 10 {
        assert(nat_digits(n).drop_last() =~= Seq::<char>::empty());
        assert(digits_value(Seq::<char>::empty()) == 0);
    } else {
        lemma_nat_digits(n / 10);
        lemma_digits_value_push(nat_digits(n / 10), digit_char((n % 10) as int));
    }
}

/// Padded digits are digits, as many as asked for, and stand for the number
/// if it is short enough.
pub proof fn lemma_padded_digits(v: nat, width: nat)
    ensures
        all_digits(padded_digits(v, width)),
        padded_digits(v, width).len() == width,
        v < pow10(width) ==> digits_value(padded_digits(v, width)) == v,
    decreases width,
{
    if width > 0 {
        lemma_padded_digits(v / 10, (width - 1) as nat);
        lemma_digits_value_push(
            padded_digits(v / 10, (width - 1) as nat),
            digit_char((v % 10) as int),
        );
    }
}

/// The digits of a fraction are digits, at least one and at most `width`,
/// and stand for the fraction once the trailing zeros are put back.
pub proof fn lemma_fraction_digits(f: nat, width: nat)
    requires
        0 < f < pow10(width),
    ensures
        all_digits(fraction_digits(f, width)),
        1 <= fraction_digits(f, width).len() <= width,
        digits_value(fraction_digits(f, width)) * pow10(
            (width - fraction_digits(f, width).len()) as nat,
        ) == f,
    decreases width,
{
    if width == 0 {
    } else if f % 10 == 0 {
        lemma_fraction_digits(f / 10, (width - 1) as nat);
        let digits = fraction_digits(f / 10, (width - 1) as nat);
        let p = pow10((width - 1 - digits.len()) as nat);
        assert(pow10((width - digits.len()) as nat) == 10 * p);
        assert(digits_value(digits) * (10 * p) == 10 * (digits_value(digits) * p))
            by (nonlinear_arith);
    } else {
        lemma_padded_digits(f, width);
        assert(pow10(0) == 1);
    }
}

/// The text of a decimal in range is read back as that decimal.
pub proof fn lemma_decimal_text_reads_back(v: int)
    requires
        in_range(v),
    ensures
        decimal_value(decimal_text(v)) == Some(v),
{
    let m = magnitude_of(v);
    let whole = m / (UNIT as nat);
    let fraction = m % (UNIT as nat);
    let w = nat_digits(whole);
    let f = if fraction == 0 {
        Seq::<char>::empty()
    } else {
        fraction_digits(fraction, FRACTION_DIGITS as nat)
    };
    let tail = if fraction == 0 {
        Seq::<char>::empty()
    } else {
        seq!['.'] + f
    };
    let t = decimal_text(v);
    let body = w + tail;
    lemma_nat_digits(whole);
    lemma_pow10_is_unit();
    if fraction != 0 {
        lemma_fraction_digits(fraction, FRACTION_DIGITS as nat);
    }
    assert(is_digit(w[0]));
    assert(t =~= sign_text(v) + body);
    assert(t[0] == '-' <==> v < 0);
    assert(unsigned_part(t) =~= body);
    // There is no exponent in the text.
    assert forall|i: int| 0 <= i < body.len() implies body[i] != 'e' && body[i] != 'E' by {
        if i < w.len() {
            assert(is_digit(w[i]));
        } else if i > w.len() {
            assert(body[i] == f[i - w.len() - 1]);
            assert(is_digit(f[i - w.len() - 1]));
        }
    }
    crate::text::lemma_first_of(body, 'e', 'E', body.len() as int);
    assert(body.take(body.len() as int) =~= body);
    // The point stands behind the whole part.
    assert forall|i: int| 0 <= i < w.len() implies body[i] != '.' && body[i] != '.' by {
        assert(is_digit(w[i]));
    }
    crate::text::lemma_first_of(body, '.', '.', w.len() as int);
    assert(body.take(w.len() as int) =~= w);
    if fraction != 0 {
        assert(body.skip(w.len() as int + 1) =~= f);
    }
    let n = Numeral { negative: v < 0, whole: w, fraction: f, exponent: 0 };
    assert(numeral_of(t) == Some(n));
    // The digits stand for the whole part and the fraction, in units.
    lemma_digits_value_concat(w, f);
    lemma_fundamental_div_mod(m as int, UNIT as int);
    let rest = (FRACTION_DIGITS - f.len()) as nat;
    lemma_pow10_adds(f.len(), rest);
    let wv = digits_value(w);
    let fv = digits_value(f);
    let pf = pow10(f.len());
    let pr = pow10(rest);
    assert(f.len() + rest == FRACTION_DIGITS as nat);
    assert(pf * pr == UNIT);
    assert(n.shift() == rest);
    assert((w + f) == n.whole + n.fraction);
    assert(n.magnitude() == (wv * pf + fv) * pr);
    assert((wv * pf + fv) * pr == wv * UNIT + fv * pr) by (nonlinear_arith)
        requires
            pf * pr == UNIT,
    ;
    if fraction == 0 {
        assert(fv == 0);
        assert(fv * pr == 0) by (nonlinear_arith)
            requires
                fv == 0,
        ;
    } else {
        assert(fv * pr == fraction);
    }
    assert(wv == whole);
    assert(m == UNIT * whole + fraction);
    assert(wv * UNIT == UNIT * whole) by (nonlinear_arith)
        requires
            wv == whole,
    ;
    assert(n.magnitude() == m);
}

/// The text of an integer is read back as that integer.
pub proof fn lemma_integer_text_reads_back(v: int)
    ensures
        integer_value(integer_text(v)) == Some(v),
{
    let digits = nat_digits(magnitude_of(v));
    let t = integer_text(v);
    lemma_nat_digits(magnitude_of(v));
    assert(is_digit(digits[0]));
    assert(t =~= sign_text(v) + digits);
    assert(unsigned_part(t) =~= digits);
}


/// Writes the digit that stands for `d` behind `out`.
fn push_digit(out: &mut String, d: u8)
    requires
        d < 10,
    ensures
        final(out)@ == old(out)@.push(digit_char(d as int)),
{
    proof {
        reveal_strlit("0");
        reveal_strlit("1");
        reveal_strlit("2");
        reveal_strlit("3");
        reveal_strlit("4");
        reveal_strlit("5");
        reveal_strlit("6");
        reveal_strlit("7");
        reveal_strlit("8");
        reveal_strlit("9");
    }
    let digit = match d {
        0 => "0",
        1 => "1",
        2 => "2",
        3 => "3",
        4 => "4",
        5 => "5",
        6 => "6",
        7 => "7",
        8 => "8",
        _ => "9",
    };
    assert(digit@ =~= seq![digit_char(d as int)]);
    out.append(digit);
    assert(out@ =~= old(out)@.push(digit_char(d as int)));
}

/// Writes the digits of `n` behind `out`: see [`nat_digits`].
pub fn push_nat(out: &mut String, n: u128)
    ensures
        final(out)@ == old(out)@ + nat_digits(n as nat),
    decreases n,
{
    if n >= 10 {
        push_nat(out, n / 10);
    }
    push_digit(out, (n % 10) as u8);
    assert(out@ =~= old(out)@ + nat_digits(n as nat));
}

/// Writes the last `width` digits of `v` behind `out`: see
/// [`padded_digits`].
fn push_padded(out: &mut String, v: u64, width: usize)
    ensures
        final(out)@ == old(out)@ + padded_digits(v as nat, width as nat),
    decreases width,
{
    if width > 0 {
        push_padded(out, v / 10, width - 1);
        push_digit(out, (v % 10) as u8);
    }
    assert(out@ =~= old(out)@ + padded_digits(v as nat, width as nat));
}

/// Writes the digits of the fraction `f` behind `out`: see
/// [`fraction_digits`].
fn push_fraction(out: &mut String, f: u64)
    ensures
        final(out)@ == old(out)@ + fraction_digits(f as nat, FRACTION_DIGITS as nat),
{
    let mut rest = f;
    let mut width = FRACTION_DIGITS;
    while width > 0 && rest % 10 == 0
        invariant
            fraction_digits(rest as nat, width as nat) == fraction_digits(
                f as nat,
                FRACTION_DIGITS as nat,
            ),
        decreases width,
    {
        rest = rest / 10;
        width -= 1;
    }
    push_padded(out, rest, width);
}

/// The absolute value of `v`.
fn magnitude(v: i128) -> (m: u128)
    ensures
        m == magnitude_of(v as int),
{
    if v < 0 {
        (-(v + 1)) as u128 + 1
    } else {
        v as u128
    }
}

/// Writes the integer `v` behind `out`: see [`integer_text`].
pub fn push_integer(out: &mut String, v: i128)
    ensures
        final(out)@ == old(out)@ + integer_text(v as int),
{
    if v < 0 {
        proof {
            reveal_strlit("-");
        }
        out.append("-");
    }
    push_nat(out, magnitude(v));
    assert(out@ =~= old(out)@ + integer_text(v as int));
}

/// Writes the decimal `v` behind `out`: see [`decimal_text`].
pub fn push_decimal(out: &mut String, v: i128)
    ensures
        final(out)@ == old(out)@ + decimal_text(v as int),
{
    let m = magnitude(v);
    let whole = m / (UNIT as u128);
    let fraction = (m % (UNIT as u128)) as u64;
    if v < 0 {
        proof {
            reveal_strlit("-");
        }
        out.append("-");
    }
    push_nat(out, whole);
    if fraction != 0 {
        proof {
            reveal_strlit(".");
        }
        out.append(".");
        push_fraction(out, fraction);
    }
    assert(out@ =~= old(out)@ + decimal_text(v as int));
}


/// The quotient of `a` by the positive `b`, rounded to the nearest integer;
/// a quotient that lies halfway between two integers is rounded away from
/// zero.
pub open spec fn round_div(a: int, b: int) -> int {
    if a >= 0 {
        (2 * a + b) / (2 * b)
    } else {
        -((2 * (-a) + b) / (2 * b))
    }
}

/// Rounding moves a quotient by at most one half.
pub proof fn lemma_round_div_is_near(a: int, b: int)
    requires
        b > 0,
    ensures
        -b <= 2 * (round_div(a, b) * b - a) <= b,
        a >= 0 ==> round_div(a, b) >= 0,
        a <= 0 ==> round_div(a, b) <= 0,
{
    let m = if a >= 0 {
        a
    } else {
        -a
    };
    let q = (2 * m + b) / (2 * b);
    lemma_fundamental_div_mod(2 * m + b, 2 * b);
    let r = (2 * m + b) % (2 * b);
    assert(2 * m + b == (2 * b) * q + r);
    assert((2 * b) * q == 2 * (q * b)) by (nonlinear_arith);
    assert(q >= 0) by (nonlinear_arith)
        requires
            (2 * b) * q + r == 2 * m + b,
            0 <= r < 2 * b,
            m >= 0,
            b > 0,
    ;
    if a < 0 {
        assert((-q) * b == -(q * b)) by (nonlinear_arith);
    }
    if a == 0 {
        assert(q == 0) by (nonlinear_arith)
            requires
                (2 * b) * q + r == b,
                0 <= r,
                q >= 0,
                b > 0,
        ;
    }
}

/// The one integer that is nearer than one half to a quotient is the
/// rounded quotient.
pub proof fn lemma_round_div_is_nearest(a: int, b: int, q: int)
    requires
        b > 0,
        -b < 2 * (q * b - a) < b,
    ensures
        round_div(a, b) == q,
{
    if a >= 0 {
        // 2a + b == (2b) q + (2 (a - q b) + b)
        assert(2 * a + b == (2 * b) * q + (2 * (a - q * b) + b)) by (nonlinear_arith);
        lemma_fundamental_div_mod_converse(2 * a + b, 2 * b, q, 2 * (a - q * b) + b);
    } else {
        assert(2 * (-a) + b == (2 * b) * (-q) + (2 * (q * b - a) + b)) by (nonlinear_arith);
        lemma_fundamental_div_mod_converse(2 * (-a) + b, 2 * b, -q, 2 * (q * b - a) + b);
    }
}

/// `round_div` of any number by a positive divisor.
pub fn round_div_of(a: i128, b: u64) -> (q: i128)
    requires
        b > 0,
    ensures
        q == round_div(a as int, b as int),
{
    let m = magnitude(a);
    let d = b as u128;
    let whole = m / d;
    let rest = m % d;
    let up: u128 = if rest >= d - rest {
        1
    } else {
        0
    };
    proof {
        let mi = m as int;
        let bi = b as int;
        lemma_fundamental_div_mod(mi, bi);
        assert(mi == bi * (whole as int) + rest);
        if up == 1 {
            assert(2 * mi + bi == (2 * bi) * (whole + 1) + (2 * rest - bi)) by (nonlinear_arith)
                requires
                    mi == bi * (whole as int) + rest,
            ;
            lemma_fundamental_div_mod_converse(2 * mi + bi, 2 * bi, whole + 1, 2 * rest - bi);
        } else {
            assert(2 * mi + bi == (2 * bi) * (whole as int) + (2 * rest + bi)) by (nonlinear_arith)
                requires
                    mi == bi * (whole as int) + rest,
            ;
            lemma_fundamental_div_mod_converse(2 * mi + bi, 2 * bi, whole as int, 2 * rest + bi);
        }
        assert(whole + up <= mi) by (nonlinear_arith)
            requires
                mi == bi * (whole as int) + rest,
                bi >= 1,
                0 <= rest < bi,
                whole >= 0,
                up == 1 ==> rest >= bi - rest,
                up == 0 || up == 1,
        ;
    }
    let rounded = whole + up;
    if a < 0 {
        if rounded == 0 {
            0
        } else {
            -((rounded - 1) as i128) - 1
        }
    } else {
        rounded as i128
    }
}


/// Whether `c` can stand in the text of a number.
pub open spec fn is_number_char(c: char) -> bool {
    is_digit(c) || c == '-' || c == '.'
}

/// The text of a number holds digits, and at most a sign and a point.
pub proof fn lemma_number_text_chars(v: int)
    ensures
        forall|i: int| 0 <= i < decimal_text(v).len() ==> is_number_char(#[trigger] decimal_text(v)[i]),
        forall|i: int| 0 <= i < integer_text(v).len() ==> is_number_char(#[trigger] integer_text(v)[i]),
{
    let m = magnitude_of(v);
    let whole = m / (UNIT as nat);
    let fraction = m % (UNIT as nat);
    lemma_nat_digits(m);
    lemma_nat_digits(whole);
    lemma_pow10_is_unit();
    if fraction != 0 {
        lemma_fraction_digits(fraction, FRACTION_DIGITS as nat);
    }
    let w = nat_digits(whole);
    let f = fraction_digits(fraction, FRACTION_DIGITS as nat);
    assert forall|i: int| 0 <= i < decimal_text(v).len() implies is_number_char(
        #[trigger] decimal_text(v)[i],
    ) by {
        let t = decimal_text(v);
        let sign = sign_text(v);
        if i < sign.len() {
        } else if i < sign.len() + w.len() {
            assert(t[i] == w[i - sign.len()]);
        } else if fraction != 0 && i > sign.len() + w.len() {
            assert(t[i] == f[i - sign.len() - w.len() - 1]);
        }
    }
    assert forall|i: int| 0 <= i < integer_text(v).len() implies is_number_char(
        #[trigger] integer_text(v)[i],
    ) by {
        let t = integer_text(v);
        let sign = sign_text(v);
        if i >= sign.len() {
            assert(t[i] == nat_digits(m)[i - sign.len()]);
        }
    }
}

} // verus!
