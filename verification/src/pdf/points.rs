//! Lengths on a page.
//!
//! A layout is computed in a number type of the caller's choice.  Everything
//! that the layout needs of it is collected in [`Points`].

use crate::text::{
    are_digits, decimal, decimal_numeral, decimal_text, digit_char, is_decimal,
    law_decimal_numerals_denote_the_number, number_of,
};
use vstd::prelude::*;
use vstd::string::*;

verus! {

/// A number type for lengths in points (1/72 inch).
///
/// Each operation is a function of its operands, and a type that has the
/// operations says which function each of them is; nothing else is asked of
/// it.  In particular it may round.
pub trait Points: Copy {
    /// The number `n`.
    spec fn spec_of(n: usize) -> Self;

    /// The sum of two numbers.
    spec fn spec_plus(a: Self, b: Self) -> Self;

    /// The difference of two numbers.
    spec fn spec_minus(a: Self, b: Self) -> Self;

    /// The product of two numbers.
    spec fn spec_times(a: Self, b: Self) -> Self;

    /// The quotient of two numbers.
    spec fn spec_over(a: Self, b: Self) -> Self;

    /// The larger of two numbers.
    spec fn spec_larger(a: Self, b: Self) -> Self;

    /// A number with the opposite sign.
    spec fn spec_negated(a: Self) -> Self;

    /// Whether the first number is less than the second.
    spec fn spec_below(a: Self, b: Self) -> bool;

    /// How many characters a number takes, written out.
    spec fn spec_numeral_len(a: Self) -> usize;

    /// The character at a position of a number, written out.
    spec fn spec_numeral_char(a: Self, i: usize) -> char;

    /// The number `n`.
    fn of(n: usize) -> (r: Self)
        ensures
            r == Self::spec_of(n),
    ;

    /// The sum of two numbers.
    fn plus(self, other: Self) -> (r: Self)
        ensures
            r == Self::spec_plus(self, other),
    ;

    /// The difference of two numbers.
    fn minus(self, other: Self) -> (r: Self)
        ensures
            r == Self::spec_minus(self, other),
    ;

    /// The product of two numbers.
    fn times(self, other: Self) -> (r: Self)
        ensures
            r == Self::spec_times(self, other),
    ;

    /// The quotient of two numbers.
    fn over(self, other: Self) -> (r: Self)
        ensures
            r == Self::spec_over(self, other),
    ;

    /// The larger of two numbers.
    fn larger(self, other: Self) -> (r: Self)
        ensures
            r == Self::spec_larger(self, other),
    ;

    /// The number with the opposite sign.
    fn negated(self) -> (r: Self)
        ensures
            r == Self::spec_negated(self),
    ;

    /// Whether this number is less than another.
    fn below(self, other: Self) -> (r: bool)
        ensures
            r == Self::spec_below(self, other),
    ;

    /// The number, written out.
    fn numeral(self) -> (r: String)
        ensures
            r@ == Seq::new(
                Self::spec_numeral_len(self) as nat,
                |i: int| Self::spec_numeral_char(self, i as usize),
            ),
    ;
}

/// A number, written out.
pub open spec fn numeral_text<N: Points>(a: N) -> Seq<char> {
    Seq::new(
        N::spec_numeral_len(a) as nat,
        |i: int| N::spec_numeral_char(a, i as usize),
    )
}

/// A length in thousandths of a point, for layouts without rounding.
///
/// The advance widths of a font are given in thousandths of its size, so that
/// the measures of text at a whole font size are exact.  Results beyond the
/// range are cut off at its ends.
#[derive(Debug, Clone, Copy, PartialEq, Eq, Structural)]
pub struct Milli(pub i64);

/// The nearest number in range.
pub open spec fn clamped(n: int) -> i64 {
    if n < i64::MIN {
        i64::MIN
    } else if n > i64::MAX {
        i64::MAX
    } else {
        n as i64
    }
}

/// The absolute value.
pub open spec fn magnitude(n: int) -> nat {
    if n < 0 {
        (-n) as nat
    } else {
        n as nat
    }
}

/// The quotient, rounded toward zero; zero where the divisor is zero.
pub open spec fn quotient(a: int, b: int) -> int {
    if b == 0 {
        0
    } else if (a < 0) == (b < 0) {
        (magnitude(a) / magnitude(b)) as int
    } else {
        -((magnitude(a) / magnitude(b)) as int)
    }
}

/// The digits after the decimal point, without zeros at the end.
pub open spec fn fraction_text(thousandths: nat) -> Seq<char> {
    let a = digit_char(thousandths / 100);
    let b = digit_char(thousandths / 10 % 10);
    let c = digit_char(thousandths % 10);
    if thousandths == 0 {
        Seq::empty()
    } else if thousandths % 100 == 0 {
        seq!['.', a]
    } else if thousandths % 10 == 0 {
        seq!['.', a, b]
    } else {
        seq!['.', a, b, c]
    }
}

/// A number of thousandths, written out in decimal.
pub open spec fn milli_text(n: int) -> Seq<char> {
    let size = magnitude(n);
    let front = if n < 0 {
        seq!['-']
    } else {
        Seq::empty()
    };
    front + decimal_text(size / 1000) + fraction_text(size % 1000)
}

fn clamp(n: i128) -> (r: i64)
    ensures
        r == clamped(n as int),
{
    if n < i64::MIN as i128 {
        i64::MIN
    } else if n > i64::MAX as i128 {
        i64::MAX
    } else {
        n as i64
    }
}

fn absolute(n: i128) -> (r: u128)
    requires
        -0x4000_0000_0000_0000_0000_0000_0000_0000 <= n
            <= 0x4000_0000_0000_0000_0000_0000_0000_0000,
    ensures
        r == magnitude(n as int),
        r <= 0x4000_0000_0000_0000_0000_0000_0000_0000,
{
    if n < 0 {
        (-n) as u128
    } else {
        n as u128
    }
}

fn divide(a: i128, b: i128) -> (r: i128)
    requires
        -0x4000_0000_0000_0000_0000_0000_0000_0000 <= a
            <= 0x4000_0000_0000_0000_0000_0000_0000_0000,
        -0x4000_0000_0000_0000_0000_0000_0000_0000 <= b
            <= 0x4000_0000_0000_0000_0000_0000_0000_0000,
    ensures
        r == quotient(a as int, b as int),
{
    if b == 0 {
        return 0;
    }
    let top = absolute(a);
    let bottom = absolute(b);
    assert(top / bottom <= top) by (nonlinear_arith)
        requires
            bottom > 0,
    ;
    let q = (top / bottom) as i128;
    if (a < 0) == (b < 0) {
        q
    } else {
        -q
    }
}

proof fn lemma_product_in_range(a: i64, b: i64)
    ensures
        -0x4000_0000_0000_0000_0000_0000_0000_0000 <= a * b
            <= 0x4000_0000_0000_0000_0000_0000_0000_0000,
{
    assert(-0x4000_0000_0000_0000_0000_0000_0000_0000 <= a * b
        <= 0x4000_0000_0000_0000_0000_0000_0000_0000) by (nonlinear_arith)
        requires
            -0x8000_0000_0000_0000 <= a <= 0x7FFF_FFFF_FFFF_FFFF,
            -0x8000_0000_0000_0000 <= b <= 0x7FFF_FFFF_FFFF_FFFF,
    ;
}

fn digit(d: u128) -> (c: char)
    requires
        d < 10,
    ensures
        c == digit_char(d as nat),
{
    (48u8 + d as u8) as char
}

impl Points for Milli {
    open spec fn spec_of(n: usize) -> Milli {
        Milli(clamped(n as int * 1000))
    }

    open spec fn spec_plus(a: Milli, b: Milli) -> Milli {
        Milli(clamped(a.0 + b.0))
    }

    open spec fn spec_minus(a: Milli, b: Milli) -> Milli {
        Milli(clamped(a.0 - b.0))
    }

    open spec fn spec_times(a: Milli, b: Milli) -> Milli {
        Milli(clamped(quotient(a.0 * b.0, 1000)))
    }

    open spec fn spec_over(a: Milli, b: Milli) -> Milli {
        Milli(clamped(quotient(a.0 * 1000, b.0 as int)))
    }

    open spec fn spec_larger(a: Milli, b: Milli) -> Milli {
        if a.0 < b.0 {
            b
        } else {
            a
        }
    }

    open spec fn spec_negated(a: Milli) -> Milli {
        Milli(clamped(-a.0))
    }

    open spec fn spec_below(a: Milli, b: Milli) -> bool {
        a.0 < b.0
    }

    open spec fn spec_numeral_len(a: Milli) -> usize {
        milli_text(a.0 as int).len() as usize
    }

    open spec fn spec_numeral_char(a: Milli, i: usize) -> char {
        milli_text(a.0 as int)[i as int]
    }

    fn of(n: usize) -> (r: Milli) {
        Milli(clamp(n as i128 * 1000))
    }

    fn plus(self, other: Milli) -> (r: Milli) {
        Milli(clamp(self.0 as i128 + other.0 as i128))
    }

    fn minus(self, other: Milli) -> (r: Milli) {
        Milli(clamp(self.0 as i128 - other.0 as i128))
    }

    fn times(self, other: Milli) -> (r: Milli) {
        proof {
            lemma_product_in_range(self.0, other.0);
        }
        Milli(clamp(divide(self.0 as i128 * other.0 as i128, 1000)))
    }

    fn over(self, other: Milli) -> (r: Milli) {
        Milli(clamp(divide(self.0 as i128 * 1000, other.0 as i128)))
    }

    fn larger(self, other: Milli) -> (r: Milli) {
        if self.0 < other.0 {
            other
        } else {
            self
        }
    }

    fn negated(self) -> (r: Milli) {
        Milli(clamp(-(self.0 as i128)))
    }

    fn below(self, other: Milli) -> (r: bool) {
        self.0 < other.0
    }

    fn numeral(self) -> (r: String) {
        let size = absolute(self.0 as i128);
        let mut out = String::new();
        if self.0 < 0 {
            out.push('-');
        }
        out.append(decimal((size / 1000) as u64).as_str());
        let rest = size % 1000;
        let ghost front = out@;
        if rest > 0 {
            out.push('.');
            out.push(digit(rest / 100));
            if rest % 100 > 0 {
                out.push(digit(rest / 10 % 10));
                if rest % 10 > 0 {
                    out.push(digit(rest % 10));
                }
            }
        }
        assert(out@ == front + fraction_text(rest as nat));
        assert(Seq::<char>::empty() + decimal_text((size / 1000) as nat) == decimal_text(
            (size / 1000) as nat,
        ));
        assert(seq!['-'] == Seq::<char>::empty().push('-'));
        proof {
            lemma_milli_text(self.0);
        }
        out
    }
}

/// Ten to a power.
pub open spec fn power_of_ten(n: nat) -> nat
    decreases n,
{
    if n == 0 {
        1
    } else {
        10 * power_of_ten((n - 1) as nat)
    }
}

/// A number below a power of ten has no more digits than the exponent says,
/// and at least one.
proof fn lemma_decimal_is_short(n: nat, digits: nat)
    requires
        digits >= 1,
        n < power_of_ten(digits),
    ensures
        decimal_text(n).len() <= digits,
        are_digits(decimal_text(n)),
    decreases digits,
{
    if n >= 10 {
        if digits == 1 {
            assert(power_of_ten(0) == 1);
        } else {
            lemma_decimal_is_short(n / 10, (digits - 1) as nat);
        }
    }
}

/// Thousandths are written as a decimal numeral of few characters.
proof fn lemma_milli_text(n: i64)
    ensures
        milli_text(n as int).len() <= 25,
        decimal_numeral(milli_text(n as int)),
{
    let size = magnitude(n as int);
    let whole = decimal_text(size / 1000);
    let fraction = fraction_text(size % 1000);
    assert(power_of_ten(20) == 100_000_000_000_000_000_000) by {
        reveal_with_fuel(power_of_ten, 21);
    }
    lemma_decimal_is_short(size / 1000, 20);
    let digits = if fraction.len() == 0 {
        fraction
    } else {
        fraction.drop_first()
    };
    assert(digits.len() > 0 ==> are_digits(digits));
    assert(fraction.len() > 0 ==> fraction == seq!['.'] + digits);
    assert(is_decimal(milli_text(n as int), n < 0, whole, digits));
}

/// A length in thousandths of a point is written as a decimal numeral, and as
/// the number that it is.
pub proof fn law_milli_is_written_in_decimal(a: Milli)
    ensures
        numeral_text(a) == milli_text(a.0 as int),
        decimal_numeral(numeral_text(a)),
{
    lemma_milli_text(a.0);
    assert(numeral_text(a) =~= milli_text(a.0 as int));
}

/// A quotient is rounded toward zero: multiplied by the divisor, it misses the
/// number by less than the divisor, and not beyond it.
pub proof fn law_quotients_are_rounded_toward_zero(a: int, b: int)
    requires
        b != 0,
    ensures
        ({
            let q = quotient(a, b);
            &&& a >= 0 ==> 0 <= a - q * b < magnitude(b)
            &&& a <= 0 ==> 0 <= q * b - a < magnitude(b)
        }),
{
    let top = magnitude(a) as int;
    let bottom = magnitude(b) as int;
    let whole = top / bottom;
    assert(0 <= top - whole * bottom < bottom) by (nonlinear_arith)
        requires
            bottom > 0,
            top >= 0,
            whole == top / bottom,
    ;
    assert(magnitude(a) / magnitude(b) == whole);
    let q = quotient(a, b);
    assert(q * b == whole * bottom || q * b == -(whole * bottom)) by (nonlinear_arith)
        requires
            q == whole || q == -whole,
            b == bottom || b == -bottom,
    ;
    if a >= 0 {
        assert(q * b == whole * bottom) by (nonlinear_arith)
            requires
                (b < 0) ==> q == -whole && b == -bottom,
                (b > 0) ==> q == whole && b == bottom,
                b != 0,
        ;
    }
    if a < 0 {
        assert(q * b == -(whole * bottom)) by (nonlinear_arith)
            requires
                (b < 0) ==> q == whole && b == -bottom,
                (b > 0) ==> q == -whole && b == bottom,
                b != 0,
        ;
    }
}

/// A number keeps its distance from zero without its sign, and is cut off at the
/// nearer end of the range outside of it; nothing divided by zero is zero.
pub proof fn law_numbers_are_cut_off_at_the_ends(n: int)
    ensures
        magnitude(n) == n || magnitude(n) == -n,
        i64::MIN <= n <= i64::MAX ==> clamped(n) == n,
        n > 9_223_372_036_854_775_807 ==> clamped(n) == 9_223_372_036_854_775_807,
        n < -9_223_372_036_854_775_808 ==> clamped(n) == -9_223_372_036_854_775_808,
        quotient(n, 0) == 0,
        Milli::spec_of(usize::MAX).0 == clamped(usize::MAX * 1000),
{
}

/// The operations on lengths in thousandths of a point are those on the numbers,
/// as far as the results are in range; products and quotients are rounded toward
/// zero.
pub proof fn law_operations_on_thousandths(a: Milli, b: Milli, n: usize)
    ensures
        n <= 1_000_000_000_000 ==> Milli::spec_of(n).0 == 1000 * n,
        i64::MIN <= a.0 + b.0 <= i64::MAX ==> Milli::spec_plus(a, b).0 == a.0 + b.0,
        i64::MIN <= a.0 - b.0 <= i64::MAX ==> Milli::spec_minus(a, b).0 == a.0 - b.0,
        i64::MIN <= quotient(a.0 * b.0, 1000) <= i64::MAX ==> Milli::spec_times(a, b).0
            == quotient(a.0 * b.0, 1000),
        i64::MIN <= quotient(a.0 * 1000, b.0 as int) <= i64::MAX ==> Milli::spec_over(a, b).0
            == quotient(a.0 * 1000, b.0 as int),
        Milli::spec_larger(a, b).0 >= a.0 && Milli::spec_larger(a, b).0 >= b.0,
        Milli::spec_larger(a, b) == a || Milli::spec_larger(a, b) == b,
        a.0 != i64::MIN ==> Milli::spec_negated(a).0 == -a.0,
        Milli::spec_below(a, b) <==> a.0 < b.0,
{
}

/// The number of thousandths that digits behind the point denote.
pub open spec fn thousandths_behind(digits: Seq<char>) -> nat {
    if digits.len() == 0 {
        0
    } else if digits.len() == 1 {
        100 * number_of(digits, 10)
    } else if digits.len() == 2 {
        10 * number_of(digits, 10)
    } else {
        number_of(digits, 10)
    }
}

/// The numeral of a length denotes the length: a minus sign if it is negative,
/// the whole points, and up to three digits behind a point for the rest, of
/// which the last is not a zero.
pub proof fn law_numerals_of_thousandths_denote_them(n: i64)
    ensures
        exists|whole: Seq<char>, fraction: Seq<char>|
            #![trigger number_of(whole, 10), thousandths_behind(fraction)]
            is_decimal(milli_text(n as int), n < 0, whole, fraction) && fraction.len() <= 3
                && number_of(whole, 10) * 1000 + thousandths_behind(fraction) == magnitude(n as int)
                && (fraction.len() > 0 ==> fraction.last() != '0'),
{
    let size = magnitude(n as int);
    let whole = decimal_text(size / 1000);
    let fraction = fraction_text(size % 1000);
    let digits = if fraction.len() == 0 {
        fraction
    } else {
        fraction.drop_first()
    };
    law_decimal_numerals_denote_the_number(size / 1000);
    let rest = size % 1000;
    let a = digit_char(rest / 100);
    let b = digit_char(rest / 10 % 10);
    let c = digit_char(rest % 10);
    assert(digits.len() > 0 ==> fraction == seq!['.'] + digits);
    assert(thousandths_behind(digits) == rest) by {
        let none = Seq::<char>::empty();
        assert(number_of(none, 10) == 0);
        assert(seq![a].drop_last() == none);
        assert(seq![a, b].drop_last() == seq![a]);
        assert(seq![a, b, c].drop_last() == seq![a, b]);
        assert(number_of(seq![a], 10) == rest / 100);
        assert(number_of(seq![a, b], 10) == rest / 100 * 10 + rest / 10 % 10);
        assert(number_of(seq![a, b, c], 10) == (rest / 100 * 10 + rest / 10 % 10) * 10 + rest % 10);
        if rest > 0 {
            if rest % 100 == 0 {
                assert(digits == seq![a]);
            } else if rest % 10 == 0 {
                assert(digits == seq![a, b]);
            } else {
                assert(digits == seq![a, b, c]);
            }
        }
    }
    assert(digits.len() > 0 ==> are_digits(digits));
    assert(is_decimal(milli_text(n as int), n < 0, whole, digits));
    assert(number_of(whole, 10) * 1000 + thousandths_behind(digits) == size);
}

} // verus!
