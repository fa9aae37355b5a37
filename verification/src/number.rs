//! Exact rational arithmetic for the language's numeric values.
//!
//! A numeric literal such as `3.33` is an exact decimal fraction, and the
//! arithmetic operators keep values exact, so equality and comparison of
//! numbers are never subject to rounding.  A value that cannot be
//! represented with a 64-bit numerator and a 32-bit denominator (after
//! reduction) is reported to the caller as `None`, which the evaluator
//! surfaces as a runtime error.

use vstd::prelude::*;

verus! {

use vstd::arithmetic::div_mod::*;
use vstd::arithmetic::mul::*;
use vstd::string::StringExecFns;

/// A language number: the exact rational `num / den`, with `den >= 1`.
///
/// All numbers built by this module's constructors are fully reduced, but
/// the operations and predicates below are stated so that they are correct
/// for any value with a positive denominator.
#[derive(Clone, Copy, Debug, PartialEq, Eq, Structural)]
pub struct Number {
    pub num: i64,
    pub den: u32,
}

/// Greatest common divisor by Euclid's algorithm; `gcd(a, 0) == a`.
pub open spec fn gcd(a: nat, b: nat) -> nat
    decreases b,
{
    if b == 0 {
        a
    } else {
        gcd(b, a % b)
    }
}

pub open spec fn spec_abs(n: int) -> nat {
    if n >= 0 {
        n as nat
    } else {
        (-n) as nat
    }
}

/// The magnitude of the most negative representable numerator, `2^63`.
pub const MIN_MAG: u64 = 9223372036854775808;

/// The reduced `Number` representing `n / d`, or `None` if the reduced
/// fraction does not fit in an `i64` numerator and a `u32` denominator.
pub open spec fn spec_make(n: int, d: int) -> Option<Number>
    recommends
        d >= 1,
{
    if d < 1 {
        None
    } else {
        let g = gcd(spec_abs(n), d as nat);
        let mag = spec_abs(n) / g;
        let d2 = (d as nat) / g;
        if d2 <= u32::MAX && (if n >= 0 {
            mag <= i64::MAX
        } else {
            mag <= MIN_MAG
        }) {
            Some(
                Number {
                    num: if n >= 0 {
                        mag as i64
                    } else {
                        (-(mag as int)) as i64
                    },
                    den: d2 as u32,
                },
            )
        } else {
            None
        }
    }
}

pub open spec fn spec_add(a: Number, b: Number) -> Option<Number> {
    spec_make(a.num * b.den + b.num * a.den, a.den * b.den)
}

pub open spec fn spec_sub(a: Number, b: Number) -> Option<Number> {
    spec_make(a.num * b.den - b.num * a.den, a.den * b.den)
}

pub open spec fn spec_mul(a: Number, b: Number) -> Option<Number> {
    spec_make(a.num * b.num, a.den * b.den)
}

/// Division `a / b` for `b.num != 0`: the sign of `b` moves into the
/// numerator so that the denominator stays positive.
pub open spec fn spec_div(a: Number, b: Number) -> Option<Number>
    recommends
        b.num != 0,
{
    if b.num > 0 {
        spec_make(a.num * b.den, a.den * b.num)
    } else {
        spec_make(-(a.num * b.den), a.den * -b.num)
    }
}

pub open spec fn spec_neg(a: Number) -> Option<Number> {
    spec_make(-a.num, a.den as int)
}

/// Value equality of two fractions, by cross-multiplication.
pub open spec fn spec_val_eq(a: Number, b: Number) -> bool {
    a.num * b.den == b.num * a.den
}

/// Value ordering of two fractions, by cross-multiplication; both
/// denominators are positive, so the direction is preserved.
pub open spec fn spec_val_lt(a: Number, b: Number) -> bool {
    a.num * b.den < b.num * a.den
}

proof fn lemma_gcd_pos(a: nat, b: nat)
    requires
        a > 0 || b > 0,
    ensures
        gcd(a, b) > 0,
    decreases b,
{
    if b > 0 {
        lemma_gcd_pos(b, a % b);
    }
}

pub proof fn lemma_gcd_divides(a: nat, b: nat)
    requires
        a > 0 || b > 0,
    ensures
        gcd(a, b) > 0,
        a % gcd(a, b) == 0,
        b % gcd(a, b) == 0,
    decreases b,
{
    lemma_gcd_pos(a, b);
    if b == 0 {
        lemma_mod_self_0(a as int);
        lemma_small_mod(0, a);
    } else {
        lemma_gcd_divides(b, a % b);
        let g = gcd(b, a % b);
        lemma_fundamental_div_mod(a as int, b as int);
        lemma_fundamental_div_mod(b as int, g as int);
        lemma_fundamental_div_mod((a % b) as int, g as int);
        let q = a as int / b as int;
        let kb = b as int / g as int;
        let kr = (a % b) as int / g as int;
        assert(a as int == (kb * q + kr) * g as int) by (nonlinear_arith)
            requires
                a as int == b as int * q + (a % b) as int,
                b as int == g as int * kb,
                (a % b) as int == g as int * kr,
        ;
        lemma_mod_multiples_basic(kb * q + kr, g as int);
    }
}

/// Dividing both parts of a fraction by a common divisor keeps its value:
/// a `Some` result of `spec_make(n, d)` satisfies `x.num / x.den == n / d`
/// as an exact cross-multiplication identity.
pub proof fn lemma_make_exact(n: int, d: int)
    requires
        d >= 1,
    ensures
        match spec_make(n, d) {
            Some(x) => x.den >= 1 && x.num * d == n * x.den,
            None => true,
        },
{
    lemma_gcd_divides(spec_abs(n), d as nat);
    let g = gcd(spec_abs(n), d as nat);
    if spec_make(n, d) is Some {
        let mag = spec_abs(n) / g;
        let d2 = (d as nat) / g;
        lemma_fundamental_div_mod(spec_abs(n) as int, g as int);
        lemma_fundamental_div_mod(d, g as int);
        assert(spec_abs(n) as int == g as int * mag as int);
        assert(d == g as int * d2 as int);
        if d2 == 0 {
            assert(false);
        }
        if n >= 0 {
            assert(mag as int * d == n * d2 as int) by (nonlinear_arith)
                requires
                    n == g as int * mag as int,
                    d == g as int * d2 as int,
            ;
        } else {
            assert((-(mag as int)) * d == n * d2 as int) by (nonlinear_arith)
                requires
                    -n == g as int * mag as int,
                    d == g as int * d2 as int,
            ;
        }
    }
}

/// `spec_make` always succeeds when the inputs are already within the
/// representable range.
pub proof fn lemma_make_total(n: int, d: int)
    requires
        1 <= d <= u32::MAX,
        -(MIN_MAG as int) <= n <= i64::MAX,
    ensures
        spec_make(n, d) is Some,
{
    lemma_gcd_divides(spec_abs(n), d as nat);
    let g = gcd(spec_abs(n), d as nat);
    lemma_div_is_ordered_by_denominator(spec_abs(n) as int, 1, g as int);
    lemma_div_is_ordered_by_denominator(d, 1, g as int);
    lemma_div_by_self(g as int);
    assert(spec_abs(n) / g <= spec_abs(n));
    assert((d as nat) / g <= d);
}

impl Number {
    pub open spec fn wf(self) -> bool {
        self.den >= 1
    }

    /// The reduced number with value `num / den`.
    pub fn new(num: i64, den: u32) -> (r: Number)
        requires
            den >= 1,
        ensures
            Some(r) == spec_make(num as int, den as int),
            r.wf(),
    {
        proof {
            lemma_make_total(num as int, den as int);
            lemma_make_exact(num as int, den as int);
        }
        let neg = num < 0;
        let mag: u64 = if num < 0 {
            if num == i64::MIN {
                MIN_MAG
            } else {
                (-num) as u64
            }
        } else {
            num as u64
        };
        make_rat(neg, mag as u128, den as u128).unwrap()
    }

    /// The number with integer value `i`.
    pub fn from_int(i: i64) -> (r: Number)
        ensures
            Some(r) == spec_make(i as int, 1),
            r.wf(),
    {
        Number::new(i, 1)
    }
}

fn gcd_u128(a: u128, b: u128) -> (r: u128)
    ensures
        r == gcd(a as nat, b as nat),
    decreases b,
{
    if b == 0 {
        a
    } else {
        gcd_u128(b, a % b)
    }
}

/// Builds the reduced `Number` for the signed value `(-1)^neg * mag / d`.
pub fn make_rat(neg: bool, mag: u128, d: u128) -> (r: Option<Number>)
    requires
        1 <= d,
        mag < 0x8000_0000_0000_0000_0000_0000_0000_0000u128,
        d < 0x8000_0000_0000_0000_0000_0000_0000_0000u128,
    ensures
        r == spec_make(if neg { -(mag as int) } else { mag as int }, d as int),
{
    let ghost n: int = if neg { -(mag as int) } else { mag as int };
    proof {
        assert(spec_abs(n) == mag as nat);
        lemma_gcd_divides(mag as nat, d as nat);
    }
    let g = gcd_u128(mag, d);
    let mag2 = mag / g;
    let d2 = d / g;
    proof {
        assert(g as nat == gcd(mag as nat, d as nat));
        assert((d as nat) % (g as nat) == 0);
        assert(g >= 1);
        lemma_fundamental_div_mod(d as int, g as int);
        assert(d as int == g as int * (d as int / g as int));
        if d2 == 0 {
            assert(d as int == g as int * 0);
            assert(false);
        }
    }
    if d2 > u32::MAX as u128 {
        return None;
    }
    if neg {
        if mag2 > MIN_MAG as u128 {
            return None;
        }
        if mag2 == MIN_MAG as u128 {
            Some(Number { num: i64::MIN, den: d2 as u32 })
        } else {
            Some(Number { num: -(mag2 as i64), den: d2 as u32 })
        }
    } else {
        if mag2 > i64::MAX as u128 {
            return None;
        }
        Some(Number { num: mag2 as i64, den: d2 as u32 })
    }
}

/// All cross products used by the arithmetic below stay well inside the
/// 128-bit range.
proof fn lemma_cross_bounds(a: Number, b: Number)
    ensures
        -0x8000_0000_0000_0000_0000_0000 <= a.num as int * b.den as int
            <= 0x8000_0000_0000_0000_0000_0000,
        -0x8000_0000_0000_0000_0000_0000 <= b.num as int * a.den as int
            <= 0x8000_0000_0000_0000_0000_0000,
        -0x4000_0000_0000_0000_0000_0000_0000_0000 <= a.num as int * b.num as int
            <= 0x4000_0000_0000_0000_0000_0000_0000_0000,
        0 <= a.den as int * b.den as int <= 0x1_0000_0000_0000_0000,
{
    assert(-0x8000_0000_0000_0000_0000_0000 <= a.num as int * b.den as int
        <= 0x8000_0000_0000_0000_0000_0000) by (nonlinear_arith)
        requires
            -0x8000_0000_0000_0000 <= a.num as int <= 0x7FFF_FFFF_FFFF_FFFF,
            0 <= b.den as int <= 0xFFFF_FFFF,
    ;
    assert(-0x8000_0000_0000_0000_0000_0000 <= b.num as int * a.den as int
        <= 0x8000_0000_0000_0000_0000_0000) by (nonlinear_arith)
        requires
            -0x8000_0000_0000_0000 <= b.num as int <= 0x7FFF_FFFF_FFFF_FFFF,
            0 <= a.den as int <= 0xFFFF_FFFF,
    ;
    assert(-0x4000_0000_0000_0000_0000_0000_0000_0000 <= a.num as int * b.num as int
        <= 0x4000_0000_0000_0000_0000_0000_0000_0000) by (nonlinear_arith)
        requires
            -0x8000_0000_0000_0000 <= a.num as int <= 0x7FFF_FFFF_FFFF_FFFF,
            -0x8000_0000_0000_0000 <= b.num as int <= 0x7FFF_FFFF_FFFF_FFFF,
    ;
    assert(0 <= a.den as int * b.den as int <= 0x1_0000_0000_0000_0000) by (nonlinear_arith)
        requires
            0 <= a.den as int <= 0xFFFF_FFFF,
            0 <= b.den as int <= 0xFFFF_FFFF,
    ;
}

/// `a + b`, exactly; `None` when the reduced result is out of range.
pub fn num_add(a: Number, b: Number) -> (r: Option<Number>)
    requires
        a.wf(),
        b.wf(),
    ensures
        r == spec_add(a, b),
{
    proof {
        lemma_cross_bounds(a, b);
        lemma_den_product_bounds(a.den as int, b.den as int);
    }
    let x: i128 = (a.num as i128) * (b.den as i128);
    let y: i128 = (b.num as i128) * (a.den as i128);
    let s: i128 = x + y;
    let d: u128 = (a.den as u128) * (b.den as u128);
    if s < 0 {
        make_rat(true, (-s) as u128, d)
    } else {
        make_rat(false, s as u128, d)
    }
}

/// `a - b`, exactly; `None` when the reduced result is out of range.
pub fn num_sub(a: Number, b: Number) -> (r: Option<Number>)
    requires
        a.wf(),
        b.wf(),
    ensures
        r == spec_sub(a, b),
{
    proof {
        lemma_cross_bounds(a, b);
        lemma_den_product_bounds(a.den as int, b.den as int);
    }
    let x: i128 = (a.num as i128) * (b.den as i128);
    let y: i128 = (b.num as i128) * (a.den as i128);
    let s: i128 = x - y;
    let d: u128 = (a.den as u128) * (b.den as u128);
    if s < 0 {
        make_rat(true, (-s) as u128, d)
    } else {
        make_rat(false, s as u128, d)
    }
}

/// `a * b`, exactly; `None` when the reduced result is out of range.
pub fn num_mul(a: Number, b: Number) -> (r: Option<Number>)
    requires
        a.wf(),
        b.wf(),
    ensures
        r == spec_mul(a, b),
{
    proof {
        lemma_cross_bounds(a, b);
        lemma_den_product_bounds(a.den as int, b.den as int);
    }
    let s: i128 = (a.num as i128) * (b.num as i128);
    let d: u128 = (a.den as u128) * (b.den as u128);
    if s < 0 {
        make_rat(true, (-s) as u128, d)
    } else {
        make_rat(false, s as u128, d)
    }
}

/// `a / b` for `b.num != 0`, exactly; `None` when the reduced result is out
/// of range.
pub fn num_div(a: Number, b: Number) -> (r: Option<Number>)
    requires
        a.wf(),
        b.wf(),
        b.num != 0,
    ensures
        r == spec_div(a, b),
{
    proof {
        lemma_cross_bounds(a, b);
    }
    let x: i128 = (a.num as i128) * (b.den as i128);
    let bmag: u128 = if b.num < 0 {
        if b.num == i64::MIN {
            MIN_MAG as u128
        } else {
            (-b.num) as u128
        }
    } else {
        b.num as u128
    };
    proof {
        assert(1 <= a.den as int * bmag as int <= 0x8000_0000_0000_0000_0000_0000)
            by (nonlinear_arith)
            requires
                1 <= a.den as int <= 0x1_0000_0000,
                1 <= bmag as int <= 0x8000_0000_0000_0000,
        ;
    }
    let d: u128 = (a.den as u128) * bmag;
    if b.num > 0 {
        if x < 0 {
            make_rat(true, (-x) as u128, d)
        } else {
            make_rat(false, x as u128, d)
        }
    } else {
        if x < 0 {
            make_rat(false, (-x) as u128, d)
        } else if x == 0 {
            make_rat(false, 0, d)
        } else {
            make_rat(true, x as u128, d)
        }
    }
}

/// `-a`, exactly; `None` only when `a.num` is the most negative numerator
/// and its magnitude cannot be reduced into range.
pub fn num_neg(a: Number) -> (r: Option<Number>)
    requires
        a.wf(),
    ensures
        r == spec_neg(a),
{
    let mag: u128 = if a.num < 0 {
        if a.num == i64::MIN {
            MIN_MAG as u128
        } else {
            (-a.num) as u128
        }
    } else {
        a.num as u128
    };
    make_rat(a.num > 0, mag, a.den as u128)
}

/// Whether `a` and `b` denote the same rational value.
pub fn num_eq(a: Number, b: Number) -> (r: bool)
    requires
        a.wf(),
        b.wf(),
    ensures
        r == spec_val_eq(a, b),
{
    proof {
        lemma_cross_bounds(a, b);
    }
    (a.num as i128) * (b.den as i128) == (b.num as i128) * (a.den as i128)
}

/// Whether `a` denotes a strictly smaller rational value than `b`.
pub fn num_lt(a: Number, b: Number) -> (r: bool)
    requires
        a.wf(),
        b.wf(),
    ensures
        r == spec_val_lt(a, b),
{
    proof {
        lemma_cross_bounds(a, b);
    }
    (a.num as i128) * (b.den as i128) < (b.num as i128) * (a.den as i128)
}

/// The character for the decimal digit `d`.
pub open spec fn digit_char(d: nat) -> char {
    if d == 0 {
        '0'
    } else if d == 1 {
        '1'
    } else if d == 2 {
        '2'
    } else if d == 3 {
        '3'
    } else if d == 4 {
        '4'
    } else if d == 5 {
        '5'
    } else if d == 6 {
        '6'
    } else if d == 7 {
        '7'
    } else if d == 8 {
        '8'
    } else {
        '9'
    }
}

/// The decimal digits of `n`, most significant first, without a sign and
/// without leading zeroes (`0` itself is the single digit `0`).
pub open spec fn dec_digits(n: nat) -> Seq<char>
    decreases n,
{
    if n < 10 {
        seq![digit_char(n)]
    } else {
        dec_digits(n / 10).push(digit_char(n % 10))
    }
}

/// The digits after the decimal point of the fraction `rem / den`
/// (`0 <= rem < den`), produced by long division; `None` if the expansion
/// does not terminate within `k` digits.
pub open spec fn frac_digits(rem: nat, den: nat, k: nat) -> Option<Seq<char>>
    recommends
        1 <= den,
    decreases k,
{
    if rem == 0 {
        Some(Seq::empty())
    } else if k == 0 {
        None
    } else {
        match frac_digits((rem * 10) % den, den, (k - 1) as nat) {
            Some(rest) => Some(seq![digit_char((rem * 10) / den)] + rest),
            None => None,
        }
    }
}

/// The number of fraction digits attempted before falling back to the
/// `num/den` form: enough for every denominator that is a product of twos
/// and fives, since `2^32 > u32::MAX`.
pub const MAX_FRAC_DIGITS: u64 = 40;

/// The textual form of a number: the reduced fraction printed as a plain
/// integer when the denominator is `1`, as a finite decimal such as `3.33`
/// when one exists, and as `num/den` otherwise.
pub open spec fn spec_number_str(x: Number) -> Seq<char>
    recommends
        x.wf(),
{
    let g = gcd(spec_abs(x.num as int), x.den as nat);
    let mag = spec_abs(x.num as int) / g;
    let d2 = (x.den as nat) / g;
    let sign: Seq<char> = if x.num < 0 {
        seq!['-']
    } else {
        Seq::empty()
    };
    if d2 == 1 {
        sign + dec_digits(mag)
    } else {
        match frac_digits(mag % d2, d2, MAX_FRAC_DIGITS as nat) {
            Some(f) => sign + dec_digits(mag / d2) + seq!['.'] + f,
            None => sign + dec_digits(mag) + seq!['/'] + dec_digits(d2),
        }
    }
}

/// The decimal digit `d` as a string slice.
fn digit_str(d: u64) -> (r: &'static str)
    requires
        d < 10,
    ensures
        r@ == seq![digit_char(d as nat)],
{
    proof {
        reveal_strlit("0");
        reveal_strlit("1");
        reveal_strlit("2");
        reveal_strlit("3");
        reveal_strlit("4");
        reveal_strlit("5");
        reveal_strlit("6");
        reveal_strlit("7");
        reveal_strlit("8");
        reveal_strlit("9");
    }
    let r = if d == 0 {
        "0"
    } else if d == 1 {
        "1"
    } else if d == 2 {
        "2"
    } else if d == 3 {
        "3"
    } else if d == 4 {
        "4"
    } else if d == 5 {
        "5"
    } else if d == 6 {
        "6"
    } else if d == 7 {
        "7"
    } else if d == 8 {
        "8"
    } else {
        "9"
    };
    proof {
        assert(r@ =~= seq![digit_char(d as nat)]);
    }
    r
}

/// Appends the decimal digits of `n` to `s`.
fn push_digits(s: &mut String, n: u64)
    ensures
        final(s)@ == old(s)@ + dec_digits(n as nat),
    decreases n,
{
    if n < 10 {
        s.append(digit_str(n));
        proof {
            assert(s@ =~= old(s)@ + dec_digits(n as nat));
        }
    } else {
        push_digits(s, n / 10);
        s.append(digit_str(n % 10));
        proof {
            assert(s@ =~= old(s)@ + dec_digits(n as nat));
        }
    }
}

/// The fraction digits of `rem / den` as a string, or `None` when the
/// expansion does not terminate within `k` digits.
fn frac_string(rem: u64, den: u64, k: u64) -> (r: Option<String>)
    requires
        1 <= den <= 0xFFFF_FFFF,
        rem < den,
    ensures
        match r {
            Some(s) => frac_digits(rem as nat, den as nat, k as nat) == Some(s@),
            None => frac_digits(rem as nat, den as nat, k as nat) is None,
        },
    decreases k,
{
    if rem == 0 {
        let s = String::new();
        proof {
            assert(s@ =~= Seq::<char>::empty());
        }
        Some(s)
    } else if k == 0 {
        None
    } else {
        let r10 = rem * 10;
        let d = r10 / den;
        let rem2 = r10 % den;
        proof {
            lemma_fundamental_div_mod(r10 as int, den as int);
            assert(d < 10) by (nonlinear_arith)
                requires
                    r10 as int == den as int * d as int + rem2 as int,
                    0 <= rem2 as int,
                    r10 < 10 * den,
                    den >= 1,
                    d >= 0,
            ;
        }
        match frac_string(rem2, den, k - 1) {
            None => None,
            Some(rest) => {
                let mut s = String::new();
                s.append(digit_str(d));
                s.append(rest.as_str());
                proof {
                    assert(s@ =~= seq![digit_char(d as nat)] + rest@);
                }
                Some(s)
            },
        }
    }
}

impl Number {
    /// The textual form of this number, as `spec_number_str` describes it.
    pub fn to_text(&self) -> (r: String)
        requires
            self.wf(),
        ensures
            r@ == spec_number_str(*self),
    {
        let mag64: u64 = if self.num < 0 {
            if self.num == i64::MIN {
                MIN_MAG
            } else {
                (-self.num) as u64
            }
        } else {
            self.num as u64
        };
        proof {
            assert(mag64 as nat == spec_abs(self.num as int));
            lemma_gcd_divides(mag64 as nat, self.den as nat);
        }
        let g128 = gcd_u128(mag64 as u128, self.den as u128);
        let mag128 = (mag64 as u128) / g128;
        let d128 = (self.den as u128) / g128;
        proof {
            lemma_fundamental_div_mod(self.den as int, g128 as int);
            assert(self.den as int == g128 as int * (self.den as int / g128 as int));
            if d128 == 0 {
                assert(self.den as int == g128 as int * 0);
                assert(false);
            }
            lemma_div_is_ordered_by_denominator(mag64 as int, 1, g128 as int);
            lemma_div_by_self(g128 as int);
            lemma_div_is_ordered_by_denominator(self.den as int, 1, g128 as int);
        }
        let mag: u64 = mag128 as u64;
        let d2: u64 = d128 as u64;
        let mut s = String::new();
        if self.num < 0 {
            proof {
                reveal_strlit("-");
            }
            s.append("-");
        }
        proof {
            assert(s@ =~= (if self.num < 0 {
                seq!['-']
            } else {
                Seq::<char>::empty()
            }));
        }
        if d2 == 1 {
            push_digits(&mut s, mag);
            proof {
                assert(s@ =~= spec_number_str(*self));
            }
            s
        } else {
            match frac_string(mag % d2, d2, MAX_FRAC_DIGITS) {
                Some(f) => {
                    push_digits(&mut s, mag / d2);
                    proof {
                        reveal_strlit(".");
                    }
                    s.append(".");
                    s.append(f.as_str());
                    proof {
                        assert(s@ =~= spec_number_str(*self));
                    }
                    s
                },
                None => {
                    push_digits(&mut s, mag);
                    proof {
                        reveal_strlit("/");
                    }
                    s.append("/");
                    push_digits(&mut s, d2);
                    proof {
                        assert(s@ =~= spec_number_str(*self));
                    }
                    s
                },
            }
        }
    }
}

proof fn lemma_den_product_bounds(x: int, y: int)
    requires
        1 <= x <= 0x1_0000_0000,
        1 <= y <= 0x1_0000_0000,
    ensures
        1 <= x * y <= 0x1_0000_0000_0000_0000,
    {
    assert(1 <= x * y <= 0x1_0000_0000_0000_0000) by (nonlinear_arith)
        requires
            1 <= x <= 0x1_0000_0000,
            1 <= y <= 0x1_0000_0000,
    ;
}


} // verus!
