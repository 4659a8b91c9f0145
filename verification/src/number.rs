//! Numbers with a fraction, in the binary notation of IEEE 754.
//!
//! A number is held by its bits: the sign, the exponent, the fraction. What it
//! is worth is a whole number of the smallest steps that its notation can
//! write, so numbers are compared, rounded and written with whole numbers.

use vstd::arithmetic::div_mod::{
    lemma_div_multiples_vanish_quotient, lemma_fundamental_div_mod_converse, lemma_truncate_middle,
};
use vstd::arithmetic::power2::{
    lemma2_to64, lemma2_to64_rest, lemma_pow2_adds, lemma_pow2_pos, lemma_pow2_strictly_increases,
    lemma_pow2_unfold, pow2,
};
use vstd::prelude::*;

use crate::text;

verus! {

/// What an exponent and a fraction are worth, in the smallest steps of a
/// notation in which a full fraction would be worth `one`.
pub open spec fn magnitude(exponent: nat, fraction: nat, one: nat) -> nat {
    if exponent == 0 {
        fraction
    } else {
        (one + fraction) * pow2((exponent - 1) as nat)
    }
}

/// The greater of two exponents, or of two fractions where the exponents are
/// equal, is worth more.
proof fn lemma_magnitude_order(e1: nat, f1: nat, e2: nat, f2: nat, one: nat)
    requires
        f1 < one,
        f2 < one,
        e1 * one + f1 < e2 * one + f2,
    ensures
        magnitude(e1, f1, one) < magnitude(e2, f2, one),
{
    if e1 > e2 {
        assert(e1 * one >= e2 * one + one) by (nonlinear_arith)
            requires
                e1 >= e2 + 1,
                one > 0,
        ;
    } else if e1 == e2 {
        if e1 > 0 {
            let p = pow2((e1 - 1) as nat);
            lemma_pow2_pos((e1 - 1) as nat);
            assert((one + f1) * p < (one + f2) * p) by (nonlinear_arith)
                requires
                    f1 < f2,
                    p > 0,
            ;
        }
    } else {
        let q = pow2((e2 - 1) as nat);
        lemma_pow2_pos((e2 - 1) as nat);
        assert((one + f2) * q >= one * q) by (nonlinear_arith)
            requires
                q > 0,
        ;
        if e1 == 0 {
            assert(one * q >= one) by (nonlinear_arith)
                requires
                    q > 0,
            ;
        } else {
            let p = pow2((e1 - 1) as nat);
            lemma_pow2_pos((e1 - 1) as nat);
            lemma_pow2_unfold(e1);
            if e1 < e2 - 1 {
                lemma_pow2_strictly_increases(e1, (e2 - 1) as nat);
            }
            assert((one + f1) * p < one * q) by (nonlinear_arith)
                requires
                    f1 < one,
                    p > 0,
                    2 * p <= q,
            ;
        }
    }
}

/// `n` divided by `d`, to the nearest whole number and to the even one of two
/// that are as near.
pub open spec fn rounded_to_even(n: nat, d: nat) -> nat {
    let q = n / d;
    let rest = n % d;
    if 2 * rest > d || (2 * rest == d && q % 2 == 1) {
        q + 1
    } else {
        q
    }
}

/// `n` divided by `d`, to the nearest whole number and up from halfway.
pub open spec fn rounded_up(n: nat, d: nat) -> nat {
    (2 * n + d) / (2 * d)
}

proof fn lemma_rounded_alike(n: nat, d: nat, c: nat)
    requires
        c > 0,
        d > 0,
    ensures
        c * d > 0,
        rounded_to_even(c * n, c * d) == rounded_to_even(n, d),
        rounded_up(c * n, c * d) == rounded_up(n, d),
{
    lemma_div_multiples_vanish_quotient(c as int, n as int, d as int);
    lemma_truncate_middle(n as int, c as int, d as int);
    let rest = n % d;
    assert(2 * (c * rest) > c * d <==> 2 * rest > d) by (nonlinear_arith)
        requires
            c > 0,
    ;
    assert(2 * (c * rest) == c * d <==> 2 * rest == d) by (nonlinear_arith)
        requires
            c > 0,
    ;
    lemma_div_multiples_vanish_quotient(c as int, (2 * n + d) as int, (2 * d) as int);
    assert(c * (2 * n + d) == 2 * (c * n) + c * d) by (nonlinear_arith);
    assert(c * (2 * d) == 2 * (c * d)) by (nonlinear_arith);
}

/// Two to the power of `e`.
fn power_of_two(e: u64) -> (r: u64)
    requires
        e < 64,
    ensures
        r == pow2(e as nat),
        r > 0,
{
    let mut r: u64 = 1;
    let mut i: u64 = 0;
    proof {
        lemma2_to64();
        lemma2_to64_rest();
    }
    while i < e
        invariant
            i <= e < 64,
            r == pow2(i as nat),
            pow2(63) == 0x8000_0000_0000_0000,
        decreases e - i,
    {
        proof {
            lemma_pow2_unfold((i + 1) as nat);
            if i < 62 {
                lemma_pow2_strictly_increases((i + 1) as nat, 63);
            }
        }
        r = r * 2;
        i = i + 1;
    }
    proof {
        lemma_pow2_pos(e as nat);
    }
    r
}

/// A number of double precision.
#[derive(Clone, Copy, Debug, PartialEq, Eq, Structural)]
pub struct Double {
    pub bits: u64,
}

impl Double {
    pub open spec fn is_negative(self) -> bool {
        self.bits >= 0x8000_0000_0000_0000
    }

    pub open spec fn exponent(self) -> nat {
        (self.bits as nat / 0x10_0000_0000_0000) % 2048
    }

    pub open spec fn fraction(self) -> nat {
        self.bits as nat % 0x10_0000_0000_0000
    }

    pub open spec fn is_finite(self) -> bool {
        self.exponent() < 2047
    }

    pub open spec fn is_nan(self) -> bool {
        self.exponent() == 2047 && self.fraction() > 0
    }

    /// The number in steps of the smallest positive one, of which
    /// `steps_in_one` make one. An infinite number is beyond all others.
    pub open spec fn steps(self) -> int {
        let m = magnitude(self.exponent(), self.fraction(), 0x10_0000_0000_0000);
        if self.is_negative() {
            -(m as int)
        } else {
            m as int
        }
    }

    /// One number is less than another. What is no number is not less than
    /// anything, nor is anything less than it.
    pub open spec fn less_than(self, other: Double) -> bool {
        !self.is_nan() && !other.is_nan() && self.steps() < other.steps()
    }

    /// The number, and nothing where it is negative or no number.
    pub open spec fn at_least_zero(self) -> nat {
        if self.is_nan() || self.steps() < 0 {
            0
        } else {
            self.steps() as nat
        }
    }

    pub fn finite(self) -> (r: bool)
        ensures
            r == self.is_finite(),
    {
        (self.bits / 0x10_0000_0000_0000) % 2048 < 2047
    }

    fn nan(self) -> (r: bool)
        ensures
            r == self.is_nan(),
    {
        (self.bits / 0x10_0000_0000_0000) % 2048 == 2047 && self.bits % 0x10_0000_0000_0000 > 0
    }

    /// The bits behind the sign, which are negative where the number is.
    spec fn place(self) -> int {
        if self.is_negative() {
            -(self.bits - 0x8000_0000_0000_0000)
        } else {
            self.bits as int
        }
    }

    proof fn lemma_place(self)
        ensures
            self.place() == 0 <==> self.steps() == 0,
            self.place() > 0 ==> self.steps() > 0,
            self.place() < 0 ==> self.steps() < 0,
            self.exponent() * 0x10_0000_0000_0000 + self.fraction() == if self.place() < 0 {
                -self.place()
            } else {
                self.place()
            },
    {
        let e = self.exponent();
        let f = self.fraction();
        assert(e * 0x10_0000_0000_0000 + f == self.bits as nat % 0x8000_0000_0000_0000);
        if e * 0x10_0000_0000_0000 + f > 0 {
            lemma_magnitude_order(0, 0, e, f, 0x10_0000_0000_0000);
        }
    }

    proof fn lemma_order(self, other: Double)
        ensures
            self.place() < other.place() <==> self.steps() < other.steps(),
    {
        self.lemma_place();
        other.lemma_place();
        let a = self.exponent() * 0x10_0000_0000_0000 + self.fraction();
        let b = other.exponent() * 0x10_0000_0000_0000 + other.fraction();
        if a < b {
            lemma_magnitude_order(
                self.exponent(),
                self.fraction(),
                other.exponent(),
                other.fraction(),
                0x10_0000_0000_0000,
            );
        } else if b < a {
            lemma_magnitude_order(
                other.exponent(),
                other.fraction(),
                self.exponent(),
                self.fraction(),
                0x10_0000_0000_0000,
            );
        } else {
            assert(self.exponent() == other.exponent());
            assert(self.fraction() == other.fraction());
        }
    }

    pub fn less(self, other: Double) -> (r: bool)
        ensures
            r == self.less_than(other),
    {
        proof {
            self.lemma_order(other);
        }
        if self.nan() || other.nan() {
            return false;
        }
        let a: i64 = if self.bits >= 0x8000_0000_0000_0000 {
            -((self.bits - 0x8000_0000_0000_0000) as i64)
        } else {
            self.bits as i64
        };
        let b: i64 = if other.bits >= 0x8000_0000_0000_0000 {
            -((other.bits - 0x8000_0000_0000_0000) as i64)
        } else {
            other.bits as i64
        };
        a < b
    }
}

/// How many of the smallest steps of double precision make one.
pub open spec fn steps_in_one() -> nat {
    pow2(1074)
}

/// The bits of infinity.
pub const INFINITY: u64 = 0x7ff0_0000_0000_0000;

/// `n`, or `most` where it is greater.
pub open spec fn whole_up_to(n: nat, most: nat) -> nat {
    if n < most {
        n
    } else {
        most
    }
}

/// The number to the nearest whole one, halfway up.
pub open spec fn nearest_whole(x: Double) -> nat {
    rounded_up(x.at_least_zero(), steps_in_one())
}

/// The number with three digits behind the decimal point, to the nearest
/// thousandth and to the even one of two that are as near.
pub open spec fn with_thousandths(x: Double) -> Seq<char> {
    if !x.is_finite() && !x.is_nan() && !x.is_negative() {
        "inf"@
    } else {
        let thousandths = rounded_to_even(1000 * x.at_least_zero(), steps_in_one());
        text::decimal(thousandths / 1000) + "."@ + text::padded_decimal(thousandths % 1000, 3)
    }
}

/// The size of a finite number: `significand` times two to the power of `power`
/// in steps. Only the smallest numbers have a short significand.
struct Parts {
    significand: u64,
    power: u64,
}

impl Parts {
    spec fn hold(self, n: nat) -> bool {
        &&& n == self.significand * pow2(self.power as nat)
        &&& self.significand < 0x20_0000_0000_0000
        &&& self.power <= 2045
        &&& self.power > 0 ==> self.significand >= 0x10_0000_0000_0000
    }
}

/// A number without its sign.
spec fn size(x: Double) -> nat {
    magnitude(x.exponent(), x.fraction(), 0x10_0000_0000_0000)
}

fn parts(x: Double) -> (r: Parts)
    requires
        x.is_finite(),
    ensures
        r.hold(size(x)),
        r.power * 0x10_0000_0000_0000 + r.significand == x.bits as nat % 0x8000_0000_0000_0000,
{
    proof {
        lemma2_to64();
    }
    let exponent: u64 = (x.bits / 0x10_0000_0000_0000) % 2048;
    let fraction: u64 = x.bits % 0x10_0000_0000_0000;
    if exponent == 0 {
        assert(fraction * pow2(0) == fraction);
        Parts { significand: fraction, power: 0 }
    } else {
        Parts { significand: 0x10_0000_0000_0000 + fraction, power: exponent - 1 }
    }
}

/// The parts of a number, of zero where it is negative or none, and nothing
/// where it is infinite.
fn parts_at_least_zero(x: Double) -> (r: Option<Parts>)
    ensures
        r is None <==> !x.is_finite() && !x.is_nan() && !x.is_negative(),
        r matches Some(p) ==> p.hold(x.at_least_zero()),
{
    proof {
        lemma2_to64();
        x.lemma_place();
    }
    if x.nan() || x.bits >= 0x8000_0000_0000_0000 {
        Some(Parts { significand: 0, power: 0 })
    } else if x.finite() {
        Some(parts(x))
    } else {
        None
    }
}

/// Two powers of two, where the first divides the second.
proof fn lemma_quotient(low: nat, high: nat)
    requires
        low <= high,
    ensures
        pow2(high) == pow2(low) * pow2((high - low) as nat),
        pow2(low) > 0,
        pow2((high - low) as nat) > 0,
{
    lemma_pow2_adds(low, (high - low) as nat);
    lemma_pow2_pos(low);
    lemma_pow2_pos((high - low) as nat);
}

/// What is far less than a half is nothing.
proof fn lemma_rounded_to_nothing(n: nat, d: nat)
    requires
        2 * n < d,
    ensures
        rounded_to_even(n, d) == 0,
        rounded_up(n, d) == 0,
{
    assert(n / d == 0 && n % d == n) by (nonlinear_arith)
        requires
            n < d,
    ;
    assert((2 * n + d) / (2 * d) == 0) by (nonlinear_arith)
        requires
            2 * n + d < 2 * d,
    ;
}

/// What is a whole number is not rounded.
proof fn lemma_rounded_whole(n: nat, d: nat)
    requires
        d > 0,
    ensures
        rounded_to_even(n * d, d) == n,
        rounded_up(n * d, d) == n,
{
    assert(n * d == d * n) by (nonlinear_arith);
    assert(d * 1 == d);
    lemma_rounded_alike(n, 1, d);
    assert(n / 1 == n && n % 1 == 0);
    assert((2 * n + 1) / 2 == n);
}

/// `significand` divided by two to the power of `e`, in thousandths.
fn small_thousandths(significand: u64, e: u64) -> (r: u64)
    requires
        significand < 0x20_0000_0000_0000,
        0 < e <= 1074,
    ensures
        r == rounded_to_even((1000 * significand) as nat, pow2(e as nat)),
        r < 0x8000_0000_0000_0000,
{
    let n: u64 = 1000 * significand;
    proof {
        lemma2_to64();
        lemma2_to64_rest();
    }
    if e > 63 {
        proof {
            assert(pow2(64) == 0x1_0000_0000_0000_0000);
            if e > 64 {
                lemma_pow2_strictly_increases(64, e as nat);
            }
            lemma_rounded_to_nothing(n as nat, pow2(e as nat));
        }
        return 0;
    }
    let d: u64 = power_of_two(e);
    proof {
        if e > 1 {
            lemma_pow2_strictly_increases(1, e as nat);
        }
    }
    let q: u64 = n / d;
    let rest: u64 = n % d;
    assert(q <= n) by (nonlinear_arith)
        requires
            q == n / d,
            d > 0,
    ;
    if rest as u128 * 2 > d as u128 || (rest as u128 * 2 == d as u128 && q % 2 == 1) {
        q + 1
    } else {
        q
    }
}

/// The digits of `2 * n + carry`, where the first `len` of `digits` are those of
/// `n`.
fn doubled_digits(digits: &Vec<char>, len: usize, carry: u8, Ghost(n): Ghost<nat>) -> (r: Vec<char>)
    requires
        0 < len <= digits.len(),
        digits@.subrange(0, len as int) == text::decimal(n),
        carry <= 1,
    ensures
        r@ == text::decimal(2 * n + carry as nat),
    decreases len,
{
    let ghost shown = digits@.subrange(0, len as int);
    let last: char = digits[len - 1];
    assert(last == shown.last());
    proof {
        lemma_last_digit(n);
        lemma_decimal_len(n);
    }
    let d: u8 = (last as u32 - 48) as u8;
    let sum: u8 = 2 * d + carry;
    let mut r: Vec<char> = if len == 1 {
        let mut first: Vec<char> = Vec::new();
        if sum >= 10 {
            first.push('1');
            assert(text::decimal(1) == seq!['1']);
        }
        first
    } else {
        assert(shown.drop_last() == digits@.subrange(0, len - 1));
        doubled_digits(digits, len - 1, sum / 10, Ghost(n / 10))
    };
    let ghost front = r@;
    r.push((48 + sum % 10) as char);
    proof {
        let total = 2 * n + carry as nat;
        assert(total / 10 == 2 * (n / 10) + (sum / 10) as nat);
        assert(total % 10 == (sum % 10) as nat);
        if len == 1 {
            assert(n < 10);
            assert(r@ == text::decimal(total));
        }
    }
    r
}

proof fn lemma_last_digit(n: nat)
    ensures
        text::decimal(n).len() > 0,
        text::decimal(n).last() == text::digit(n % 10),
        n >= 10 ==> text::decimal(n).drop_last() == text::decimal(n / 10),
{
    if n >= 10 {
        assert(text::decimal(n).drop_last() == text::decimal(n / 10));
    }
}

proof fn lemma_decimal_len(n: nat)
    ensures
        text::decimal(n).len() == 1 <==> n < 10,
        text::decimal(n).len() > 0,
    decreases n,
{
    if n >= 10 {
        lemma_decimal_len(n / 10);
    }
}

/// The decimal notation of `significand` times two to the power of `e`.
fn large_text(significand: u64, e: u64) -> (r: String)
    requires
        e <= 2045,
    ensures
        r@ == text::decimal((significand * pow2(e as nat)) as nat),
{
    let shown: String = text::decimal_text(significand as u128);
    let mut digits: Vec<char> = text::chars_of(shown.as_str());
    let ghost mut n: nat = significand as nat;
    let mut i: u64 = 0;
    proof {
        lemma2_to64();
    }
    while i < e
        invariant
            i <= e,
            digits@ == text::decimal(n),
            n == significand * pow2(i as nat),
        decreases e - i,
    {
        proof {
            lemma_decimal_len(n);
            lemma_pow2_unfold((i + 1) as nat);
            assert(significand * (2 * pow2(i as nat)) == 2 * (significand * pow2(i as nat)))
                by (nonlinear_arith);
        }
        assert(digits@.subrange(0, digits@.len() as int) == digits@);
        let len: usize = digits.len();
        digits = doubled_digits(&digits, len, 0, Ghost(n));
        proof {
            n = 2 * n;
        }
        i = i + 1;
    }
    let mut r: String = String::new();
    let mut at: usize = 0;
    while at < digits.len()
        invariant
            at <= digits.len(),
            r@ == digits@.subrange(0, at as int),
        decreases digits.len() - at,
    {
        r.push(digits[at]);
        assert(r@ == digits@.subrange(0, at + 1));
        at = at + 1;
    }
    assert(digits@.subrange(0, at as int) == digits@);
    r
}

pub fn text_with_thousandths(x: Double) -> (r: String)
    ensures
        r@ == with_thousandths(x),
{
    let p = match parts_at_least_zero(x) {
        Some(p) => p,
        None => {
            return "inf".to_owned();
        },
    };
    let ghost n = x.at_least_zero();
    let ghost m = p.significand as nat;
    if p.power < 1074 {
        let e: u64 = 1074 - p.power;
        let t: u64 = small_thousandths(p.significand, e);
        proof {
            let c = pow2(p.power as nat);
            lemma_quotient(p.power as nat, 1074);
            lemma_rounded_alike(1000 * m, pow2(e as nat), c);
            assert(c * (1000 * m) == 1000 * (m * c)) by (nonlinear_arith);
            assert(t == rounded_to_even(1000 * n, steps_in_one()));
        }
        let mut r: String = text::decimal_text((t / 1000) as u128);
        r.append(".");
        r.append(text::padded_decimal_text((t % 1000) as u128, 3).as_str());
        r
    } else {
        let mut r: String = large_text(p.significand, p.power - 1074);
        proof {
            let c = pow2((p.power - 1074) as nat);
            let whole = m * c;
            lemma_quotient(1074, p.power as nat);
            lemma_rounded_whole(1000 * whole, steps_in_one());
            assert(1000 * (m * (pow2(1074) * c)) == (1000 * (m * c)) * pow2(1074))
                by (nonlinear_arith);
            assert(rounded_to_even(1000 * n, steps_in_one()) == 1000 * whole);
        }
        r.append(".");
        r.append(text::padded_decimal_text(0, 3).as_str());
        r
    }
}

/// The number to the nearest whole one, halfway up, and the greatest of the type
/// where it is greater.
pub fn to_nearest_whole(x: Double) -> (r: u64)
    ensures
        r == whole_up_to(nearest_whole(x), u64::MAX as nat),
{
    let p = match parts_at_least_zero(x) {
        Some(p) => p,
        None => {
            proof {
                lemma_infinite(x);
            }
            return u64::MAX;
        },
    };
    let ghost n = x.at_least_zero();
    let ghost m = p.significand as nat;
    proof {
        lemma2_to64();
        lemma2_to64_rest();
    }
    if p.power < 1074 {
        let e: u64 = 1074 - p.power;
        proof {
            let c = pow2(p.power as nat);
            lemma_quotient(p.power as nat, 1074);
            lemma_rounded_alike(m, pow2(e as nat), c);
            assert(c * m == m * c) by (nonlinear_arith);
            assert(nearest_whole(x) == rounded_up(m, pow2(e as nat)));
        }
        if e > 60 {
            proof {
                lemma_pow2_strictly_increases(60, e as nat);
                lemma_rounded_to_nothing(m, pow2(e as nat));
            }
            return 0;
        }
        let d: u64 = power_of_two(e);
        proof {
            if e < 60 {
                lemma_pow2_strictly_increases(e as nat, 60);
            }
        }
        let r: u64 = (2 * p.significand + d) / (2 * d);
        assert(r < u64::MAX) by (nonlinear_arith)
            requires
                r == (2 * p.significand + d) / (2 * d),
                p.significand < 0x20_0000_0000_0000,
                0 < d <= 0x1000_0000_0000_0000,
        ;
        r
    } else {
        let e: u64 = p.power - 1074;
        proof {
            let c = pow2(e as nat);
            lemma_quotient(1074, p.power as nat);
            lemma_rounded_whole(m * c, steps_in_one());
            assert(m * (pow2(1074) * c) == (m * c) * pow2(1074)) by (nonlinear_arith);
            assert(nearest_whole(x) == m * c);
        }
        if e > 11 {
            proof {
                if e > 12 {
                    lemma_pow2_strictly_increases(12, e as nat);
                }
                let c = pow2(e as nat);
                assert(m * c >= 0x10_0000_0000_0000 * 0x1000) by (nonlinear_arith)
                    requires
                        m >= 0x10_0000_0000_0000,
                        c >= 0x1000,
                ;
            }
            return u64::MAX;
        }
        let d: u64 = power_of_two(e);
        proof {
            if e < 11 {
                lemma_pow2_strictly_increases(e as nat, 11);
            }
            assert(p.significand * d <= 0x1f_ffff_ffff_ffff * 0x800) by (nonlinear_arith)
                requires
                    p.significand <= 0x1f_ffff_ffff_ffff,
                    d <= 0x800,
            ;
        }
        p.significand * d
    }
}

/// An infinite number is past every whole number of the type.
proof fn lemma_infinite(x: Double)
    requires
        !x.is_finite(),
        !x.is_nan(),
        !x.is_negative(),
    ensures
        nearest_whole(x) > u64::MAX,
{
    let one = 0x10_0000_0000_0000nat;
    x.lemma_place();
    lemma_quotient(1074, 2046);
    lemma2_to64();
    lemma2_to64_rest();
    lemma_pow2_strictly_increases(12, 972);
    let c = pow2(972);
    assert(one * (pow2(1074) * c) == (one * c) * pow2(1074)) by (nonlinear_arith);
    lemma_rounded_whole(one * c, steps_in_one());
    assert(one * c > 0x10_0000_0000_0000 * 0x1000) by (nonlinear_arith)
        requires
            one == 0x10_0000_0000_0000,
            c > 0x1000,
    ;
}

/// How often `n` is halved until the bits of a significand hold it.
pub open spec fn halvings(n: nat) -> nat
    decreases n,
{
    if n < 0x20_0000_0000_0000 {
        0
    } else {
        1 + halvings(n / 2)
    }
}

/// The bits of the number nearest to `n` steps, the one with an even significand
/// of two that are as near. Past the greatest number they are those of infinity.
pub open spec fn nearest_bits(n: nat) -> nat {
    let bits = halvings(n) * 0x10_0000_0000_0000 + rounded_to_even(n, pow2(halvings(n)));
    if bits < 0x7ff0_0000_0000_0000 {
        bits
    } else {
        0x7ff0_0000_0000_0000
    }
}

/// The number nearest to `n` steps; zero has no sign.
pub open spec fn nearest(n: int) -> Double {
    if n < 0 {
        Double { bits: (0x8000_0000_0000_0000 + nearest_bits((-n) as nat)) as u64 }
    } else {
        Double { bits: nearest_bits(n as nat) as u64 }
    }
}

/// Where `n` lies tells how often it is halved.
proof fn lemma_halvings(n: nat, t: nat)
    requires
        n < 0x20_0000_0000_0000 * pow2(t),
        t > 0 ==> n >= 0x10_0000_0000_0000 * pow2(t),
    ensures
        halvings(n) == t,
    decreases t,
{
    lemma2_to64();
    if t > 0 {
        lemma_pow2_unfold(t);
        lemma_pow2_pos((t - 1) as nat);
        assert(n / 2 < 0x20_0000_0000_0000 * pow2((t - 1) as nat));
        lemma_halvings(n / 2, (t - 1) as nat);
    }
}

/// Rounding takes the nearest whole number.
proof fn lemma_rounded_near(n: nat, d: nat, whole: nat)
    requires
        2 * n < 2 * (whole * d) + d,
        2 * n + d > 2 * (whole * d),
    ensures
        rounded_to_even(n, d) == whole,
{
    if n >= whole * d {
        let rest = (n - whole * d) as nat;
        lemma_fundamental_div_mod_converse(
            n as int,
            d as int,
            whole as int,
            rest as int,
        );
    } else {
        let low = (whole - 1) as nat;
        assert(whole > 0) by (nonlinear_arith)
            requires
                n < whole * d,
        ;
        assert(whole * d == low * d + d) by (nonlinear_arith)
            requires
                whole == low + 1,
        ;
        let rest = (n - low * d) as nat;
        lemma_fundamental_div_mod_converse(
            n as int,
            d as int,
            low as int,
            rest as int,
        );
    }
}

/// What lies within a quarter of a step of a number has that number's bits.
proof fn lemma_nearest_close(n: nat, a: nat, power: nat)
    requires
        a < 0x20_0000_0000_0000,
        power > 0 ==> a >= 0x10_0000_0000_0000,
        4 * n < 4 * (a * pow2(power)) + pow2(power),
        4 * n + pow2(power) > 4 * (a * pow2(power)),
    ensures
        halvings(n) * 0x10_0000_0000_0000 + rounded_to_even(n, pow2(halvings(n))) == power
            * 0x10_0000_0000_0000 + a,
{
    let d = pow2(power);
    lemma_pow2_pos(power);
    lemma2_to64();
    if power == 0 {
        assert(a * pow2(0) == a);
        assert(n == a);
        lemma_halvings(n, 0);
        lemma_rounded_near(n, 1, a);
    } else if n >= 0x10_0000_0000_0000 * d {
        assert(a * d + d <= 0x20_0000_0000_0000 * d) by (nonlinear_arith)
            requires
                a + 1 <= 0x20_0000_0000_0000,
                d > 0,
        ;
        lemma_halvings(n, power);
        lemma_rounded_near(n, d, a);
    } else {
        let h = pow2((power - 1) as nat);
        lemma_pow2_unfold(power);
        lemma_pow2_pos((power - 1) as nat);
        assert(a == 0x10_0000_0000_0000) by (nonlinear_arith)
            requires
                a >= 0x10_0000_0000_0000,
                4 * n + d > 4 * (a * d),
                n < 0x10_0000_0000_0000 * d,
                d > 0,
        ;
        assert(a * d == 0x20_0000_0000_0000 * h);
        lemma_halvings(n, (power - 1) as nat);
        lemma_rounded_near(n, h, 0x20_0000_0000_0000);
    }
}

/// A number other than the negative zero is the nearest one to what it is worth.
pub proof fn lemma_nearest_to_itself(x: Double)
    requires
        x.is_finite(),
        x.bits != 0x8000_0000_0000_0000,
    ensures
        nearest(x.steps()) == x,
{
    x.lemma_place();
    let e = x.exponent();
    let f = x.fraction();
    let m = magnitude(e, f, 0x10_0000_0000_0000);
    lemma2_to64();
    if e == 0 {
        assert(f * pow2(0) == f);
        lemma_nearest_close(m, f, 0);
    } else {
        lemma_pow2_pos((e - 1) as nat);
        lemma_nearest_close(m, 0x10_0000_0000_0000 + f, (e - 1) as nat);
    }
}

/// How often `m` is halved, and two to that power.
fn halved(m: u128) -> (r: (u64, u128))
    requires
        m < 0x40_0000_0000_0000_0000_0000_0000_0000,
    ensures
        r.0 == halvings(m as nat),
        r.1 == pow2(r.0 as nat),
        r.0 < 128,
        r.1 * 0x10_0000_0000_0000 <= m || r.1 == 1,
        0 < r.1 < 0x40_0000_0000_0000_0000_0000_0000_0000,
{
    let mut rest: u128 = m;
    let mut t: u64 = 0;
    let mut d: u128 = 1;
    proof {
        lemma2_to64();
    }
    while rest >= 0x20_0000_0000_0000
        invariant
            rest <= m,
            m < 0x40_0000_0000_0000_0000_0000_0000_0000,
            t + halvings(rest as nat) == halvings(m as nat),
            d == pow2(t as nat),
            d * rest <= m,
            d == 1 || rest >= 0x10_0000_0000_0000,
            t < 128,
            0 < d < 0x40_0000_0000_0000_0000_0000_0000_0000,
        decreases rest,
    {
        proof {
            lemma_pow2_unfold((t + 1) as nat);
            assert(2 * d * (rest / 2) <= m && 2 * d <= m) by (nonlinear_arith)
                requires
                    d * rest <= m,
                    rest >= 2,
                    d > 0,
            ;
            lemma_power_bound((t + 1) as nat, (2 * d) as nat);
        }
        rest = rest / 2;
        d = 2 * d;
        t = t + 1;
    }
    assert(d * 0x10_0000_0000_0000 <= m || d == 1) by (nonlinear_arith)
        requires
            d * rest <= m,
            d == 1 || rest >= 0x10_0000_0000_0000,
            d > 0,
    ;
    (t, d)
}

/// The bits of the number nearest to `m` times two to the power of `power`.
fn rounded_bits(m: u128, power: u64) -> (r: u64)
    requires
        m < 0x40_0000_0000_0000_0000_0000_0000_0000,
        power <= 2045,
    ensures
        r == nearest_bits((m * pow2(power as nat)) as nat),
        r <= 0x7ff0_0000_0000_0000,
{
    let ghost n = (m * pow2(power as nat)) as nat;
    let mut m: u128 = m;
    let mut power: u64 = power;
    while m < 0x10_0000_0000_0000 && power > 0
        invariant
            m < 0x40_0000_0000_0000_0000_0000_0000_0000,
            power <= 2045,
            n == m * pow2(power as nat),
        decreases power,
    {
        proof {
            lemma_pow2_unfold(power as nat);
            let p = pow2((power - 1) as nat);
            assert(m * (2 * p) == (m * 2) * p) by (nonlinear_arith);
        }
        m = m * 2;
        power = power - 1;
    }
    let (t, d): (u64, u128) = halved(m);
    let q: u128 = m / d;
    let over: u128 = m % d;
    let whole: u128 = if 2 * over > d || (2 * over == d && q % 2 == 1) {
        q + 1
    } else {
        q
    };
    let ghost c = pow2(power as nat);
    proof {
        lemma_pow2_pos(power as nat);
        lemma_halvings_alike(m as nat, power as nat);
        lemma_pow2_adds(power as nat, t as nat);
        lemma_rounded_alike(m as nat, d as nat, c);
        assert(c * m == m * c) by (nonlinear_arith);
        assert(halvings(n) == t + power);
        assert(whole == rounded_to_even(n, pow2(halvings(n))));
    }
    let bits: u128 = (t as u128 + power as u128) * 0x10_0000_0000_0000 + whole;
    if bits < 0x7ff0_0000_0000_0000 {
        bits as u64
    } else {
        0x7ff0_0000_0000_0000
    }
}

/// A power of two that is not great has no great exponent.
proof fn lemma_power_bound(t: nat, d: nat)
    requires
        d == pow2(t),
        d < 0x40_0000_0000_0000_0000_0000_0000_0000,
    ensures
        t < 128,
{
    if t >= 128 {
        lemma2_to64_rest();
        lemma_pow2_adds(64, 64);
        if t > 128 {
            lemma_pow2_strictly_increases(128, t);
        }
    }
}

/// Doubling adds to the halvings.
proof fn lemma_halvings_alike(m: nat, power: nat)
    requires
        power > 0 ==> m >= 0x10_0000_0000_0000,
    ensures
        halvings(m * pow2(power)) == halvings(m) + power,
    decreases power,
{
    lemma2_to64();
    if power == 0 {
        assert(m * pow2(0) == m);
    } else {
        let p = pow2((power - 1) as nat);
        lemma_pow2_unfold(power);
        lemma_pow2_pos((power - 1) as nat);
        lemma_halvings_alike(m, (power - 1) as nat);
        assert(m * (2 * p) == 2 * (m * p)) by (nonlinear_arith);
        assert(m * p >= m) by (nonlinear_arith)
            requires
                p > 0,
        ;
    }
}

/// The sum of two numbers.
pub open spec fn sum(a: Double, b: Double) -> Double {
    nearest(a.steps() + b.steps())
}

/// The difference of two numbers.
pub open spec fn difference(a: Double, b: Double) -> Double {
    nearest(a.steps() - b.steps())
}

/// The number nearest to what `big` and a number that is lost beside it make.
proof fn lemma_small_is_lost(big: Double, n: int, s: nat, power: nat, small: int)
    requires
        big.is_finite(),
        size(big) == s * pow2(power),
        power * 0x10_0000_0000_0000 + s == big.bits as nat % 0x8000_0000_0000_0000,
        0x10_0000_0000_0000 <= s < 0x20_0000_0000_0000,
        n == big.steps() + small,
        -pow2(power) < 4 * small < pow2(power),
    ensures
        nearest(n) == big,
{
    let p = pow2(power);
    big.lemma_place();
    assert(s * p >= p) by (nonlinear_arith)
        requires
            s >= 1,
            p > 0,
    ;
    if big.is_negative() {
        lemma_nearest_close((-n) as nat, s, power);
    } else {
        lemma_nearest_close(n as nat, s, power);
    }
}

/// `x` and `y` on the scale of `y`.
proof fn lemma_on_one_scale(x: nat, y: nat, gap: nat, power: nat)
    ensures
        x * pow2(gap + power) == (x * pow2(gap)) * pow2(power),
        (x * pow2(gap)) * pow2(power) + y * pow2(power) == (x * pow2(gap) + y) * pow2(power),
        (x * pow2(gap)) * pow2(power) - y * pow2(power) == (x * pow2(gap) - y) * pow2(power),
{
    lemma_pow2_adds(gap, power);
    let g = pow2(gap);
    let p = pow2(power);
    assert(x * (g * p) == (x * g) * p) by (nonlinear_arith);
    assert((x * g) * p + y * p == (x * g + y) * p) by (nonlinear_arith);
    assert((x * g) * p - y * p == (x * g - y) * p) by (nonlinear_arith);
}

/// The sum of two numbers, of which the first has the greater exponent.
fn ordered_sum(a: Double, b: Double, big: Parts, small: Parts) -> (r: Double)
    requires
        a.is_finite(),
        b.is_finite(),
        big.hold(size(a)),
        small.hold(size(b)),
        big.power * 0x10_0000_0000_0000 + big.significand == a.bits as nat % 0x8000_0000_0000_0000,
        big.power >= small.power,
    ensures
        r == sum(a, b),
{
    let gap: u64 = big.power - small.power;
    let ghost p = pow2(small.power as nat);
    proof {
        lemma2_to64();
        lemma2_to64_rest();
        lemma_pow2_pos(small.power as nat);
    }
    if gap > 63 {
        proof {
            lemma_pow2_adds(gap as nat, small.power as nat);
            if gap > 64 {
                lemma_pow2_strictly_increases(64, gap as nat);
            }
            let g = pow2(gap as nat);
            let y = small.significand as nat;
            assert(4 * (y * p) < g * p) by (nonlinear_arith)
                requires
                    y < 0x20_0000_0000_0000,
                    g >= 0x1_0000_0000_0000_0000,
                    p > 0,
            ;
            lemma_small_is_lost(
                a,
                a.steps() + b.steps(),
                big.significand as nat,
                big.power as nat,
                b.steps(),
            );
        }
        return a;
    }
    let factor: u64 = power_of_two(gap);
    assert(big.significand * factor < 0x20_0000_0000_0000 * 0x1_0000_0000_0000_0000)
        by (nonlinear_arith)
        requires
            big.significand < 0x20_0000_0000_0000,
            factor < 0x1_0000_0000_0000_0000,
    ;
    let x: u128 = big.significand as u128 * factor as u128;
    let y: u128 = small.significand as u128;
    proof {
        lemma_on_one_scale(
            big.significand as nat,
            y as nat,
            gap as nat,
            small.power as nat,
        );
        assert((y - x) * p == y * p - x * p) by (nonlinear_arith);
    }
    let a_negative: bool = a.bits >= 0x8000_0000_0000_0000;
    let b_negative: bool = b.bits >= 0x8000_0000_0000_0000;
    let (m, negative): (u128, bool) = if a_negative == b_negative {
        (x + y, a_negative)
    } else if x >= y {
        (x - y, a_negative)
    } else {
        (y - x, b_negative)
    };
    proof {
        let n = a.steps() + b.steps();
        assert(n == if negative { -(m * p) } else { m * p });
        assert(m * p >= 0) by (nonlinear_arith)
            requires
                p > 0,
        ;
        assert(m * p == 0 <==> m == 0) by (nonlinear_arith)
            requires
                p > 0,
        ;
    }
    let bits: u64 = rounded_bits(m, small.power);
    if negative && m > 0 {
        Double { bits: 0x8000_0000_0000_0000 + bits }
    } else {
        Double { bits }
    }
}

pub fn add_up(a: Double, b: Double) -> (r: Double)
    requires
        a.is_finite(),
        b.is_finite(),
    ensures
        r == sum(a, b),
        !r.is_nan(),
{
    let x = parts(a);
    let y = parts(b);
    proof {
        let n = a.steps() + b.steps();
        assert(nearest(n).bits as nat % 0x8000_0000_0000_0000 <= INFINITY);
    }
    if x.power >= y.power {
        ordered_sum(a, b, x, y)
    } else {
        ordered_sum(b, a, y, x)
    }
}

pub fn take_away(a: Double, b: Double) -> (r: Double)
    requires
        a.is_finite(),
        b.is_finite(),
    ensures
        r == difference(a, b),
{
    let other = if b.bits >= 0x8000_0000_0000_0000 {
        Double { bits: b.bits - 0x8000_0000_0000_0000 }
    } else {
        Double { bits: b.bits + 0x8000_0000_0000_0000 }
    };
    assert(other.exponent() == b.exponent() && other.fraction() == b.fraction());
    add_up(a, other)
}

/// A number of single precision.
#[derive(Clone, Copy, Debug, PartialEq, Eq, Structural)]
pub struct Single {
    pub bits: u32,
}

impl Single {
    pub open spec fn is_negative(self) -> bool {
        self.bits >= 0x8000_0000
    }

    pub open spec fn exponent(self) -> nat {
        (self.bits as nat / 0x80_0000) % 256
    }

    pub open spec fn fraction(self) -> nat {
        self.bits as nat % 0x80_0000
    }

    pub open spec fn is_finite(self) -> bool {
        self.exponent() < 255
    }

    pub open spec fn is_nan(self) -> bool {
        self.exponent() == 255 && self.fraction() > 0
    }

    /// The number in steps of the smallest positive one, of which
    /// `single_steps_in_one` make one. An infinite number is beyond all others.
    pub open spec fn steps(self) -> int {
        let m = magnitude(self.exponent(), self.fraction(), 0x80_0000);
        if self.is_negative() {
            -(m as int)
        } else {
            m as int
        }
    }

    /// One number equals another. What is no number equals nothing.
    pub open spec fn equals(self, other: Single) -> bool {
        !self.is_nan() && !other.is_nan() && self.steps() == other.steps()
    }

    pub fn finite(self) -> (r: bool)
        ensures
            r == self.is_finite(),
    {
        (self.bits / 0x80_0000) % 256 < 255
    }

    fn nan(self) -> (r: bool)
        ensures
            r == self.is_nan(),
    {
        (self.bits / 0x80_0000) % 256 == 255 && self.bits % 0x80_0000 > 0
    }

    /// The bits behind the sign, which are negative where the number is.
    spec fn place(self) -> int {
        if self.is_negative() {
            -(self.bits - 0x8000_0000)
        } else {
            self.bits as int
        }
    }

    proof fn lemma_place(self)
        ensures
            self.place() == 0 <==> self.steps() == 0,
            self.place() > 0 ==> self.steps() > 0,
            self.place() < 0 ==> self.steps() < 0,
            self.exponent() * 0x80_0000 + self.fraction() == if self.place() < 0 {
                -self.place()
            } else {
                self.place()
            },
    {
        let e = self.exponent();
        let f = self.fraction();
        assert(e * 0x80_0000 + f == self.bits as nat % 0x8000_0000);
        if e * 0x80_0000 + f > 0 {
            lemma_magnitude_order(0, 0, e, f, 0x80_0000);
        }
    }

    proof fn lemma_order(self, other: Single)
        ensures
            self.place() < other.place() <==> self.steps() < other.steps(),
    {
        self.lemma_place();
        other.lemma_place();
        let a = self.exponent() * 0x80_0000 + self.fraction();
        let b = other.exponent() * 0x80_0000 + other.fraction();
        if a < b {
            lemma_magnitude_order(
                self.exponent(),
                self.fraction(),
                other.exponent(),
                other.fraction(),
                0x80_0000,
            );
        } else if b < a {
            lemma_magnitude_order(
                other.exponent(),
                other.fraction(),
                self.exponent(),
                self.fraction(),
                0x80_0000,
            );
        } else {
            assert(self.exponent() == other.exponent());
            assert(self.fraction() == other.fraction());
        }
    }

    fn signed_bits(self) -> (r: i64)
        ensures
            r == self.place(),
    {
        if self.bits >= 0x8000_0000 {
            -((self.bits - 0x8000_0000) as i64)
        } else {
            self.bits as i64
        }
    }

    pub fn same_as(self, other: Single) -> (r: bool)
        ensures
            r == self.equals(other),
    {
        proof {
            self.lemma_order(other);
            other.lemma_order(self);
        }
        !self.nan() && !other.nan() && self.signed_bits() == other.signed_bits()
    }
}

/// How many of the smallest steps of single precision make one.
pub open spec fn single_steps_in_one() -> nat {
    pow2(149)
}

/// The distance between the numbers of single precision around `n` steps.
pub open spec fn distance_at(n: nat) -> nat
    decreases n,
{
    if n < 0x100_0000 {
        1
    } else {
        2 * distance_at(n / 2)
    }
}

/// A thousand times a number that is not negative, to the nearest number of
/// single precision, in steps.
pub open spec fn thousandfold(x: Single) -> nat {
    let n = (1000 * x.steps()) as nat;
    rounded_to_even(n, distance_at(n)) * distance_at(n)
}

/// The number between `low` and `high`.
pub open spec fn single_clamped(x: Single, low: Single, high: Single) -> Single {
    if x.steps() < low.steps() {
        low
    } else if x.steps() > high.steps() {
        high
    } else {
        x
    }
}

pub fn clamp_single(x: Single, low: Single, high: Single) -> (r: Single)
    ensures
        r == single_clamped(x, low, high),
        0 < low.bits <= high.bits < 0x8000_0000 ==> low.bits <= r.bits <= high.bits,
{
    proof {
        x.lemma_order(low);
        high.lemma_order(x);
    }
    if x.signed_bits() < low.signed_bits() {
        low
    } else if x.signed_bits() > high.signed_bits() {
        high
    } else {
        x
    }
}

/// Doubling doubles the distance.
proof fn lemma_distance_alike(n: nat, power: nat)
    requires
        n >= 0x80_0000,
    ensures
        distance_at(n * pow2(power)) == distance_at(n) * pow2(power),
    decreases power,
{
    lemma2_to64();
    if power == 0 {
        assert(n * pow2(0) == n);
        assert(distance_at(n) * pow2(0) == distance_at(n));
    } else {
        let p = pow2((power - 1) as nat);
        let d = distance_at(n);
        lemma_pow2_unfold(power);
        lemma_pow2_pos((power - 1) as nat);
        lemma_distance_alike(n, (power - 1) as nat);
        assert(n * (2 * p) == 2 * (n * p)) by (nonlinear_arith);
        assert(d * (2 * p) == 2 * (d * p)) by (nonlinear_arith);
        assert(n * p >= n) by (nonlinear_arith)
            requires
                p > 0,
        ;
    }
}

proof fn lemma_distance_of_product(n: nat)
    requires
        8_388_608_000 <= n < 0x4_0000_0000,
    ensures
        distance_at(n) == if n >= 0x2_0000_0000 {
            1024nat
        } else {
            512
        },
{
    reveal_with_fuel(distance_at, 12);
}

/// The product in steps of `x`, by its significand and its exponent.
proof fn lemma_thousandfold(x: Single, significand: nat, power: nat, d: nat)
    requires
        x.steps() == significand * pow2(power),
        0x80_0000 <= significand < 0x100_0000,
        d == distance_at(1000 * significand),
        d > 0,
    ensures
        thousandfold(x) == pow2(power) * (rounded_to_even(1000 * significand, d) * d),
{
    let c = pow2(power);
    let n = 1000 * significand;
    let whole = rounded_to_even(n, d);
    lemma_pow2_pos(power);
    lemma_distance_alike(n, power);
    lemma_rounded_alike(n, d, c);
    assert(1000 * (significand * c) == n * c) by (nonlinear_arith)
        requires
            n == 1000 * significand,
    ;
    assert(n * c == c * n) by (nonlinear_arith);
    assert(d * c == c * d) by (nonlinear_arith);
    assert(whole * (c * d) == c * (whole * d)) by (nonlinear_arith);
}

/// A thousand times a number from 1/1024 to 1024, to the nearest whole number.
pub fn nearest_thousandths(x: Single) -> (r: u64)
    requires
        0x3a80_0000 <= x.bits <= 0x4480_0000,
    ensures
        r == rounded_up(thousandfold(x), single_steps_in_one()),
{
    let exponent: u32 = x.bits / 0x80_0000;
    let significand: u64 = 0x80_0000 + (x.bits % 0x80_0000) as u64;
    let n: u64 = 1000 * significand;
    let d: u64 = if n >= 0x2_0000_0000 {
        1024
    } else {
        512
    };
    let q: u64 = n / d;
    let rest: u64 = n % d;
    let whole: u64 = if 2 * rest > d || (2 * rest == d && q % 2 == 1) {
        q + 1
    } else {
        q
    };
    assert(whole == rounded_to_even(n as nat, d as nat));
    assert(q <= n / 512);
    assert(whole * d <= 0x4_0000_0000 + 1024) by {
        assert(q * d <= n) by (nonlinear_arith)
            requires
                q == n / d,
                d > 0,
        ;
        assert(whole * d <= q * d + d) by (nonlinear_arith)
            requires
                whole <= q + 1,
                d > 0,
        ;
    }
    let product: u64 = whole * d;
    assert(117 <= exponent <= 137);
    let one: u64 = power_of_two(150 - exponent as u64);
    proof {
        lemma2_to64_rest();
        if exponent > 117 {
            lemma_pow2_strictly_increases((150 - exponent) as nat, 33);
        }
        let e = (exponent - 1) as nat;
        assert(x.exponent() == exponent);
        lemma_distance_of_product(n as nat);
        lemma_thousandfold(x, significand as nat, e, d as nat);
        lemma_quotient(e, 149);
        lemma_rounded_alike(product as nat, one as nat, pow2(e));
    }
    (2 * product + one) / (2 * one)
}

/// The number of double precision nearest to a whole number.
pub open spec fn whole_as_double(n: nat) -> nat {
    rounded_to_even(n, pow2(halvings(n))) * pow2(halvings(n))
}

fn round_to_double(n: u64) -> (r: u128)
    ensures
        r == whole_as_double(n as nat),
        r <= 0x2_0000_0000_0000_0000,
{
    let (t, d): (u64, u128) = halved(n as u128);
    let q: u128 = n as u128 / d;
    let over: u128 = n as u128 % d;
    proof {
        assert(n as u128 / 1 == n);
    }
    let whole: u128 = if 2 * over > d || (2 * over == d && q % 2 == 1) {
        q + 1
    } else {
        q
    };
    assert(whole * d <= n + d) by (nonlinear_arith)
        requires
            whole <= q + 1,
            q == n as u128 / d,
            d > 0,
    ;
    whole * d
}

/// A whole number of units with one digit behind the decimal point, as division
/// in double precision gives it.
pub open spec fn with_tenth(n: nat, unit: nat) -> Seq<char> {
    let tenths = rounded_to_even(10 * whole_as_double(n), unit);
    text::decimal(tenths / 10) + "."@ + text::decimal(tenths % 10)
}

pub fn text_with_tenth(n: u64, unit: u64) -> (r: String)
    requires
        unit > 0,
    ensures
        r@ == with_tenth(n as nat, unit as nat),
{
    let value: u128 = 10 * round_to_double(n);
    let d: u128 = unit as u128;
    let q: u128 = value / d;
    let over: u128 = value % d;
    assert(q <= value) by (nonlinear_arith)
        requires
            q == value / d,
            d > 0,
    ;
    let tenths: u128 = if 2 * over > d || (2 * over == d && q % 2 == 1) {
        q + 1
    } else {
        q
    };
    let mut r: String = text::decimal_text(tenths / 10);
    r.append(".");
    r.append(text::decimal_text(tenths % 10).as_str());
    r
}

/// Equal numbers are equal in all that counts.
pub proof fn lemma_equal_singles(a: Single, b: Single)
    requires
        a.equals(b),
    ensures
        a.steps() == b.steps(),
        a.is_finite() == b.is_finite(),
        b.equals(a),
{
    a.lemma_order(b);
    b.lemma_order(a);
    a.lemma_place();
    b.lemma_place();
    assert(a.place() == b.place());
    assert(a.exponent() * 0x80_0000 + a.fraction() == b.exponent() * 0x80_0000 + b.fraction());
    assert(a.exponent() == b.exponent());
}

proof fn lemma_thousandths_are(x: Single, significand: nat, exponent: nat, d: nat)
    requires
        x.bits == exponent * 0x80_0000 + (significand - 0x80_0000),
        0x80_0000 <= significand < 0x100_0000,
        117 <= exponent <= 137,
        d == (if 1000 * significand >= 0x2_0000_0000 {
            1024nat
        } else {
            512
        }),
    ensures
        rounded_up(thousandfold(x), single_steps_in_one()) == rounded_up(
            rounded_to_even(1000 * significand, d) * d,
            pow2((150 - exponent) as nat),
        ),
        x.steps() == significand * pow2((exponent - 1) as nat),
{
    let e = (exponent - 1) as nat;
    assert(x.exponent() == exponent);
    assert(x.fraction() == significand - 0x80_0000);
    lemma_distance_of_product(1000 * significand);
    lemma_thousandfold(x, significand, e, d);
    lemma_quotient(e, 149);
    lemma_rounded_alike(
        rounded_to_even(1000 * significand, d) * d,
        pow2((149 - e) as nat),
        pow2(e),
    );
    assert((149 - e) as nat == (150 - exponent) as nat);
}

/// A tenth and ten in thousandths, and their order.
pub proof fn lemma_thousandths_of_a_tenth_and_ten()
    ensures
        rounded_up(thousandfold(Single { bits: 0x3dcc_cccd }), single_steps_in_one()) == 100,
        rounded_up(thousandfold(Single { bits: 0x4120_0000 }), single_steps_in_one()) == 10_000,
        (Single { bits: 0x3dcc_cccd }).steps() < (Single { bits: 0x4120_0000 }).steps(),
{
    let low = Single { bits: 0x3dcc_cccd };
    let high = Single { bits: 0x4120_0000 };
    lemma2_to64();
    lemma2_to64_rest();
    lemma_thousandths_are(low, 0xcc_cccd, 123, 1024);
    lemma_thousandths_are(high, 0xa0_0000, 130, 1024);
    assert(pow2(27) == 0x800_0000);
    assert(pow2(20) == 0x10_0000);
    assert(rounded_to_even(13_421_773_000, 1024) == 13_107_200);
    assert(rounded_to_even(10_485_760_000, 1024) == 10_240_000);
    assert((150 - 123) as nat == 27 && (150 - 130) as nat == 20);
    let a: nat = rounded_to_even(1000 * 0xcc_cccd, 1024) * 1024;
    let b: nat = rounded_to_even(1000 * 0xa0_0000, 1024) * 1024;
    assert(a == 13_421_772_800);
    assert(b == 10_485_760_000);
    lemma_fundamental_div_mod_converse(
        26_977_763_328,
        0x1000_0000,
        100,
        26_977_763_328 - 100 * 0x1000_0000,
    );
    lemma_fundamental_div_mod_converse(
        20_972_568_576,
        0x20_0000,
        10_000,
        20_972_568_576 - 10_000 * 0x20_0000,
    );
    assert(rounded_up(a, 0x800_0000) == 100);
    assert(rounded_up(b, 0x10_0000) == 10_000);
    low.lemma_order(high);
}

} // verus!
