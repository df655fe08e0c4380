//! How numbers that are no whole number of billionths are held, and how they compare.
use vstd::prelude::*;

use crate::json::read::{held, lemma_pow10, pow10, shift, shifted, times_ten};
use crate::json::Number;

verus! {

/// Whether `d` times ten to a power is above a limit.
pub open spec fn exceeds(d: int, power: int, limit: int) -> bool {
    if power >= 0 {
        d * pow10(power as nat) > limit
    } else {
        d > limit * pow10((-power) as nat)
    }
}

/// Digits with their sign.
pub open spec fn signed_size(negative: bool, digits: u64) -> int {
    if negative { -(digits as int) } else { digits as int }
}

/// `m` times ten to a power where that is a whole number.
pub open spec fn exactly(m: nat, power: int) -> Option<nat> {
    if power >= 0 {
        Some(m * pow10(power as nat))
    } else if m % pow10((-power) as nat) == 0 {
        Some(m / pow10((-power) as nat))
    } else {
        None
    }
}

/// A number without the zeros at its end, and the power of ten it then stands at.
pub open spec fn without_zeros(m: nat, power: int) -> (nat, int)
    decreases m,
{
    if m > 0 && m % 10 == 0 { without_zeros(m / 10, power + 1) } else { (m, power) }
}

/// The number that `m` times ten to a power is: in billionths where it is a whole number of them
/// that can be held, and by its digits where it is not.
pub open spec fn real_of(negative: bool, m: nat, power: int) -> Number {
    let (digits, stands) = without_zeros(m, power);
    match exactly(m, power + 9) {
        Some(n) => if n < i128::MAX {
            Number::Real(held(negative, true, n))
        } else if digits <= u64::MAX {
            Number::Fine(negative, digits as u64, stands as i32)
        } else {
            Number::Real(held(negative, m == 0, shifted(m, power + 9)))
        },
        None => if digits <= u64::MAX {
            Number::Fine(negative, digits as u64, stands as i32)
        } else {
            Number::Real(held(negative, m == 0, shifted(m, power + 9)))
        },
    }
}

impl Number {
    /// The number in billionths: to the nearest, but one that is not zero is not held for zero,
    /// nor one that is too large for more than the largest there is.
    pub open spec fn nano(self) -> int {
        match self {
            Number::Unsigned(n) => n * 1_000_000_000,
            Number::Negative(n) => n * 1_000_000_000,
            Number::Real(n) => n as int,
            Number::Fine(negative, digits, power) => held(negative, digits == 0, shifted(digits as nat, power + 9)) as int,
        }
    }

    /// The number in billionths.
    pub fn billionths(self) -> (r: i128)
        ensures
            r == self.nano(),
    {
        match self {
            Number::Unsigned(n) => (n as i128) * 1_000_000_000,
            Number::Negative(n) => (n as i128) * 1_000_000_000,
            Number::Real(n) => n,
            Number::Fine(negative, digits, power) => {
                let near: i128 = shift_digits(digits, power as i64 + 9);
                let size: i128 = if near == 0 && digits != 0 { 1 } else { near };
                if negative { -size } else { size }
            },
        }
    }

    /// Whether the number is above so many billionths.
    pub open spec fn above(self, limit: int) -> bool {
        match self {
            Number::Fine(negative, digits, power) => exceeds(signed_size(negative, digits), power + 9, limit),
            _ => self.nano() > limit,
        }
    }

    /// Whether the number is below so many billionths.
    pub open spec fn below(self, limit: int) -> bool {
        match self {
            Number::Fine(negative, digits, power) => exceeds(-signed_size(negative, digits), power + 9, -limit),
            _ => self.nano() < limit,
        }
    }

    /// Whether the number is above so many billionths.
    pub fn is_above(self, limit: i128) -> (r: bool)
        ensures
            r == self.above(limit as int),
    {
        match self {
            Number::Fine(negative, digits, power) => {
                let d: i128 = if negative { -(digits as i128) } else { digits as i128 };
                exceeds_limit(d, power as i64 + 9, limit)
            },
            other => other.billionths() > limit,
        }
    }

    /// Whether the number is below so many billionths.
    pub fn is_below(self, limit: i128) -> (r: bool)
        ensures
            r == self.below(limit as int),
    {
        match self {
            Number::Fine(negative, digits, power) => {
                let d: i128 = if negative { digits as i128 } else { -(digits as i128) };
                if limit == i128::MIN {
                    exceeds_all(d, power as i64 + 9)
                } else {
                    exceeds_limit(d, power as i64 + 9, -limit)
                }
            },
            other => other.billionths() < limit,
        }
    }

    /// Whether two numbers are the same, however they are written.
    pub open spec fn same_as(self, other: Number) -> bool {
        if self is Fine || other is Fine { self == other } else { self.nano() == other.nano() }
    }

    /// Whether two numbers are the same, however they are written.
    pub fn equals(self, other: Number) -> (r: bool)
        ensures
            r == self.same_as(other),
    {
        match (self, other) {
            (Number::Fine(_, _, _), _) => self == other,
            (_, Number::Fine(_, _, _)) => self == other,
            _ => self.billionths() == other.billionths(),
        }
    }
}

fn shift_digits(digits: u64, by: i64) -> (r: i128)
    requires
        by > i64::MIN,
    ensures
        r == (if shifted(digits as nat, by as int) < i128::MAX { shifted(digits as nat, by as int) as int } else { i128::MAX as int }),
{
    proof {
        crate::json::read::lemma_pow10_at_31();
    }
    shift(digits as u128, by) as i128
}

/// `m` times ten to a power, where that is below the largest number held.
fn product(m: u64, power: u64) -> (r: Option<i128>)
    ensures
        match r {
            Some(p) => p == m * pow10(power as nat) && p < i128::MAX,
            None => m * pow10(power as nat) > i128::MAX + 1,
        },
{
    let p: u128 = times_ten(m as u128, power);
    if p < 170141183460469231731687303715884105727 {
        return Some(p as i128);
    }
    proof {
        let all = m * pow10(power as nat);
        if power == 0 {
            assert(m * 1 == m);
        } else {
            let before = m * pow10((power - 1) as nat);
            assert(all == 10 * before) by (nonlinear_arith)
                requires
                    all == m * pow10(power as nat),
                    before == m * pow10((power - 1) as nat),
                    pow10(power as nat) == 10 * pow10((power - 1) as nat),
            ;
        }
    }
    None
}

fn exceeds_limit(d: i128, power: i64, limit: i128) -> (r: bool)
    requires
        -(u64::MAX as int) <= d <= u64::MAX,
        power > i64::MIN,
    ensures
        r == exceeds(d as int, power as int, limit as int),
{
    if power >= 0 {
        if d >= 0 {
            match product(d as u64, power as u64) {
                Some(p) => p > limit,
                None => true,
            }
        } else {
            let size: u64 = (-d) as u64;
            proof {
                let ten = pow10(power as nat) as int;
                assert(d * ten == -(size * ten)) by (nonlinear_arith)
                    requires
                        d == -(size as int),
                ;
            }
            match product(size, power as u64) {
                Some(p) => -p > limit,
                None => false,
            }
        }
    } else {
        let k: u64 = (-power) as u64;
        let ghost ten = pow10(k as nat) as int;
        proof {
            lemma_pow10(0, k as nat);
        }
        if limit == i128::MIN {
            proof {
                assert(limit * ten <= limit) by (nonlinear_arith)
                    requires
                        limit < 0,
                        ten >= 1,
                ;
            }
            return true;
        }
        if limit >= 0 {
            let q: u128 = times_ten(limit as u128, k);
            if q < 170141183460469231731687303715884105727 { d > q as i128 } else { false }
        } else {
            let q: u128 = times_ten((-limit) as u128, k);
            proof {
                assert(limit * ten == -((-limit) * ten)) by (nonlinear_arith);
            }
            if q < 170141183460469231731687303715884105727 { d > -(q as i128) } else { true }
        }
    }
}

/// Whether `d` times ten to a power is above every limit there is.
fn exceeds_all(d: i128, power: i64) -> (r: bool)
    requires
        -(u64::MAX as int) <= d <= u64::MAX,
        power > i64::MIN,
    ensures
        r == exceeds(d as int, power as int, i128::MAX + 1),
{
    if power >= 0 {
        if d >= 0 {
            product(d as u64, power as u64).is_none()
        } else {
            proof {
                lemma_pow10(0, power as nat);
                let ten = pow10(power as nat) as int;
                assert(d * ten <= 0) by (nonlinear_arith)
                    requires
                        d < 0,
                        ten >= 1,
                ;
            }
            false
        }
    } else {
        proof {
            lemma_pow10(0, (-power) as nat);
            let ten = pow10((-power) as nat) as int;
            assert((i128::MAX + 1) * ten >= i128::MAX + 1) by (nonlinear_arith)
                requires
                    ten >= 1,
            ;
        }
        false
    }
}

proof fn lemma_without_zeros(m: nat, power: int, k: nat)
    requires
        m < pow10(k),
    ensures
        without_zeros(m, power).0 <= m,
        power <= without_zeros(m, power).1 <= power + k,
    decreases k,
{
    if m > 0 && m % 10 == 0 {
        lemma_without_zeros(m / 10, power + 1, (k - 1) as nat);
    }
}

fn strip(m: u128, power: i64) -> (r: (u128, i64))
    requires
        m < pow10(30),
        -20_000 <= power <= 20_000,
    ensures
        (r.0 as nat, r.1 as int) == without_zeros(m as nat, power as int),
        -20_000 <= r.1 <= 20_030,
{
    let mut d: u128 = m;
    let mut x: i64 = power;
    proof {
        lemma_without_zeros(m as nat, power as int, 30);
    }
    let ghost goal = without_zeros(m as nat, power as int);
    while d > 0 && d % 10 == 0
        invariant
            goal == without_zeros(d as nat, x as int),
            power <= goal.1 <= power + 30,
            power <= x <= goal.1,
            -20_000 <= power <= 20_000,
        ensures
            goal == (d as nat, x as int),
            power <= x <= power + 30,
        decreases d,
    {
        proof {
            lemma_rising((d / 10) as nat, x + 1);
        }
        d = d / 10;
        x = x + 1;
    }
    (d, x)
}

proof fn lemma_rising(m: nat, power: int)
    ensures
        without_zeros(m, power).1 >= power,
    decreases m,
{
    if m > 0 && m % 10 == 0 {
        lemma_rising(m / 10, power + 1);
    }
}

/// `m` over ten to a power, where that is a whole number.
fn divided(m: u128, k: u64) -> (r: Option<u128>)
    requires
        m < pow10(30),
        k > 0,
    ensures
        match r {
            Some(n) => m as nat % pow10(k as nat) == 0 && n == m as nat / pow10(k as nat),
            None => m as nat % pow10(k as nat) != 0,
        },
{
    proof {
        crate::json::read::lemma_pow10_at_31();
        lemma_pow10(0, k as nat);
    }
    if m == 0 {
        proof {
            let ten = pow10(k as nat) as int;
            assert(0int % ten == 0 && 0int / ten == 0) by (nonlinear_arith)
                requires
                    ten >= 1,
            ;
        }
        return Some(0);
    }
    if k > 30 {
        proof {
            lemma_pow10(30, k as nat);
            let ten = pow10(k as nat) as int;
            assert(m as int % ten == m as int) by (nonlinear_arith)
                requires
                    0 <= m < ten,
            ;
        }
        return None;
    }
    let d: u128 = times_ten(1, k);
    proof {
        lemma_pow10(k as nat, 30);
        assert(1 * pow10(k as nat) == pow10(k as nat));
    }
    if m % d == 0 { Some(m / d) } else { None }
}

/// The number that `m` times ten to a power is.
pub(crate) fn decimal(negative: bool, m: u128, power: i64) -> (r: Number)
    requires
        m < pow10(30),
        -20_000 <= power <= 20_000,
    ensures
        r == real_of(negative, m as nat, power as int),
{
    proof {
        crate::json::read::lemma_pow10_at_31();
    }
    let whole: Option<u128> = if power + 9 >= 0 {
        let p: u128 = times_ten(m, (power + 9) as u64);
        if p < 170141183460469231731687303715884105727 { Some(p) } else { None }
    } else {
        divided(m, (-(power + 9)) as u64)
    };
    match whole {
        Some(n) => {
            proof {
                if power + 9 < 0 {
                    let ten = pow10((-(power + 9)) as nat) as int;
                    lemma_pow10(0, (-(power + 9)) as nat);
                    assert(m as int / ten <= m) by (nonlinear_arith)
                        requires
                            m >= 0,
                            ten >= 1,
                    ;
                }
            }
            let size: i128 = n as i128;
            return Number::Real(if negative { -size } else { size });
        },
        None => {},
    }
    let (digits, stands): (u128, i64) = strip(m, power);
    if digits <= u64::MAX as u128 {
        return Number::Fine(negative, digits as u64, stands as i32);
    }
    let near: i128 = shift(m, power + 9) as i128;
    let size: i128 = if near == 0 && m != 0 { 1 } else { near };
    Number::Real(if negative { -size } else { size })
}

} // verus!
