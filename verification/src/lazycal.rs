//! An exact, lazily reduced rational value: either an integer, or an
//! unresolved (dividend, divisor) pair kept until an exact integer
//! division is known to exist.  Arithmetic combines pairs by ordinary
//! fraction algebra and re-normalizes through the same reduce-if-exact
//! rule, so results stay exact whenever they can.

use vstd::prelude::*;

verus! {

/// An exact integer, or a deferred (dividend, divisor) pair.
#[derive(Debug, Clone, Copy, PartialEq, Eq)]
pub enum LazyCal {
    Int(i32),
    Lazy((i32, i32)),
}

/// The magnitude of an integer.
pub open spec fn abs1(x: int) -> int {
    if x < 0 {
        -x
    } else {
        x
    }
}

/// Whether a value fits an `i32`.
pub open spec fn in_i32(x: int) -> bool {
    i32::MIN <= x <= i32::MAX
}

/// Whether `b` divides `a` exactly (and is not zero).
pub open spec fn exact_div(a: int, b: int) -> bool {
    b != 0 && abs1(a) % abs1(b) == 0
}

/// The exact quotient of `a` by `b`, by magnitude and sign.
pub open spec fn quot(a: int, b: int) -> int {
    if (a < 0) == (b < 0) {
        abs1(a) / abs1(b)
    } else {
        -(abs1(a) / abs1(b))
    }
}

/// Where a division is exact, `quot` is the one true quotient:
/// the dividend is exactly the divisor times it.
pub proof fn lemma_quot_exact(a: int, b: int)
    requires
        exact_div(a, b),
    ensures
        a == b * quot(a, b),
{
    let ma = abs1(a);
    let mb = abs1(b);
    let q = ma / mb;
    vstd::arithmetic::div_mod::lemma_fundamental_div_mod(ma, mb);
    assert(ma == mb * q);
    if a >= 0 && b > 0 {
    } else if a < 0 && b < 0 {
        assert(a == b * q) by (nonlinear_arith)
            requires
                -a == (-b) * q,
        ;
    } else if a >= 0 && b < 0 {
        assert(a == b * (-q)) by (nonlinear_arith)
            requires
                a == (-b) * q,
        ;
    } else {
        assert(a == b * (-q)) by (nonlinear_arith)
            requires
                -a == b * q,
        ;
    }
}

/// A (dividend, divisor) pair whose reduction cannot overflow: the one
/// quotient an `i32` cannot hold is `i32::MIN / -1`.
pub open spec fn new_ok(a: int, b: int) -> bool {
    in_i32(a) && in_i32(b) && !(a == i32::MIN && b == -1)
}

/// The reduce-if-exact normalization: an exact division becomes an
/// integer, anything else stays a deferred pair.
pub open spec fn spec_new(a: int, b: int) -> LazyCal {
    if exact_div(a, b) {
        LazyCal::Int(quot(a, b) as i32)
    } else {
        LazyCal::Lazy((a as i32, b as i32))
    }
}

/// The integer a value forces to: the exact quotient where one exists,
/// otherwise the defined fallback of zero.
pub open spec fn spec_calc(v: LazyCal) -> int {
    match v {
        LazyCal::Int(i) => i as int,
        LazyCal::Lazy((a, b)) => if exact_div(a as int, b as int) {
            quot(a as int, b as int)
        } else {
            0
        },
    }
}

/// Whether forcing a value cannot overflow.
pub open spec fn calc_ok(v: LazyCal) -> bool {
    match v {
        LazyCal::Int(_) => true,
        LazyCal::Lazy((a, b)) => !(a == i32::MIN && b == -1),
    }
}

/// The magnitude of an `i32`, as a `u32`.
fn mag(x: i32) -> (r: u32)
    ensures
        r as int == abs1(x as int),
{
    if x >= 0 {
        x as u32
    } else {
        (-(x as i64)) as u32
    }
}

/// Whether `b` divides `a` exactly.
fn exact_div_exec(a: i32, b: i32) -> (r: bool)
    ensures
        r == exact_div(a as int, b as int),
{
    if b == 0 {
        false
    } else {
        let ma = mag(a);
        let mb = mag(b);
        ma % mb == 0
    }
}

/// The exact quotient of `a` by `b`.
fn quot_exec(a: i32, b: i32) -> (r: i32)
    requires
        exact_div(a as int, b as int),
        !(a == i32::MIN && b == -1),
    ensures
        r as int == quot(a as int, b as int),
{
    let ma = mag(a);
    let mb = mag(b);
    let q = ma / mb;
    proof {
        vstd::arithmetic::div_mod::lemma_div_nonincreasing(ma as int, mb as int);
        vstd::arithmetic::div_mod::lemma_div_pos_is_pos(ma as int, mb as int);
    }
    if (a < 0) == (b < 0) {
        proof {
            if ma == 0x80000000u32 {
                // `a` is the least integer and `b` is negative but not -1,
                // so the magnitude of `b` is at least 2.
                vstd::arithmetic::div_mod::lemma_div_is_ordered_by_denominator(
                    ma as int,
                    2,
                    mb as int,
                );
            }
        }
        q as i32
    } else {
        (-(q as i64)) as i32
    }
}

impl LazyCal {
    /// Reduces to an integer at once when the division is exact, and
    /// stays a deferred pair otherwise.
    pub fn new(dividend: i32, divisor: i32) -> (r: Self)
        requires
            new_ok(dividend as int, divisor as int),
        ensures
            r == spec_new(dividend as int, divisor as int),
    {
        if exact_div_exec(dividend, divisor) {
            LazyCal::Int(quot_exec(dividend, divisor))
        } else {
            LazyCal::Lazy((dividend, divisor))
        }
    }

    /// A deferred pair, kept unreduced.
    pub fn lazy(dividend: i32, divisor: i32) -> (r: Self)
        ensures
            r == LazyCal::Lazy((dividend, divisor)),
    {
        LazyCal::Lazy((dividend, divisor))
    }

    /// Forces a final integer: the value itself when already resolved,
    /// the exact quotient when one exists, and zero otherwise.
    pub fn calculate(&self) -> (r: i32)
        requires
            calc_ok(*self),
        ensures
            r as int == spec_calc(*self),
    {
        match self {
            LazyCal::Int(i) => *i,
            LazyCal::Lazy((dividend, divisor)) => {
                if exact_div_exec(*dividend, *divisor) {
                    quot_exec(*dividend, *divisor)
                } else {
                    0
                }
            },
        }
    }
}

/// When adding an integer to a value cannot overflow.
pub open spec fn add_int_ok(v: LazyCal, rhs: int) -> bool {
    match v {
        LazyCal::Int(i) => in_i32(i + rhs),
        LazyCal::Lazy((a, b)) => in_i32(b * rhs) && in_i32(a + b * rhs) && new_ok(
            a + b * rhs,
            b as int,
        ),
    }
}

/// A value plus an integer: `a/b + n == (a + b n)/b`, re-normalized.
pub open spec fn spec_add_int(v: LazyCal, rhs: int) -> LazyCal {
    match v {
        LazyCal::Int(i) => LazyCal::Int((i + rhs) as i32),
        LazyCal::Lazy((a, b)) => spec_new(a + b * rhs, b as int),
    }
}

/// When adding two values cannot overflow.
pub open spec fn add_ok(v: LazyCal, w: LazyCal) -> bool {
    match (v, w) {
        (LazyCal::Int(i), _) => add_int_ok(w, i as int),
        (LazyCal::Lazy(_), LazyCal::Int(j)) => add_int_ok(v, j as int),
        (LazyCal::Lazy((a, b)), LazyCal::Lazy((c, d))) => in_i32(a * d) && in_i32(b * c)
            && in_i32(a * d + b * c) && in_i32(b * d) && new_ok(a * d + b * c, b * d),
    }
}

/// The sum of two values: `a/b + c/d == (a d + b c)/(b d)`, re-normalized.
pub open spec fn spec_add(v: LazyCal, w: LazyCal) -> LazyCal {
    match (v, w) {
        (LazyCal::Int(i), _) => spec_add_int(w, i as int),
        (LazyCal::Lazy(_), LazyCal::Int(j)) => spec_add_int(v, j as int),
        (LazyCal::Lazy((a, b)), LazyCal::Lazy((c, d))) => spec_new(a * d + b * c, b * d),
    }
}

/// When subtracting an integer from a value cannot overflow.
pub open spec fn sub_int_ok(v: LazyCal, rhs: int) -> bool {
    match v {
        LazyCal::Int(i) => in_i32(i - rhs),
        LazyCal::Lazy((a, b)) => in_i32(b * rhs) && in_i32(a - b * rhs) && new_ok(
            a - b * rhs,
            b as int,
        ),
    }
}

/// A value minus an integer: `a/b - n == (a - b n)/b`, re-normalized.
pub open spec fn spec_sub_int(v: LazyCal, rhs: int) -> LazyCal {
    match v {
        LazyCal::Int(i) => LazyCal::Int((i - rhs) as i32),
        LazyCal::Lazy((a, b)) => spec_new(a - b * rhs, b as int),
    }
}

/// When subtracting a value from an integer cannot overflow.
pub open spec fn int_sub_ok(lhs: int, v: LazyCal) -> bool {
    match v {
        LazyCal::Int(i) => in_i32(lhs - i),
        LazyCal::Lazy((a, b)) => in_i32(b * lhs) && in_i32(b * lhs - a) && new_ok(
            b * lhs - a,
            b as int,
        ),
    }
}

/// An integer minus a value: `n - a/b == (b n - a)/b`, re-normalized.
pub open spec fn spec_int_sub(lhs: int, v: LazyCal) -> LazyCal {
    match v {
        LazyCal::Int(i) => LazyCal::Int((lhs - i) as i32),
        LazyCal::Lazy((a, b)) => spec_new(b * lhs - a, b as int),
    }
}

/// When subtracting two values cannot overflow.
pub open spec fn sub_ok(v: LazyCal, w: LazyCal) -> bool {
    match (v, w) {
        (LazyCal::Int(i), _) => int_sub_ok(i as int, w),
        (LazyCal::Lazy(_), LazyCal::Int(j)) => sub_int_ok(v, j as int),
        (LazyCal::Lazy((a, b)), LazyCal::Lazy((c, d))) => in_i32(a * d) && in_i32(b * c)
            && in_i32(a * d - b * c) && in_i32(b * d) && new_ok(a * d - b * c, b * d),
    }
}

/// The difference of two values: `a/b - c/d == (a d - b c)/(b d)`.
pub open spec fn spec_sub(v: LazyCal, w: LazyCal) -> LazyCal {
    match (v, w) {
        (LazyCal::Int(i), _) => spec_int_sub(i as int, w),
        (LazyCal::Lazy(_), LazyCal::Int(j)) => spec_sub_int(v, j as int),
        (LazyCal::Lazy((a, b)), LazyCal::Lazy((c, d))) => spec_new(a * d - b * c, b * d),
    }
}

/// When multiplying a value by an integer cannot overflow.
pub open spec fn mul_int_ok(v: LazyCal, rhs: int) -> bool {
    match v {
        LazyCal::Int(i) => in_i32(i * rhs),
        LazyCal::Lazy((a, b)) => in_i32(a * rhs) && new_ok(a * rhs, b as int),
    }
}

/// A value times an integer: `a/b * n == (a n)/b`, re-normalized.
pub open spec fn spec_mul_int(v: LazyCal, rhs: int) -> LazyCal {
    match v {
        LazyCal::Int(i) => LazyCal::Int((i * rhs) as i32),
        LazyCal::Lazy((a, b)) => spec_new(a * rhs, b as int),
    }
}

/// When multiplying two values cannot overflow.
pub open spec fn mul_ok(v: LazyCal, w: LazyCal) -> bool {
    match (v, w) {
        (LazyCal::Int(i), _) => mul_int_ok(w, i as int),
        (LazyCal::Lazy(_), LazyCal::Int(j)) => mul_int_ok(v, j as int),
        (LazyCal::Lazy((a, b)), LazyCal::Lazy((c, d))) => new_ok(a * c, b * d),
    }
}

/// The product of two values: `a/b * c/d == (a c)/(b d)`, re-normalized
/// through the reduce-if-exact rule like every other operation.
pub open spec fn spec_mul(v: LazyCal, w: LazyCal) -> LazyCal {
    match (v, w) {
        (LazyCal::Int(i), _) => spec_mul_int(w, i as int),
        (LazyCal::Lazy(_), LazyCal::Int(j)) => spec_mul_int(v, j as int),
        (LazyCal::Lazy((a, b)), LazyCal::Lazy((c, d))) => spec_new(a * c, b * d),
    }
}

/// When dividing a value by an integer cannot overflow.
pub open spec fn div_int_ok(v: LazyCal, rhs: int) -> bool {
    match v {
        LazyCal::Int(i) => new_ok(i as int, rhs),
        LazyCal::Lazy((a, b)) => if exact_div(a as int, rhs) {
            !(a == i32::MIN && rhs == -1) && new_ok(quot(a as int, rhs), b as int)
        } else {
            in_i32(b * rhs) && new_ok(a as int, b * rhs)
        },
    }
}

/// A value divided by an integer: the dividend is reduced when the
/// division is exact, and the divisor grows otherwise; either way the
/// result is re-normalized through the reduce-if-exact rule.
pub open spec fn spec_div_int(v: LazyCal, rhs: int) -> LazyCal {
    match v {
        LazyCal::Int(i) => spec_new(i as int, rhs),
        LazyCal::Lazy((a, b)) => if exact_div(a as int, rhs) {
            spec_new(quot(a as int, rhs), b as int)
        } else {
            spec_new(a as int, b * rhs)
        },
    }
}

/// When dividing an integer by a value cannot overflow.
pub open spec fn int_div_ok(lhs: int, v: LazyCal) -> bool {
    match v {
        LazyCal::Int(i) => new_ok(lhs, i as int),
        LazyCal::Lazy((a, b)) => in_i32(lhs * b) && new_ok(lhs * b, a as int),
    }
}

/// An integer divided by a value: `n / (a/b) == (n b)/a`, re-normalized.
pub open spec fn spec_int_div(lhs: int, v: LazyCal) -> LazyCal {
    match v {
        LazyCal::Int(i) => spec_new(lhs, i as int),
        LazyCal::Lazy((a, b)) => spec_new(lhs * b, a as int),
    }
}

/// When dividing two values cannot overflow.
pub open spec fn div_ok(v: LazyCal, w: LazyCal) -> bool {
    match (v, w) {
        (LazyCal::Int(i), _) => int_div_ok(i as int, w),
        (LazyCal::Lazy(_), LazyCal::Int(j)) => div_int_ok(v, j as int),
        (LazyCal::Lazy((a, b)), LazyCal::Lazy((c, d))) => in_i32(a * d) && in_i32(b * c)
            && new_ok(a * d, b * c),
    }
}

/// The quotient of two values: division multiplies by the reciprocal,
/// `(a/b) / (c/d) == (a d)/(b c)`, re-normalized.
pub open spec fn spec_div(v: LazyCal, w: LazyCal) -> LazyCal {
    match (v, w) {
        (LazyCal::Int(i), _) => spec_int_div(i as int, w),
        (LazyCal::Lazy(_), LazyCal::Int(j)) => spec_div_int(v, j as int),
        (LazyCal::Lazy((a, b)), LazyCal::Lazy((c, d))) => spec_new(a * d, b * c),
    }
}

impl LazyCal {
    /// This value plus a plain integer.
    pub fn add_int(self, rhs: i32) -> (r: LazyCal)
        requires
            add_int_ok(self, rhs as int),
        ensures
            r == spec_add_int(self, rhs as int),
    {
        match self {
            LazyCal::Int(i) => LazyCal::Int(i + rhs),
            LazyCal::Lazy((a, b)) => LazyCal::new(a + b * rhs, b),
        }
    }

    /// A plain integer plus a value.
    pub fn int_add(lhs: i32, rhs: LazyCal) -> (r: LazyCal)
        requires
            add_int_ok(rhs, lhs as int),
        ensures
            r == spec_add_int(rhs, lhs as int),
    {
        match rhs {
            LazyCal::Int(i) => LazyCal::Int(i + lhs),
            LazyCal::Lazy((a, b)) => LazyCal::new(a + b * lhs, b),
        }
    }

    /// This value plus another value.
    pub fn add_cal(self, rhs: LazyCal) -> (r: LazyCal)
        requires
            add_ok(self, rhs),
        ensures
            r == spec_add(self, rhs),
    {
        match self {
            LazyCal::Int(i) => Self::int_add(i, rhs),
            LazyCal::Lazy((ld1, ld2)) => match rhs {
                LazyCal::Int(i) => self.add_int(i),
                LazyCal::Lazy((rd1, rd2)) => LazyCal::new(ld1 * rd2 + ld2 * rd1, ld2 * rd2),
            },
        }
    }

    /// This value minus a plain integer.
    pub fn sub_int(self, rhs: i32) -> (r: LazyCal)
        requires
            sub_int_ok(self, rhs as int),
        ensures
            r == spec_sub_int(self, rhs as int),
    {
        match self {
            LazyCal::Int(i) => LazyCal::Int(i - rhs),
            LazyCal::Lazy((a, b)) => LazyCal::new(a - b * rhs, b),
        }
    }

    /// A plain integer minus a value.
    pub fn int_sub(lhs: i32, rhs: LazyCal) -> (r: LazyCal)
        requires
            int_sub_ok(lhs as int, rhs),
        ensures
            r == spec_int_sub(lhs as int, rhs),
    {
        match rhs {
            LazyCal::Int(i) => LazyCal::Int(lhs - i),
            LazyCal::Lazy((a, b)) => LazyCal::new(b * lhs - a, b),
        }
    }

    /// This value minus another value.
    pub fn sub_cal(self, rhs: LazyCal) -> (r: LazyCal)
        requires
            sub_ok(self, rhs),
        ensures
            r == spec_sub(self, rhs),
    {
        match self {
            LazyCal::Int(i) => Self::int_sub(i, rhs),
            LazyCal::Lazy((ld1, ld2)) => match rhs {
                LazyCal::Int(i) => self.sub_int(i),
                LazyCal::Lazy((rd1, rd2)) => LazyCal::new(ld1 * rd2 - ld2 * rd1, ld2 * rd2),
            },
        }
    }

    /// This value times a plain integer.
    pub fn mul_int(self, rhs: i32) -> (r: LazyCal)
        requires
            mul_int_ok(self, rhs as int),
        ensures
            r == spec_mul_int(self, rhs as int),
    {
        match self {
            LazyCal::Int(i) => LazyCal::Int(i * rhs),
            LazyCal::Lazy((a, b)) => LazyCal::new(a * rhs, b),
        }
    }

    /// A plain integer times a value.
    pub fn int_mul(lhs: i32, rhs: LazyCal) -> (r: LazyCal)
        requires
            mul_int_ok(rhs, lhs as int),
        ensures
            r == spec_mul_int(rhs, lhs as int),
    {
        match rhs {
            LazyCal::Int(i) => LazyCal::Int(i * lhs),
            LazyCal::Lazy((a, b)) => LazyCal::new(a * lhs, b),
        }
    }

    /// This value times another value.
    pub fn mul_cal(self, rhs: LazyCal) -> (r: LazyCal)
        requires
            mul_ok(self, rhs),
        ensures
            r == spec_mul(self, rhs),
    {
        match self {
            LazyCal::Int(i) => Self::int_mul(i, rhs),
            LazyCal::Lazy((ld1, ld2)) => match rhs {
                LazyCal::Int(i) => self.mul_int(i),
                LazyCal::Lazy((rd1, rd2)) => LazyCal::new(ld1 * rd1, ld2 * rd2),
            },
        }
    }

    /// This value divided by a plain integer.
    pub fn div_int(self, rhs: i32) -> (r: LazyCal)
        requires
            div_int_ok(self, rhs as int),
        ensures
            r == spec_div_int(self, rhs as int),
    {
        match self {
            LazyCal::Int(i) => LazyCal::new(i, rhs),
            LazyCal::Lazy((a, b)) => {
                if exact_div_exec(a, rhs) {
                    LazyCal::new(quot_exec(a, rhs), b)
                } else {
                    LazyCal::new(a, b * rhs)
                }
            },
        }
    }

    /// A plain integer divided by a value.
    pub fn int_div(lhs: i32, rhs: LazyCal) -> (r: LazyCal)
        requires
            int_div_ok(lhs as int, rhs),
        ensures
            r == spec_int_div(lhs as int, rhs),
    {
        match rhs {
            LazyCal::Int(i) => LazyCal::new(lhs, i),
            LazyCal::Lazy((a, b)) => LazyCal::new(lhs * b, a),
        }
    }

    /// This value divided by another value.
    pub fn div_cal(self, rhs: LazyCal) -> (r: LazyCal)
        requires
            div_ok(self, rhs),
        ensures
            r == spec_div(self, rhs),
    {
        match self {
            LazyCal::Int(i) => Self::int_div(i, rhs),
            LazyCal::Lazy((ld1, ld2)) => match rhs {
                LazyCal::Int(i) => self.div_int(i),
                LazyCal::Lazy((rd1, rd2)) => LazyCal::new(ld1 * rd2, ld2 * rd1),
            },
        }
    }
}

} // verus!
