//! The expression evaluator: reduces a postfix candidate with a single
//! stack of exact fractions, so that the test against 24 is exact.
//!
//! A fraction is kept as an unreduced (numerator, denominator) pair of
//! `i64` values; the four operators combine pairs by the usual fraction
//! algebra.  A step whose numerator or denominator would leave the `i64`
//! range makes the whole evaluation come out as `None`, which no caller
//! treats as a solution; with the small numbers of an ordinary game that
//! bail is unreachable, and it exists only so the evaluator is total
//! over every `i32` input.  Division by zero leaves a pair with a zero
//! denominator, which is never equal to 24.

use vstd::prelude::*;

use crate::arith::{Arithmetic, Operation};

verus! {

/// An exact, unreduced fraction.
#[derive(Clone, Copy, Debug, PartialEq, Eq, Structural)]
pub struct Frac {
    pub num: i64,
    pub den: i64,
}

/// The fraction with the given numerator and denominator, if both fit `i64`.
pub open spec fn spec_combine(n: int, d: int) -> Option<Frac> {
    if i64::MIN <= n <= i64::MAX && i64::MIN <= d <= i64::MAX {
        Some(Frac { num: n as i64, den: d as i64 })
    } else {
        None
    }
}

/// One operator applied to two fractions, `a OP b`, by fraction algebra.
pub open spec fn spec_apply(o: Operation, a: Frac, b: Frac) -> Option<Frac> {
    match o {
        Operation::Add => spec_combine(a.num * b.den + a.den * b.num, a.den * b.den),
        Operation::Sub => spec_combine(a.num * b.den - a.den * b.num, a.den * b.den),
        Operation::Mul => spec_combine(a.num * b.num, a.den * b.den),
        Operation::Div => spec_combine(a.num * b.den, a.den * b.num),
    }
}

/// One token applied to an evaluation stack; `None` on stack underflow or
/// on a value out of range.
pub open spec fn spec_step(st: Seq<Frac>, a: Arithmetic) -> Option<Seq<Frac>> {
    match a {
        Arithmetic::Num(v) => Some(st.push(Frac { num: v as i64, den: 1 })),
        Arithmetic::Op(o) => {
            if st.len() < 2 {
                None
            } else {
                match spec_apply(o, st[st.len() - 2], st[st.len() - 1]) {
                    Some(f) => Some(st.take(st.len() - 2).push(f)),
                    None => None,
                }
            }
        },
    }
}

/// The evaluation stack left by a token sequence, from an empty stack.
pub open spec fn spec_eval_stack(s: Seq<Arithmetic>) -> Option<Seq<Frac>>
    decreases s.len(),
{
    if s.len() == 0 {
        Some(Seq::empty())
    } else {
        match spec_eval_stack(s.drop_last()) {
            Some(st) => spec_step(st, s.last()),
            None => None,
        }
    }
}

/// The value of a postfix candidate: the single fraction its reduction
/// leaves, or `None` if the reduction underflows, leaves more than one
/// value, or steps out of the `i64` range.
pub open spec fn spec_calculate(s: Seq<Arithmetic>) -> Option<Frac> {
    match spec_eval_stack(s) {
        Some(st) => if st.len() == 1 {
            Some(st[0])
        } else {
            None
        },
        None => None,
    }
}

/// A candidate that evaluates to exactly 24.
pub open spec fn is_solution(s: Seq<Arithmetic>) -> bool {
    match spec_calculate(s) {
        Some(f) => f.den != 0 && f.num == 24 * f.den,
        None => false,
    }
}

/// Once a prefix fails to evaluate, every extension fails too.
proof fn lemma_eval_none_extends(s: Seq<Arithmetic>, i: int)
    requires
        0 <= i <= s.len(),
        spec_eval_stack(s.take(i)) is None,
    ensures
        spec_eval_stack(s) is None,
    decreases s.len() - i,
{
    if i < s.len() {
        assert(s.take(i + 1).drop_last() =~= s.take(i));
        lemma_eval_none_extends(s, i + 1);
    } else {
        assert(s.take(i) =~= s);
    }
}

/// The product of two `i64` values fits `i128`.
proof fn lemma_i64_mul_fits(a: int, b: int)
    requires
        i64::MIN <= a <= i64::MAX,
        i64::MIN <= b <= i64::MAX,
    ensures
        -0x40000000000000000000000000000000 <= a * b <= 0x40000000000000000000000000000000,
{
    assert(-0x40000000000000000000000000000000 <= a * b
        <= 0x40000000000000000000000000000000) by (nonlinear_arith)
        requires
            -0x8000000000000000 <= a <= 0x7fffffffffffffff,
            -0x8000000000000000 <= b <= 0x7fffffffffffffff,
    ;
}

impl Frac {
    /// The fraction standing for a whole number.
    pub fn whole(v: i64) -> (r: Frac)
        ensures
            r == (Frac { num: v, den: 1i64 }),
    {
        Frac { num: v, den: 1 }
    }

    /// Whether this fraction is exactly the integer `n`.
    pub fn equals_int(&self, n: i64) -> (r: bool)
        ensures
            r == (self.den != 0 && self.num == n * self.den),
    {
        proof {
            lemma_i64_mul_fits(n as int, self.den as int);
        }
        self.den != 0 && (self.num as i128) == (n as i128) * (self.den as i128)
    }
}

/// The fraction with the given numerator and denominator, if both fit `i64`.
fn combine(n: i128, d: i128) -> (r: Option<Frac>)
    ensures
        r == spec_combine(n as int, d as int),
{
    if i64::MIN as i128 <= n && n <= i64::MAX as i128 && i64::MIN as i128 <= d && d
        <= i64::MAX as i128 {
        Some(Frac { num: n as i64, den: d as i64 })
    } else {
        None
    }
}

/// One operator applied to two fractions.
fn apply(o: Operation, a: Frac, b: Frac) -> (r: Option<Frac>)
    ensures
        r == spec_apply(o, a, b),
{
    proof {
        lemma_i64_mul_fits(a.num as int, b.den as int);
        lemma_i64_mul_fits(a.den as int, b.num as int);
        lemma_i64_mul_fits(a.num as int, b.num as int);
        lemma_i64_mul_fits(a.den as int, b.den as int);
    }
    match o {
        Operation::Add => {
            let p1 = (a.num as i128) * (b.den as i128);
            let p2 = (a.den as i128) * (b.num as i128);
            match p1.checked_add(p2) {
                Some(n) => combine(n, (a.den as i128) * (b.den as i128)),
                None => None,
            }
        },
        Operation::Sub => {
            let p1 = (a.num as i128) * (b.den as i128);
            let p2 = (a.den as i128) * (b.num as i128);
            match p1.checked_sub(p2) {
                Some(n) => combine(n, (a.den as i128) * (b.den as i128)),
                None => None,
            }
        },
        Operation::Mul => combine(
            (a.num as i128) * (b.num as i128),
            (a.den as i128) * (b.den as i128),
        ),
        Operation::Div => combine(
            (a.num as i128) * (b.den as i128),
            (a.den as i128) * (b.num as i128),
        ),
    }
}

/// Evaluates a postfix candidate to its exact value, or `None` if the
/// candidate is malformed or a step leaves the `i64` range.
pub fn calculate(rpn: &[Arithmetic; 7]) -> (r: Option<Frac>)
    ensures
        r == spec_calculate(rpn@),
{
    let mut stack: Vec<Frac> = Vec::new();
    let mut i: usize = 0;
    while i < 7
        invariant
            0 <= i <= 7,
            rpn@.len() == 7,
            spec_eval_stack(rpn@.take(i as int)) == Some(stack@),
        decreases 7 - i,
    {
        proof {
            assert(rpn@.take(i + 1).drop_last() =~= rpn@.take(i as int));
            assert(rpn@.take(i + 1).last() == rpn@[i as int]);
        }
        match rpn[i] {
            Arithmetic::Num(v) => {
                stack.push(Frac { num: v as i64, den: 1 });
            },
            Arithmetic::Op(o) => {
                if stack.len() < 2 {
                    proof {
                        lemma_eval_none_extends(rpn@, i + 1);
                    }
                    return None;
                }
                let b = stack.pop().unwrap();
                let a = stack.pop().unwrap();
                match apply(o, a, b) {
                    Some(f) => {
                        stack.push(f);
                        proof {
                            assert(stack@ =~= spec_eval_stack(rpn@.take(i + 1)).unwrap());
                        }
                    },
                    None => {
                        proof {
                            lemma_eval_none_extends(rpn@, i + 1);
                        }
                        return None;
                    },
                }
            },
        }
        i += 1;
    }
    proof {
        assert(rpn@.take(7) =~= rpn@);
    }
    if stack.len() == 1 {
        let f = stack.pop().unwrap();
        Some(f)
    } else {
        None
    }
}

/// Whether a postfix candidate evaluates to exactly 24.
pub fn evaluates_to_24(rpn: &[Arithmetic; 7]) -> (r: bool)
    ensures
        r == is_solution(rpn@),
{
    match calculate(rpn) {
        Some(f) => f.equals_int(24),
        None => false,
    }
}

} // verus!
