use twentyfour::lazycal::LazyCal;

#[test]
fn new_reduces_exact_divisions() {
    assert_eq!(LazyCal::new(6, 3), LazyCal::Int(2));
    assert_eq!(LazyCal::new(-6, 3), LazyCal::Int(-2));
    assert_eq!(LazyCal::new(6, -3), LazyCal::Int(-2));
    assert_eq!(LazyCal::new(-6, -3), LazyCal::Int(2));
    assert_eq!(LazyCal::new(7, 7), LazyCal::Int(1));
}

#[test]
fn new_defers_inexact_divisions() {
    assert_eq!(LazyCal::new(1, 3), LazyCal::Lazy((1, 3)));
    assert_eq!(LazyCal::new(5, 0), LazyCal::Lazy((5, 0)));
    assert_eq!(LazyCal::lazy(4, 2), LazyCal::Lazy((4, 2)));
}

#[test]
fn calculate_forces_an_integer() {
    assert_eq!(LazyCal::Int(24).calculate(), 24);
    assert_eq!(LazyCal::lazy(4, 2).calculate(), 2);
    assert_eq!(LazyCal::lazy(1, 3).calculate(), 0);
    assert_eq!(LazyCal::lazy(1, 0).calculate(), 0);
}

#[test]
fn fraction_algebra_stays_exact() {
    // (13 - 7/7) x 2 == 24, with the division kept exact throughout.
    let seventh = LazyCal::new(7, 7);
    assert_eq!(seventh, LazyCal::Int(1));
    let twelve = LazyCal::int_sub(13, seventh);
    assert_eq!(twelve, LazyCal::Int(12));
    assert_eq!(twelve.mul_int(2).calculate(), 24);

    // 1/3 + 1/6 == 1/2, still deferred; doubling it resolves to 1.
    let third = LazyCal::new(1, 3);
    let sixth = LazyCal::new(1, 6);
    let half = third.add_cal(sixth);
    assert_eq!(half.mul_int(2).calculate(), 1);

    // 1/3 - 1/6 == 1/6, and 1/6 of 6 is 1.
    let rest = third.sub_cal(sixth);
    assert_eq!(LazyCal::int_mul(6, rest).calculate(), 1);

    // (1/3) / (1/6) == 2 resolves immediately.
    assert_eq!(third.div_cal(sixth), LazyCal::Int(2));

    // (1/3) x (1/2) stays the deferred product 1/6.
    let product = third.mul_cal(LazyCal::new(1, 2));
    assert_eq!(product, LazyCal::Lazy((1, 6)));
}

#[test]
fn mixed_integer_operands_work_on_both_sides() {
    let third = LazyCal::new(1, 3);
    assert_eq!(third.add_int(1), LazyCal::Lazy((4, 3)));
    assert_eq!(LazyCal::int_add(1, third), LazyCal::Lazy((4, 3)));
    assert_eq!(third.sub_int(1), LazyCal::Lazy((-2, 3)));
    assert_eq!(LazyCal::int_sub(1, third), LazyCal::Lazy((2, 3)));
    assert_eq!(third.mul_int(3), LazyCal::Int(1));
    assert_eq!(LazyCal::int_mul(3, third), LazyCal::Int(1));
    assert_eq!(third.div_int(2), LazyCal::Lazy((1, 6)));
    assert_eq!(LazyCal::int_div(2, third), LazyCal::Int(6));
    assert_eq!(LazyCal::Int(7).add_int(5), LazyCal::Int(12));
    assert_eq!(LazyCal::Int(7).sub_int(5), LazyCal::Int(2));
    assert_eq!(LazyCal::Int(7).mul_int(5), LazyCal::Int(35));
    assert_eq!(LazyCal::Int(7).div_int(5), LazyCal::Lazy((7, 5)));
    assert_eq!(LazyCal::Int(10).div_int(5), LazyCal::Int(2));
}

#[test]
fn every_operation_renormalizes() {
    // A product of two deferred pairs that is an exact integer resolves.
    let half = LazyCal::lazy(1, 2);
    let two = LazyCal::lazy(2, 1);
    assert_eq!(half.mul_cal(two), LazyCal::Int(1));
    // So does an exact division of a deferred pair by an integer.
    assert_eq!(LazyCal::lazy(4, 1).div_int(2), LazyCal::Int(2));
    assert_eq!(LazyCal::lazy(6, 3).div_int(1), LazyCal::Int(2));
}

#[test]
fn division_reduces_dividend_when_exact() {
    // 4/6 divided by 2 reduces the dividend: 2/6.
    assert_eq!(LazyCal::lazy(4, 6).div_int(2), LazyCal::Lazy((2, 6)));
    // 1/3 divided by 2 grows the divisor: 1/6.
    assert_eq!(LazyCal::lazy(1, 3).div_int(2), LazyCal::Lazy((1, 6)));
}
