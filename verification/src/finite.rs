//! Numbers as a machine holds them: `None` stands for one that is too great to be held, or for
//! none at all, and so does all that is computed from it.

use crate::double::Double;
use vstd::prelude::*;

verus! {

/// A number that a machine holds: what is too great is none, and what is too small is zero.
#[verifier::opaque]
pub open spec fn settled(d: Double) -> Option<Double> {
    if d.mantissa != 0 && d.exponent > 971 {
        None
    } else if d.mantissa != 0 && d.exponent < -1130 {
        Some(Double::spec_zero())
    } else {
        Some(d)
    }
}

/// The number is held, or there is none.
pub open spec fn held(a: Option<Double>) -> bool {
    a matches Some(d) ==> d.wf() && d.within(1200)
}

/// A number that a machine holds.
pub fn settle(d: Double) -> (r: Option<Double>)
    requires
        d.wf(),
    ensures
        r == settled(d),
        held(r),
{
    proof {
        reveal(settled);
    }
    if d.mantissa != 0 && d.exponent > 971 {
        None
    } else if d.mantissa != 0 && d.exponent < -1130 {
        Some(Double { negative: false, mantissa: 0, exponent: 0 })
    } else {
        Some(d)
    }
}

#[verifier::opaque]
pub open spec fn sum(a: Option<Double>, b: Option<Double>) -> Option<Double> {
    match (a, b) {
        (Some(x), Some(y)) => settled(x.spec_sum(y)),
        _ => None,
    }
}

pub fn add_up(a: Option<Double>, b: Option<Double>) -> (r: Option<Double>)
    requires
        held(a),
        held(b),
    ensures
        r == sum(a, b),
        held(r),
{
    proof {
        reveal(sum);
    }
    match (a, b) {
        (Some(x), Some(y)) => settle(x.plus(y)),
        _ => None,
    }
}

#[verifier::opaque]
pub open spec fn difference(a: Option<Double>, b: Option<Double>) -> Option<Double> {
    match (a, b) {
        (Some(x), Some(y)) => settled(x.spec_difference(y)),
        _ => None,
    }
}

pub fn take_off(a: Option<Double>, b: Option<Double>) -> (r: Option<Double>)
    requires
        held(a),
        held(b),
    ensures
        r == difference(a, b),
        held(r),
{
    proof {
        reveal(difference);
    }
    match (a, b) {
        (Some(x), Some(y)) => settle(x.minus(y)),
        _ => None,
    }
}

#[verifier::opaque]
pub open spec fn product(a: Option<Double>, b: Option<Double>) -> Option<Double> {
    match (a, b) {
        (Some(x), Some(y)) => settled(x.spec_product(y)),
        _ => None,
    }
}

pub fn multiply(a: Option<Double>, b: Option<Double>) -> (r: Option<Double>)
    requires
        held(a),
        held(b),
    ensures
        r == product(a, b),
        held(r),
{
    proof {
        reveal(product);
    }
    match (a, b) {
        (Some(x), Some(y)) => settle(x.times(y)),
        _ => None,
    }
}

/// The quotient; none by zero.
#[verifier::opaque]
pub open spec fn quotient(a: Option<Double>, b: Option<Double>) -> Option<Double> {
    match (a, b) {
        (Some(x), Some(y)) => if y.mantissa == 0 {
            None
        } else {
            settled(x.spec_quotient(y))
        },
        _ => None,
    }
}

/// The quotient; none by zero.
pub fn divide(a: Option<Double>, b: Option<Double>) -> (r: Option<Double>)
    requires
        held(a),
        held(b),
    ensures
        r == quotient(a, b),
        held(r),
{
    proof {
        reveal(quotient);
    }
    match (a, b) {
        (Some(x), Some(y)) => if y.mantissa == 0 {
            None
        } else {
            settle(x.divided_by(y))
        },
        _ => None,
    }
}

/// The square root; none of a number below zero.
#[verifier::opaque]
pub open spec fn root(a: Option<Double>) -> Option<Double> {
    match a {
        Some(x) => if x.negative {
            None
        } else {
            settled(x.spec_root())
        },
        None => None,
    }
}

/// The square root; none of a number below zero.
pub fn find_root(a: Option<Double>) -> (r: Option<Double>)
    requires
        held(a),
    ensures
        r == root(a),
        held(r),
{
    proof {
        reveal(root);
    }
    match a {
        Some(x) => if x.negative {
            None
        } else {
            settle(x.root())
        },
        None => None,
    }
}

pub open spec fn square(a: Option<Double>) -> Option<Double> {
    product(a, a)
}

pub fn find_square(a: Option<Double>) -> (r: Option<Double>)
    requires
        held(a),
    ensures
        r == square(a),
        held(r),
{
    multiply(a, a)
}

/// The greatest whole number that is not above.
#[verifier::opaque]
pub open spec fn floor(a: Option<Double>) -> Option<Double> {
    match a {
        Some(x) => Some(x.spec_floor()),
        None => None,
    }
}

/// The greatest whole number that is not above.
pub fn find_floor(a: Option<Double>) -> (r: Option<Double>)
    requires
        held(a),
    ensures
        r == floor(a),
        held(r),
{
    proof {
        reveal(floor);
    }
    match a {
        Some(x) => Some(x.floored()),
        None => None,
    }
}

/// The number is zero.
pub open spec fn is_zero(a: Option<Double>) -> bool {
    a matches Some(x) && x.mantissa == 0
}

pub fn vanishes(a: Option<Double>) -> (r: bool)
    ensures
        r == is_zero(a),
{
    match a {
        Some(x) => x.mantissa == 0,
        None => false,
    }
}

/// Both are numbers, and the same.
pub open spec fn equal(a: Option<Double>, b: Option<Double>) -> bool {
    match (a, b) {
        (Some(x), Some(y)) => x == y,
        _ => false,
    }
}

pub fn agree(a: Option<Double>, b: Option<Double>) -> (r: bool)
    ensures
        r == equal(a, b),
{
    match (a, b) {
        (Some(x), Some(y)) => x == y,
        _ => false,
    }
}

/// Both are numbers, and the distance between the first two is less than the third.
pub open spec fn nearer(a: Option<Double>, b: Option<Double>, d: Option<Double>) -> bool {
    match (difference(a, b), d) {
        (Some(x), Some(y)) => x.spec_abs().spec_less(y),
        _ => false,
    }
}

pub fn is_nearer(a: Option<Double>, b: Option<Double>, d: Option<Double>) -> (r: bool)
    requires
        held(a),
        held(b),
        held(d),
    ensures
        r == nearer(a, b, d),
{
    match (take_off(a, b), d) {
        (Some(x), Some(y)) => x.abs().less(y),
        _ => false,
    }
}

} // verus!
