//! The arithmetic that a bank computes with.
//!
//! A bank never looks inside a number: every sum, product, root and angle comes
//! from an implementation of [`Arithmetic`]. No method of the trait carries a
//! contract, so nothing is assumed of what an implementation returns. The
//! contracts of this library say which operation was applied to which operands
//! and where its outcome went, through the predicates below: `product(a, b, r)`
//! says that `r` is a value that `times(a, b)` may return, and so on.

use crate::number::{Binary32, Lanes};
use vstd::prelude::*;

verus! {

/// Single-precision operations, on one number and on four at a time.
pub trait Arithmetic {
    /// `a + b`.
    fn plus(a: Binary32, b: Binary32) -> Binary32;

    /// `a - b`.
    fn minus(a: Binary32, b: Binary32) -> Binary32;

    /// `a * b`.
    fn times(a: Binary32, b: Binary32) -> Binary32;

    /// `a / b`.
    fn over(a: Binary32, b: Binary32) -> Binary32;

    /// `a * b + c`, rounded once.
    fn mul_add(a: Binary32, b: Binary32, c: Binary32) -> Binary32;

    /// The square root of `a`.
    fn sqrt(a: Binary32) -> Binary32;

    /// The cosine of `a` radians.
    fn cos(a: Binary32) -> Binary32;

    /// The sine of `a` radians.
    fn sin(a: Binary32) -> Binary32;

    /// The angle of the point `(x, y)`, in radians.
    fn atan2(y: Binary32, x: Binary32) -> Binary32;

    /// `a + b` in each lane.
    fn plus_x4(a: Lanes, b: Lanes) -> Lanes;

    /// `a - b` in each lane.
    fn minus_x4(a: Lanes, b: Lanes) -> Lanes;

    /// `a * b` in each lane.
    fn times_x4(a: Lanes, b: Lanes) -> Lanes;

    /// `a * b + c` in each lane, rounded once or twice.
    fn mul_add_x4(a: Lanes, b: Lanes, c: Lanes) -> Lanes;

    /// A weight that suits a resonator tuned to `freq`.
    fn heuristic_alpha(freq: Binary32, sample_rate: Binary32) -> Binary32;
}

/// `r` is an outcome of `a + b`.
pub open spec fn sum<A: Arithmetic>(a: Binary32, b: Binary32, r: Binary32) -> bool {
    call_ensures(A::plus, (a, b), r)
}

/// `r` is an outcome of `a - b`.
pub open spec fn difference<A: Arithmetic>(a: Binary32, b: Binary32, r: Binary32) -> bool {
    call_ensures(A::minus, (a, b), r)
}

/// `r` is an outcome of `a * b`.
pub open spec fn product<A: Arithmetic>(a: Binary32, b: Binary32, r: Binary32) -> bool {
    call_ensures(A::times, (a, b), r)
}

/// `r` is an outcome of `a / b`.
pub open spec fn quotient<A: Arithmetic>(a: Binary32, b: Binary32, r: Binary32) -> bool {
    call_ensures(A::over, (a, b), r)
}

/// `r` is an outcome of `a * b + c`, rounded once.
pub open spec fn multiply_add<A: Arithmetic>(
    a: Binary32,
    b: Binary32,
    c: Binary32,
    r: Binary32,
) -> bool {
    call_ensures(A::mul_add, (a, b, c), r)
}

/// `r` is an outcome of the square root of `a`.
pub open spec fn square_root<A: Arithmetic>(a: Binary32, r: Binary32) -> bool {
    call_ensures(A::sqrt, (a,), r)
}

/// `r` is an outcome of the cosine of `a`.
pub open spec fn cosine<A: Arithmetic>(a: Binary32, r: Binary32) -> bool {
    call_ensures(A::cos, (a,), r)
}

/// `r` is an outcome of the sine of `a`.
pub open spec fn sine<A: Arithmetic>(a: Binary32, r: Binary32) -> bool {
    call_ensures(A::sin, (a,), r)
}

/// `r` is an outcome of the angle of the point `(x, y)`.
pub open spec fn direction<A: Arithmetic>(y: Binary32, x: Binary32, r: Binary32) -> bool {
    call_ensures(A::atan2, (y, x), r)
}

/// `r` is an outcome of `a + b` on four lanes.
pub open spec fn sum_x4<A: Arithmetic>(a: Lanes, b: Lanes, r: Lanes) -> bool {
    call_ensures(A::plus_x4, (a, b), r)
}

/// `r` is an outcome of `a - b` on four lanes.
pub open spec fn difference_x4<A: Arithmetic>(a: Lanes, b: Lanes, r: Lanes) -> bool {
    call_ensures(A::minus_x4, (a, b), r)
}

/// `r` is an outcome of `a * b` on four lanes.
pub open spec fn product_x4<A: Arithmetic>(a: Lanes, b: Lanes, r: Lanes) -> bool {
    call_ensures(A::times_x4, (a, b), r)
}

/// `r` is an outcome of `a * b + c` on four lanes.
pub open spec fn multiply_add_x4<A: Arithmetic>(a: Lanes, b: Lanes, c: Lanes, r: Lanes) -> bool {
    call_ensures(A::mul_add_x4, (a, b, c), r)
}

/// `r` is an outcome of the weight for `freq`.
pub open spec fn suggested_alpha<A: Arithmetic>(
    freq: Binary32,
    sample_rate: Binary32,
    r: Binary32,
) -> bool {
    call_ensures(A::heuristic_alpha, (freq, sample_rate), r)
}

/// No operation has two outcomes on the same operands. Of the machine's own
/// operations this holds as far as no outcome is a NaN, whose bits are open.
pub open spec fn repeatable<A: Arithmetic>() -> bool {
    &&& forall|a: Binary32, b: Binary32, r: Binary32, s: Binary32| #[trigger]
        sum::<A>(a, b, r) && #[trigger] sum::<A>(a, b, s) ==> r == s
    &&& forall|a: Binary32, b: Binary32, r: Binary32, s: Binary32| #[trigger]
        difference::<A>(a, b, r) && #[trigger] difference::<A>(a, b, s) ==> r == s
    &&& forall|a: Binary32, b: Binary32, r: Binary32, s: Binary32| #[trigger]
        product::<A>(a, b, r) && #[trigger] product::<A>(a, b, s) ==> r == s
    &&& forall|a: Binary32, b: Binary32, r: Binary32, s: Binary32| #[trigger]
        quotient::<A>(a, b, r) && #[trigger] quotient::<A>(a, b, s) ==> r == s
    &&& forall|a: Binary32, b: Binary32, c: Binary32, r: Binary32, s: Binary32| #[trigger]
        multiply_add::<A>(a, b, c, r) && #[trigger] multiply_add::<A>(a, b, c, s) ==> r == s
    &&& forall|a: Binary32, r: Binary32, s: Binary32| #[trigger]
        square_root::<A>(a, r) && #[trigger] square_root::<A>(a, s) ==> r == s
    &&& forall|a: Binary32, r: Binary32, s: Binary32| #[trigger]
        cosine::<A>(a, r) && #[trigger] cosine::<A>(a, s) ==> r == s
    &&& forall|a: Binary32, r: Binary32, s: Binary32| #[trigger]
        sine::<A>(a, r) && #[trigger] sine::<A>(a, s) ==> r == s
    &&& forall|y: Binary32, x: Binary32, r: Binary32, s: Binary32| #[trigger]
        direction::<A>(y, x, r) && #[trigger] direction::<A>(y, x, s) ==> r == s
    &&& forall|f: Binary32, n: Binary32, r: Binary32, s: Binary32| #[trigger]
        suggested_alpha::<A>(f, n, r) && #[trigger] suggested_alpha::<A>(f, n, s) ==> r == s
    &&& forall|a: Lanes, b: Lanes, r: Lanes, s: Lanes| #[trigger]
        sum_x4::<A>(a, b, r) && #[trigger] sum_x4::<A>(a, b, s) ==> r == s
    &&& forall|a: Lanes, b: Lanes, r: Lanes, s: Lanes| #[trigger]
        difference_x4::<A>(a, b, r) && #[trigger] difference_x4::<A>(a, b, s) ==> r == s
    &&& forall|a: Lanes, b: Lanes, r: Lanes, s: Lanes| #[trigger]
        product_x4::<A>(a, b, r) && #[trigger] product_x4::<A>(a, b, s) ==> r == s
    &&& forall|a: Lanes, b: Lanes, c: Lanes, r: Lanes, s: Lanes| #[trigger]
        multiply_add_x4::<A>(a, b, c, r) && #[trigger] multiply_add_x4::<A>(a, b, c, s) ==> r == s
}

/// What an operation of `A` on four lanes leaves in a lane is what the operation
/// of `B` on numbers returns for that lane's operands.
pub open spec fn lanes_agree<A: Arithmetic, B: Arithmetic>() -> bool {
    &&& forall|a: Lanes, b: Lanes, r: Lanes, i: int, s: Binary32|
        #![trigger sum_x4::<A>(a, b, r), sum::<B>(a.lane(i), b.lane(i), s)]
        sum_x4::<A>(a, b, r) && sum::<B>(a.lane(i), b.lane(i), s) ==> r.lane(i) == s
    &&& forall|a: Lanes, b: Lanes, r: Lanes, i: int, s: Binary32|
        #![trigger difference_x4::<A>(a, b, r), difference::<B>(a.lane(i), b.lane(i), s)]
        difference_x4::<A>(a, b, r) && difference::<B>(a.lane(i), b.lane(i), s) ==> r.lane(i) == s
    &&& forall|a: Lanes, b: Lanes, r: Lanes, i: int, s: Binary32|
        #![trigger product_x4::<A>(a, b, r), product::<B>(a.lane(i), b.lane(i), s)]
        product_x4::<A>(a, b, r) && product::<B>(a.lane(i), b.lane(i), s) ==> r.lane(i) == s
    &&& forall|a: Lanes, b: Lanes, c: Lanes, r: Lanes, i: int, s: Binary32|
        #![trigger multiply_add_x4::<A>(a, b, c, r), multiply_add::<B>(a.lane(i), b.lane(i), c.lane(i), s)]
        multiply_add_x4::<A>(a, b, c, r) && multiply_add::<B>(a.lane(i), b.lane(i), c.lane(i), s)
            ==> r.lane(i) == s
}

/// What an operation on four lanes leaves in a lane is fixed by the operands
/// in that lane, whichever lane it is.
pub open spec fn lane_local<A: Arithmetic>() -> bool {
    &&& forall|a: Lanes, b: Lanes, r: Lanes, i: int, c: Lanes, d: Lanes, s: Lanes, j: int|
        #![trigger sum_x4::<A>(a, b, r), sum_x4::<A>(c, d, s), r.lane(i), s.lane(j)]
        sum_x4::<A>(a, b, r) && sum_x4::<A>(c, d, s) && a.lane(i) == c.lane(j) && b.lane(i)
            == d.lane(j) ==> r.lane(i) == s.lane(j)
    &&& forall|a: Lanes, b: Lanes, r: Lanes, i: int, c: Lanes, d: Lanes, s: Lanes, j: int|
        #![trigger difference_x4::<A>(a, b, r), difference_x4::<A>(c, d, s), r.lane(i), s.lane(j)]
        difference_x4::<A>(a, b, r) && difference_x4::<A>(c, d, s) && a.lane(i) == c.lane(j)
            && b.lane(i) == d.lane(j) ==> r.lane(i) == s.lane(j)
    &&& forall|a: Lanes, b: Lanes, r: Lanes, i: int, c: Lanes, d: Lanes, s: Lanes, j: int|
        #![trigger product_x4::<A>(a, b, r), product_x4::<A>(c, d, s), r.lane(i), s.lane(j)]
        product_x4::<A>(a, b, r) && product_x4::<A>(c, d, s) && a.lane(i) == c.lane(j) && b.lane(i)
            == d.lane(j) ==> r.lane(i) == s.lane(j)
    &&& forall|
        a: Lanes,
        b: Lanes,
        e: Lanes,
        r: Lanes,
        i: int,
        c: Lanes,
        d: Lanes,
        f: Lanes,
        s: Lanes,
        j: int,
    |
        #![trigger multiply_add_x4::<A>(a, b, e, r), multiply_add_x4::<A>(c, d, f, s), r.lane(i), s.lane(j)]
        multiply_add_x4::<A>(a, b, e, r) && multiply_add_x4::<A>(c, d, f, s) && a.lane(i) == c.lane(
            j,
        ) && b.lane(i) == d.lane(j) && e.lane(i) == f.lane(j) ==> r.lane(i) == s.lane(j)
}

/// The sine of an angle of less than half a turn clockwise is negative.
pub open spec fn sine_keeps_sides<A: Arithmetic>() -> bool {
    forall|a: Binary32, r: Binary32| #[trigger]
        sine::<A>(a, r) && a.is_clockwise() ==> r.is_negative_fraction()
}

/// Scaling a factor by `c` scales a product by `c`, and scaling a factor and the
/// addend scales a multiply-add, on numbers and on lanes.
pub open spec fn scales_by<A: Arithmetic>(c: spec_fn(Binary32) -> Binary32) -> bool {
    &&& forall|a: Binary32, b: Binary32, r: Binary32, s: Binary32| #[trigger]
        product::<A>(a, b, r) && #[trigger] product::<A>(a, c(b), s) ==> s == c(r)
    &&& forall|a: Binary32, b: Binary32, r: Binary32, s: Binary32| #[trigger]
        product::<A>(a, b, r) && #[trigger] product::<A>(c(a), b, s) ==> s == c(r)
    &&& forall|a: Binary32, b: Binary32, d: Binary32, r: Binary32, s: Binary32| #[trigger]
        multiply_add::<A>(a, b, d, r) && #[trigger] multiply_add::<A>(a, c(b), c(d), s) ==> s == c(
            r,
        )
    &&& forall|a: Lanes, b: Lanes, r: Lanes, s: Lanes| #[trigger]
        product_x4::<A>(a, b, r) && #[trigger] product_x4::<A>(a, b.scaled(c), s) ==> s == r.scaled(
            c,
        )
    &&& forall|a: Lanes, b: Lanes, r: Lanes, s: Lanes| #[trigger]
        product_x4::<A>(a, b, r) && #[trigger] product_x4::<A>(a.scaled(c), b, s) ==> s == r.scaled(
            c,
        )
    &&& forall|a: Lanes, b: Lanes, d: Lanes, r: Lanes, s: Lanes| #[trigger]
        multiply_add_x4::<A>(a, b, d, r) && #[trigger] multiply_add_x4::<A>(
            a,
            b.scaled(c),
            d.scaled(c),
            s,
        ) ==> s == r.scaled(c)
}

/// Scaling a number by `c` scales its square by `c` twice, and scaling both
/// terms of a sum by `c` twice scales the sum so.
pub open spec fn squares_scale_by<A: Arithmetic>(c: spec_fn(Binary32) -> Binary32) -> bool {
    &&& forall|a: Binary32, r: Binary32, s: Binary32| #[trigger]
        product::<A>(a, a, r) && #[trigger] product::<A>(c(a), c(a), s) ==> s == c(c(r))
    &&& forall|a: Binary32, b: Binary32, r: Binary32, s: Binary32| #[trigger]
        sum::<A>(a, b, r) && #[trigger] sum::<A>(c(c(a)), c(c(b)), s) ==> s == c(c(r))
}

/// Scaling both terms of a quotient by `c` keeps the quotient.
pub open spec fn quotients_cancel<A: Arithmetic>(c: spec_fn(Binary32) -> Binary32) -> bool {
    forall|a: Binary32, b: Binary32, r: Binary32, s: Binary32| #[trigger]
        quotient::<A>(a, b, r) && #[trigger] quotient::<A>(c(a), c(b), s) ==> r == s
}

} // verus!
