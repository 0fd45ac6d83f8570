//! The bank over the real numbers.
//!
//! [`Numbers`] reads single-precision numbers as real ones. Of arithmetic that
//! [`computes`](Numbers::computes) with them nothing more is asked than that an
//! operation whose exact result is a number it can hold returns that number, as
//! correctly rounded arithmetic does. The functions below say in real numbers
//! what a resonator does with a sample.

use crate::arithmetic::{
    cosine, difference, difference_x4, direction, multiply_add, multiply_add_x4, product, product_x4,
    quotient, sine, square_root, suggested_alpha, sum, sum_x4, Arithmetic,
};
use crate::model::Bin;
use crate::number::{minus_two, one, pi, zero, Binary32, Complex, Lanes};
use vstd::prelude::*;

verus! {

/// A reading of single-precision numbers as real numbers.
pub struct Numbers {
    /// The real number that a number stands for.
    pub val: spec_fn(Binary32) -> real,
    /// The real numbers that some number stands for exactly.
    pub fits: spec_fn(real) -> bool,
    /// The cosine, as the arithmetic rounds it.
    pub cos: spec_fn(real) -> real,
    /// The sine, as the arithmetic rounds it.
    pub sin: spec_fn(real) -> real,
    /// The angle of the point with the given ordinate and abscissa.
    pub angle: spec_fn(real, real) -> real,
    /// The weight for a frequency at a sample rate.
    pub weight: spec_fn(real, real) -> real,
}

impl Numbers {
    /// The real number that `x` stands for.
    pub open spec fn v(self, x: Binary32) -> real {
        (self.val)(x)
    }

    /// `x` stands for a real number that fits.
    pub open spec fn has(self, x: Binary32) -> bool {
        (self.fits)((self.val)(x))
    }

    /// Both parts of `c` stand for real numbers that fit.
    pub open spec fn has_complex(self, c: Complex) -> bool {
        self.has(c.re) && self.has(c.im)
    }

    /// Operations whose exact result fits return it; the others that are not
    /// arithmetic are functions of the real numbers they are given.
    pub open spec fn computes<A: Arithmetic>(self) -> bool {
        &&& self.computes_scalars::<A>()
        &&& self.computes_lanes::<A>()
        &&& self.computes_functions::<A>()
        &&& self.v(zero()) == 0real && self.has(zero())
        &&& self.v(one()) == 1real && self.has(one())
        &&& self.v(minus_two()) == 0real - 2real && self.has(minus_two())
        &&& self.has(pi())
    }

    pub open spec fn computes_scalars<A: Arithmetic>(self) -> bool {
        &&& forall|a: Binary32, b: Binary32, r: Binary32| #[trigger]
            sum::<A>(a, b, r) && self.has(a) && self.has(b) && (self.fits)(self.v(a) + self.v(b))
                ==> self.v(r) == self.v(a) + self.v(b)
        &&& forall|a: Binary32, b: Binary32, r: Binary32| #[trigger]
            difference::<A>(a, b, r) && self.has(a) && self.has(b) && (self.fits)(
                self.v(a) - self.v(b),
            ) ==> self.v(r) == self.v(a) - self.v(b)
        &&& forall|a: Binary32, b: Binary32, r: Binary32| #[trigger]
            product::<A>(a, b, r) && self.has(a) && self.has(b) && (self.fits)(
                self.v(a) * self.v(b),
            ) ==> self.v(r) == self.v(a) * self.v(b)
        &&& forall|a: Binary32, b: Binary32, c: Binary32, r: Binary32| #[trigger]
            multiply_add::<A>(a, b, c, r) && self.has(a) && self.has(b) && self.has(c)
                && (self.fits)(self.v(a) * self.v(b) + self.v(c)) ==> self.v(r) == self.v(a)
                * self.v(b) + self.v(c)
        &&& forall|a: Binary32, b: Binary32, r: Binary32, x: real|
            #![trigger quotient::<A>(a, b, r), (self.fits)(x)]
            quotient::<A>(a, b, r) && self.has(a) && self.has(b) && self.v(b) != 0real && x
                * self.v(b) == self.v(a) && (self.fits)(x) ==> self.v(r) == x
        &&& forall|a: Binary32, r: Binary32, x: real|
            #![trigger square_root::<A>(a, r), (self.fits)(x)]
            square_root::<A>(a, r) && self.has(a) && 0real <= x && x * x == self.v(a)
                && (self.fits)(x) ==> self.v(r) == x
    }

    pub open spec fn computes_lanes<A: Arithmetic>(self) -> bool {
        &&& forall|a: Lanes, b: Lanes, r: Lanes, i: int|
            #![trigger sum_x4::<A>(a, b, r), r.lane(i)]
            sum_x4::<A>(a, b, r) && self.has(a.lane(i)) && self.has(b.lane(i)) && (self.fits)(
                self.v(a.lane(i)) + self.v(b.lane(i)),
            ) ==> self.v(r.lane(i)) == self.v(a.lane(i)) + self.v(b.lane(i))
        &&& forall|a: Lanes, b: Lanes, r: Lanes, i: int|
            #![trigger difference_x4::<A>(a, b, r), r.lane(i)]
            difference_x4::<A>(a, b, r) && self.has(a.lane(i)) && self.has(b.lane(i))
                && (self.fits)(self.v(a.lane(i)) - self.v(b.lane(i))) ==> self.v(r.lane(i))
                == self.v(a.lane(i)) - self.v(b.lane(i))
        &&& forall|a: Lanes, b: Lanes, r: Lanes, i: int|
            #![trigger product_x4::<A>(a, b, r), r.lane(i)]
            product_x4::<A>(a, b, r) && self.has(a.lane(i)) && self.has(b.lane(i)) && (self.fits)(
                self.v(a.lane(i)) * self.v(b.lane(i)),
            ) ==> self.v(r.lane(i)) == self.v(a.lane(i)) * self.v(b.lane(i))
        &&& forall|a: Lanes, b: Lanes, c: Lanes, r: Lanes, i: int|
            #![trigger multiply_add_x4::<A>(a, b, c, r), r.lane(i)]
            multiply_add_x4::<A>(a, b, c, r) && self.has(a.lane(i)) && self.has(b.lane(i))
                && self.has(c.lane(i)) && (self.fits)(self.v(a.lane(i)) * self.v(b.lane(i)))
                && (self.fits)(self.v(a.lane(i)) * self.v(b.lane(i)) + self.v(c.lane(i)))
                ==> self.v(r.lane(i)) == self.v(a.lane(i)) * self.v(b.lane(i)) + self.v(c.lane(i))
    }

    pub open spec fn computes_functions<A: Arithmetic>(self) -> bool {
        &&& forall|a: Binary32, r: Binary32| #[trigger]
            cosine::<A>(a, r) && self.has(a) ==> self.v(r) == (self.cos)(self.v(a))
        &&& forall|a: Binary32, r: Binary32| #[trigger]
            sine::<A>(a, r) && self.has(a) ==> self.v(r) == (self.sin)(self.v(a))
        &&& forall|y: Binary32, x: Binary32, r: Binary32| #[trigger]
            direction::<A>(y, x, r) && self.has(y) && self.has(x) && self.v(y) != 0real
                ==> self.v(r) == (self.angle)(self.v(y), self.v(x))
        &&& forall|f: Binary32, n: Binary32, r: Binary32| #[trigger]
            suggested_alpha::<A>(f, n, r) && self.has(f) && self.has(n) ==> self.v(r)
                == (self.weight)(self.v(f), self.v(n))
    }

    /// `to` lies on the way from `from` to `target`, `weight` of the way along.
    pub open spec fn averages(self, from: Binary32, target: real, weight: Binary32, to: Binary32) -> bool {
        self.v(to) - self.v(from) == self.v(weight) * (target - self.v(from))
    }

    /// The squared distance of `c` from zero.
    pub open spec fn norm(self, c: Complex) -> real {
        self.v(c.re) * self.v(c.re) + self.v(c.im) * self.v(c.im)
    }

    /// `to` is `z` turned by `w`: turned back, it is `z` again, stretched by the
    /// squared length of `w`.
    pub open spec fn turned(self, z: Complex, w: Complex, to: Complex) -> bool {
        &&& self.v(to.re) * self.v(w.re) + self.v(to.im) * self.v(w.im) == self.v(z.re) * self.norm(
            w,
        )
        &&& self.v(to.im) * self.v(w.re) - self.v(to.re) * self.v(w.im) == self.v(z.im) * self.norm(
            w,
        )
    }

    /// A sample takes `pre` to `post` in real numbers: `r` moves towards the
    /// sample times the phasor, by `alpha` of the way, and `rr` towards the new
    /// `r`, by `beta` of the way; what tunes the resonator stays.
    pub open spec fn resonates(self, pre: Bin, sample: Binary32, post: Bin) -> bool {
        &&& self.averages(pre.r.re, self.v(sample) * self.v(pre.z.re), pre.alpha, post.r.re)
        &&& self.averages(pre.r.im, self.v(sample) * self.v(pre.z.im), pre.alpha, post.r.im)
        &&& self.averages(pre.rr.re, self.v(post.r.re), pre.beta, post.rr.re)
        &&& self.averages(pre.rr.im, self.v(post.r.im), pre.beta, post.rr.im)
        &&& post.freq == pre.freq
        &&& post.alpha == pre.alpha
        &&& post.beta == pre.beta
        &&& post.w == pre.w
    }

    /// No operation of one sample's update has to round.
    pub open spec fn step_fits(self, pre: Bin, sample: Binary32) -> bool {
        let a = self.v(pre.alpha);
        let b = self.v(pre.beta);
        let gain = a * self.v(sample);
        let (zr, zi) = (self.v(pre.z.re), self.v(pre.z.im));
        let (wr, wi) = (self.v(pre.w.re), self.v(pre.w.im));
        let r = (1real - a) * self.v(pre.r.re) + gain * zr;
        let i = (1real - a) * self.v(pre.r.im) + gain * zi;
        &&& self.has(sample) && self.has(pre.alpha) && self.has(pre.beta)
        &&& self.has_complex(pre.z) && self.has_complex(pre.w)
        &&& self.has_complex(pre.r) && self.has_complex(pre.rr)
        &&& (self.fits)(1real - a) && (self.fits)(1real - b) && (self.fits)(gain)
        &&& (self.fits)(gain * zr) && (self.fits)(gain * zi)
        &&& (self.fits)((1real - a) * self.v(pre.r.re)) && (self.fits)(
            (1real - a) * self.v(pre.r.im),
        )
        &&& (self.fits)(r) && (self.fits)(i) && (self.fits)(b * r) && (self.fits)(b * i)
        &&& (self.fits)((1real - b) * self.v(pre.rr.re)) && (self.fits)(
            (1real - b) * self.v(pre.rr.im),
        )
        &&& (self.fits)((1real - b) * self.v(pre.rr.re) + b * r)
        &&& (self.fits)((1real - b) * self.v(pre.rr.im) + b * i)
        &&& (self.fits)(zr * wr) && (self.fits)(zi * wi) && (self.fits)(zr * wr - zi * wi)
        &&& (self.fits)(zr * wi) && (self.fits)(zi * wr) && (self.fits)(zr * wi + zi * wr)
    }

    /// No operation of the stabilization of `z` has to round, and `z` is not
    /// zero; `length` is its length and `inverse` the inverse of that.
    pub open spec fn stabilization_fits(self, z: Complex, length: real, inverse: real) -> bool {
        let (x, y) = (self.v(z.re), self.v(z.im));
        &&& 0real < length && length * length == self.norm(z)
        &&& 0real < inverse && inverse * length == 1real
        &&& self.has_complex(z)
        &&& (self.fits)(x * x) && (self.fits)(y * y) && (self.fits)(x * x + y * y)
        &&& (self.fits)(length) && (self.fits)(inverse)
        &&& (self.fits)(x * inverse) && (self.fits)(y * inverse)
    }

    /// `to` has unit length and points where `from` points.
    pub open spec fn normalized(self, from: Complex, to: Complex) -> bool {
        &&& self.norm(to) == 1real
        &&& self.v(to.re) * self.v(from.im) == self.v(to.im) * self.v(from.re)
        &&& self.v(to.re) * self.v(from.re) + self.v(to.im) * self.v(from.im) > 0real
    }

    /// No operation of the power of `c` has to round.
    pub open spec fn power_fits(self, c: Complex) -> bool {
        &&& self.has_complex(c)
        &&& (self.fits)(self.v(c.re) * self.v(c.re)) && (self.fits)(self.v(c.im) * self.v(c.im))
        &&& (self.fits)(self.norm(c))
    }
}

} // verus!
