use vstd::prelude::*;

use vstd::arithmetic::div_mod::{lemma_div_is_ordered_by_denominator, lemma_div_pos_is_pos};

use crate::num_traits::{abs, isqrt_of, lemma_isqrt_of, trunc_div, Num, Sqrt, Unit, Zero};

verus! {

/// A vector of `N` components of type `T`.
#[derive(Debug, Clone, Copy, PartialEq, Eq)]
pub struct Vector<T, const N: usize>([T; N]);

pub type Vec1b = Vector<bool, 1>;

pub type Vec2b = Vector<bool, 2>;

pub type Vec3b = Vector<bool, 3>;

pub type Vec4b = Vector<bool, 4>;

pub type Vec1i8 = Vector<i8, 1>;

pub type Vec2i8 = Vector<i8, 2>;

pub type Vec3i8 = Vector<i8, 3>;

pub type Vec4i8 = Vector<i8, 4>;

pub type Vec1i16 = Vector<i16, 1>;

pub type Vec2i16 = Vector<i16, 2>;

pub type Vec3i16 = Vector<i16, 3>;

pub type Vec4i16 = Vector<i16, 4>;

pub type Vec1i32 = Vector<i32, 1>;

pub type Vec2i32 = Vector<i32, 2>;

pub type Vec3i32 = Vector<i32, 3>;

pub type Vec4i32 = Vector<i32, 4>;

pub type Vec1i64 = Vector<i64, 1>;

pub type Vec2i64 = Vector<i64, 2>;

pub type Vec3i64 = Vector<i64, 3>;

pub type Vec4i64 = Vector<i64, 4>;

pub type Vec1i128 = Vector<i128, 1>;

pub type Vec2i128 = Vector<i128, 2>;

pub type Vec3i128 = Vector<i128, 3>;

pub type Vec4i128 = Vector<i128, 4>;

pub type Vec1u8 = Vector<u8, 1>;

pub type Vec2u8 = Vector<u8, 2>;

pub type Vec3u8 = Vector<u8, 3>;

pub type Vec4u8 = Vector<u8, 4>;

pub type Vec1u16 = Vector<u16, 1>;

pub type Vec2u16 = Vector<u16, 2>;

pub type Vec3u16 = Vector<u16, 3>;

pub type Vec4u16 = Vector<u16, 4>;

pub type Vec1u32 = Vector<u32, 1>;

pub type Vec2u32 = Vector<u32, 2>;

pub type Vec3u32 = Vector<u32, 3>;

pub type Vec4u32 = Vector<u32, 4>;

pub type Vec1u64 = Vector<u64, 1>;

pub type Vec2u64 = Vector<u64, 2>;

pub type Vec3u64 = Vector<u64, 3>;

pub type Vec4u64 = Vector<u64, 4>;

pub type Vec1u128 = Vector<u128, 1>;

pub type Vec2u128 = Vector<u128, 2>;

pub type Vec3u128 = Vector<u128, 3>;

pub type Vec4u128 = Vector<u128, 4>;

pub type Vec1us = Vector<usize, 1>;

pub type Vec2us = Vector<usize, 2>;

pub type Vec3us = Vector<usize, 3>;

pub type Vec4us = Vector<usize, 4>;

pub type Vec1is = Vector<isize, 1>;

pub type Vec2is = Vector<isize, 2>;

pub type Vec3is = Vector<isize, 3>;

pub type Vec4is = Vector<isize, 4>;

/// The values of a sequence of integers of some integer type.
pub open spec fn ints<T: Num>(s: Seq<T>) -> Seq<int> {
    s.map_values(|x: T| x.as_int())
}

/// Whether `x` is a value of the integer type `T`.
pub open spec fn fits<T: Num>(x: int) -> bool {
    T::lo() <= x <= T::hi()
}

/// The sum of `a[k] * b[k]` for `k < n`.
pub open spec fn dot_upto(a: Seq<int>, b: Seq<int>, n: int) -> int
    decreases n,
{
    if n <= 0 {
        0
    } else {
        dot_upto(a, b, n - 1) + a[n - 1] * b[n - 1]
    }
}

/// The dot product of two sequences of the same length.
pub open spec fn dot_product(a: Seq<int>, b: Seq<int>) -> int {
    dot_upto(a, b, a.len() as int)
}

/// Whether computing the dot product of `a` and `b` term by term in `T`
/// stays within `T`: every product and every running sum fits.
pub open spec fn dot_fits<T: Num>(a: Seq<int>, b: Seq<int>) -> bool {
    forall|k: int|
        0 <= k < a.len() ==> fits::<T>(a[k] * b[k]) && fits::<T>(#[trigger] dot_upto(a, b, k + 1))
}

/// The operation that code `op` stands for in `zip_with`: sum, difference,
/// product or quotient.
pub open spec fn apply_op(op: u8, x: int, y: int) -> int {
    if op == 0 {
        x + y
    } else if op == 1 {
        x - y
    } else if op == 2 {
        x * y
    } else {
        trunc_div(x, y)
    }
}

impl<T, const N: usize> Vector<T, N> {
    /// The components.
    pub closed spec fn spec_parts(&self) -> Seq<T> {
        self.0@
    }

    pub fn from_parts(parts: [T; N]) -> (r: Self)
        ensures
            r.spec_parts() == parts@,
    {
        Vector(parts)
    }

    pub fn parts(&self) -> (r: &[T; N])
        ensures
            r@ == self.spec_parts(),
    {
        &self.0
    }
}

impl<T: Num, const N: usize> Vector<T, N> {
    /// The values of the components.
    pub open spec fn values(&self) -> Seq<int> {
        ints(self.spec_parts())
    }

    proof fn lemma_len(&self)
        ensures
            self.spec_parts().len() == N,
            self.values().len() == N,
    {
    }

    /// Applies operation `op` (see `apply_op`) component by component.
    fn zip_with(&mut self, rhs: &Self, op: u8)
        requires
            op < 4,
            forall|k: int|
                0 <= k < N ==>
                    fits::<T>(#[trigger] apply_op(op, old(self).values()[k], rhs.values()[k])),
            op == 3 ==> forall|k: int| 0 <= k < N ==> #[trigger] rhs.values()[k] != 0,
        ensures
            final(self).values().len() == N,
            forall|k: int|
                0 <= k < N ==>
                    #[trigger] final(self).values()[k] == apply_op(op, old(self).values()[k], rhs.values()[k]),
    {
        let mut i: usize = 0;
        while i < N
            invariant
                op < 4,
                i <= N,
                self.values().len() == N,
                forall|k: int|
                    0 <= k < N ==>
                        fits::<T>(#[trigger] apply_op(op, old(self).values()[k], rhs.values()[k])),
                op == 3 ==> forall|k: int| 0 <= k < N ==> #[trigger] rhs.values()[k] != 0,
                forall|k: int|
                    0 <= k < i ==>
                        #[trigger] self.values()[k] == apply_op(op, old(self).values()[k], rhs.values()[k]),
                forall|k: int| i <= k < N ==> #[trigger] self.values()[k] == old(self).values()[k],
            decreases N - i,
        {
            proof {
                self.lemma_len();
                rhs.lemma_len();
                old(self).lemma_len();
            }
            let a = self.0[i];
            let b = rhs.0[i];
            proof {
                assert(fits::<T>(apply_op(op, old(self).values()[i as int], rhs.values()[i as int])));
                assert(a.as_int() == self.values()[i as int]);
                assert(b.as_int() == rhs.values()[i as int]);
            }
            let c = if op == 0 {
                a.plus(b)
            } else if op == 1 {
                a.minus(b)
            } else if op == 2 {
                a.times(b)
            } else {
                a.div_by(b)
            };
            let ghost prev = self.values();
            self.0[i] = c;
            proof {
                assert(self.values() =~= prev.update(i as int, c.as_int()));
            }
            i = i + 1;
        }
    }

    /// Adds `rhs` component by component.
    pub fn add_assign(&mut self, rhs: Self)
        requires
            forall|k: int|
                0 <= k < N ==> fits::<T>(#[trigger] old(self).values()[k] + rhs.values()[k]),
        ensures
            final(self).values().len() == N,
            forall|k: int|
                0 <= k < N ==>
                    #[trigger] final(self).values()[k] == old(self).values()[k] + rhs.values()[k],
    {
        proof {
            assert(forall|k: int|
                0 <= k < N ==>
                    #[trigger] apply_op(0, old(self).values()[k], rhs.values()[k]) == old(self).values()[k] + rhs.values()[k]
            );
        }
        self.zip_with(&rhs, 0);
    }

    /// The sum, component by component.
    pub fn add(self, rhs: Self) -> (r: Self)
        requires
            forall|k: int| 0 <= k < N ==> fits::<T>(#[trigger] self.values()[k] + rhs.values()[k]),
        ensures
            r.values().len() == N,
            forall|k: int|
                0 <= k < N ==> #[trigger] r.values()[k] == self.values()[k] + rhs.values()[k],
    {
        let mut r = self;
        r.add_assign(rhs);
        r
    }


    /// Subtracts `rhs` component by component.
    pub fn sub_assign(&mut self, rhs: Self)
        requires
            forall|k: int|
                0 <= k < N ==> fits::<T>(#[trigger] old(self).values()[k] - rhs.values()[k]),
        ensures
            final(self).values().len() == N,
            forall|k: int|
                0 <= k < N ==>
                    #[trigger] final(self).values()[k] == old(self).values()[k] - rhs.values()[k],
    {
        proof {
            assert(forall|k: int|
                0 <= k < N ==>
                    #[trigger] apply_op(1, old(self).values()[k], rhs.values()[k]) == old(self).values()[k] - rhs.values()[k]
            );
        }
        self.zip_with(&rhs, 1);
    }

    /// The difference, component by component.
    pub fn sub(self, rhs: Self) -> (r: Self)
        requires
            forall|k: int| 0 <= k < N ==> fits::<T>(#[trigger] self.values()[k] - rhs.values()[k]),
        ensures
            r.values().len() == N,
            forall|k: int|
                0 <= k < N ==> #[trigger] r.values()[k] == self.values()[k] - rhs.values()[k],
    {
        let mut r = self;
        r.sub_assign(rhs);
        r
    }

    /// Multiplies by `rhs` component by component.
    pub fn mul_assign(&mut self, rhs: Self)
        requires
            forall|k: int|
                0 <= k < N ==> fits::<T>(#[trigger] old(self).values()[k] * rhs.values()[k]),
        ensures
            final(self).values().len() == N,
            forall|k: int|
                0 <= k < N ==>
                    #[trigger] final(self).values()[k] == old(self).values()[k] * rhs.values()[k],
    {
        proof {
            assert(forall|k: int|
                0 <= k < N ==>
                    #[trigger] apply_op(2, old(self).values()[k], rhs.values()[k]) == old(self).values()[k] * rhs.values()[k]
            );
        }
        self.zip_with(&rhs, 2);
    }

    /// The product, component by component.
    pub fn mul(self, rhs: Self) -> (r: Self)
        requires
            forall|k: int| 0 <= k < N ==> fits::<T>(#[trigger] self.values()[k] * rhs.values()[k]),
        ensures
            r.values().len() == N,
            forall|k: int|
                0 <= k < N ==> #[trigger] r.values()[k] == self.values()[k] * rhs.values()[k],
    {
        let mut r = self;
        r.mul_assign(rhs);
        r
    }

    /// Divides by `rhs` component by component, rounding toward zero.
    pub fn div_assign(&mut self, rhs: Self)
        requires
            forall|k: int| 0 <= k < N ==> #[trigger] rhs.values()[k] != 0,
            forall|k: int|
                0 <= k < N ==>
                    fits::<T>(#[trigger] trunc_div(old(self).values()[k], rhs.values()[k])),
        ensures
            final(self).values().len() == N,
            forall|k: int|
                0 <= k < N ==>
                    #[trigger] final(self).values()[k] == trunc_div(old(self).values()[k], rhs.values()[k]),
    {
        proof {
            assert(forall|k: int|
                0 <= k < N ==>
                    #[trigger] apply_op(3, old(self).values()[k], rhs.values()[k]) == trunc_div(old(self).values()[k], rhs.values()[k])
            );
        }
        self.zip_with(&rhs, 3);
    }

    /// The quotient, component by component, rounded toward zero.
    pub fn div(self, rhs: Self) -> (r: Self)
        requires
            forall|k: int| 0 <= k < N ==> #[trigger] rhs.values()[k] != 0,
            forall|k: int|
                0 <= k < N ==> fits::<T>(#[trigger] trunc_div(self.values()[k], rhs.values()[k])),
        ensures
            r.values().len() == N,
            forall|k: int|
                0 <= k < N ==>
                    #[trigger] r.values()[k] == trunc_div(self.values()[k], rhs.values()[k]),
    {
        let mut r = self;
        r.div_assign(rhs);
        r
    }
}

/// A sum of squares is never negative.
pub proof fn lemma_squares_nonneg(a: Seq<int>, n: int)
    ensures
        dot_upto(a, a, n) >= 0,
    decreases n,
{
    if n > 0 {
        lemma_squares_nonneg(a, n - 1);
        assert(a[n - 1] * a[n - 1] >= 0) by (nonlinear_arith);
    }
}

/// Dividing by a positive integer, rounding toward zero, moves a value
/// toward zero.
pub proof fn lemma_div_toward_zero(x: int, m: int)
    requires
        m >= 1,
    ensures
        x >= 0 ==> 0 <= trunc_div(x, m) <= x,
        x < 0 ==> x <= trunc_div(x, m) <= 0,
{
    lemma_div_is_ordered_by_denominator(abs(x), 1, m);
    lemma_div_pos_is_pos(abs(x), m);
}

impl<T: Zero, const N: usize> Vector<T, N> {
    /// The vector whose components are all zero.
    pub fn zero() -> (r: Self)
        ensures
            r.values().len() == N,
            forall|k: int| 0 <= k < N ==> #[trigger] r.values()[k] == 0,
    {
        Vector([T::zero(); N])
    }

    /// The dot product.
    pub fn dot(&self, rhs: &Self) -> (r: T)
        requires
            dot_fits::<T>(self.values(), rhs.values()),
        ensures
            r.as_int() == dot_product(self.values(), rhs.values()),
    {
        let ghost a = self.values();
        let ghost b = rhs.values();
        let mut ret = T::zero();
        let mut i: usize = 0;
        while i < N
            invariant
                a == self.values(),
                b == rhs.values(),
                a.len() == N,
                b.len() == N,
                i <= N,
                dot_fits::<T>(a, b),
                ret.as_int() == dot_upto(a, b, i as int),
            decreases N - i,
        {
            let x = self.0[i];
            let y = rhs.0[i];
            proof {
                assert(x.as_int() == a[i as int] && y.as_int() == b[i as int]);
                assert(fits::<T>(dot_upto(a, b, i + 1)));
            }
            let p = x.times(y);
            ret = ret.plus(p);
            i = i + 1;
        }
        ret
    }

    /// The dot product of the vector with itself: its squared magnitude.
    pub fn sq_magnitude(&self) -> (r: T)
        requires
            dot_fits::<T>(self.values(), self.values()),
        ensures
            r.as_int() == dot_product(self.values(), self.values()),
    {
        self.dot(self)
    }
}

impl<T: Zero + Sqrt, const N: usize> Vector<T, N> {
    /// The magnitude, rounded down to an integer.
    pub fn magnitude(&self) -> (r: T)
        requires
            dot_fits::<T>(self.values(), self.values()),
        ensures
            r.as_int() == isqrt_of(dot_product(self.values(), self.values())),
    {
        let r = self.sq_magnitude().sqrt();
        proof {
            lemma_isqrt_of(dot_product(self.values(), self.values()), r.as_int());
        }
        r
    }

    /// Divides each component by the magnitude, rounding toward zero, unless
    /// the magnitude is zero; returns the magnitude.
    pub fn normalize(&mut self) -> (r: T)
        requires
            dot_fits::<T>(old(self).values(), old(self).values()),
        ensures
            r.as_int() == isqrt_of(dot_product(old(self).values(), old(self).values())),
            r.as_int() == 0 ==> final(self).values() == old(self).values(),
            r.as_int() != 0 ==> final(self).values().len() == N && forall|k: int|
                0 <= k < N ==> #[trigger] final(self).values()[k] == trunc_div(old(self).values()[k], r.as_int()),
    {
        let mag = self.sq_magnitude().sqrt();
        proof {
            lemma_isqrt_of(dot_product(self.values(), self.values()), mag.as_int());
        }
        if !mag.is_zero() {
            let ghost a = self.values();
            let by = Vector([mag; N]);
            proof {
                lemma_squares_nonneg(a, N as int);
                assert(by.values().len() == N);
                assert forall|k: int| 0 <= k < N implies #[trigger] by.values()[k] == mag.as_int() by {}
                assert forall|k: int| 0 <= k < N implies fits::<T>(#[trigger] trunc_div(a[k], by.values()[k])) by {
                    lemma_div_toward_zero(a[k], mag.as_int());
                    T::lemma_range(self.0@[k]);
                }
            }
            self.div_assign(by);
        }
        mag
    }

    /// A copy divided by its magnitude; see `normalize`.
    pub fn normalized(&self) -> (r: Self)
        requires
            dot_fits::<T>(self.values(), self.values()),
        ensures
            ({
                let m = isqrt_of(dot_product(self.values(), self.values()));
                &&& m == 0 ==> r.values() == self.values()
                &&& m != 0 ==> r.values().len() == N && forall|k: int|
                    0 <= k < N ==> #[trigger] r.values()[k] == trunc_div(self.values()[k], m)
            }),
    {
        let mut ret = *self;
        ret.normalize();
        ret
    }
}

impl<T: Unit, const N: usize> Vector<T, N> {
    /// The vector whose components are all one.
    pub fn unit() -> (r: Self)
        ensures
            r.values().len() == N,
            forall|k: int| 0 <= k < N ==> #[trigger] r.values()[k] == 1,
    {
        Vector([T::unit(); N])
    }
}

impl<T: Copy> Vector<T, 1> {
    pub fn new(x: T) -> (r: Self)
        ensures
            r.spec_parts() == seq![x],
    {
        let r = Vector([x]);
        proof {
            assert(r.spec_parts() =~= seq![x]);
        }
        r
    }

    pub fn x(&self) -> (r: T)
        ensures
            r == self.spec_parts()[0],
    {
        self.0[0]
    }
}

impl<T: Copy> Vector<T, 2> {
    pub fn new(x: T, y: T) -> (r: Self)
        ensures
            r.spec_parts() == seq![x, y],
    {
        let r = Vector([x, y]);
        proof {
            assert(r.spec_parts() =~= seq![x, y]);
        }
        r
    }

    pub fn x(&self) -> (r: T)
        ensures
            r == self.spec_parts()[0],
    {
        self.0[0]
    }

    pub fn y(&self) -> (r: T)
        ensures
            r == self.spec_parts()[1],
    {
        self.0[1]
    }
}

impl<T: Zero + Unit> Vector<T, 2> {
    /// The unit vector along x.
    pub fn unit_x() -> (r: Self)
        ensures
            r.values() == seq![1, 0int],
    {
        let r = Self::new(T::unit(), T::zero());
        proof {
            assert(r.values() =~= seq![1, 0int]);
        }
        r
    }

    /// The unit vector along y.
    pub fn unit_y() -> (r: Self)
        ensures
            r.values() == seq![0, 1int],
    {
        let r = Self::new(T::zero(), T::unit());
        proof {
            assert(r.values() =~= seq![0, 1int]);
        }
        r
    }
}

impl<T: Copy> Vector<T, 3> {
    pub fn new(x: T, y: T, z: T) -> (r: Self)
        ensures
            r.spec_parts() == seq![x, y, z],
    {
        let r = Vector([x, y, z]);
        proof {
            assert(r.spec_parts() =~= seq![x, y, z]);
        }
        r
    }

    pub fn x(&self) -> (r: T)
        ensures
            r == self.spec_parts()[0],
    {
        self.0[0]
    }

    pub fn y(&self) -> (r: T)
        ensures
            r == self.spec_parts()[1],
    {
        self.0[1]
    }

    pub fn z(&self) -> (r: T)
        ensures
            r == self.spec_parts()[2],
    {
        self.0[2]
    }
}

impl<T: Zero + Unit> Vector<T, 3> {
    /// The unit vector along x.
    pub fn unit_x() -> (r: Self)
        ensures
            r.values() == seq![1, 0, 0int],
    {
        let r = Self::new(T::unit(), T::zero(), T::zero());
        proof {
            assert(r.values() =~= seq![1, 0, 0int]);
        }
        r
    }

    /// The unit vector along y.
    pub fn unit_y() -> (r: Self)
        ensures
            r.values() == seq![0, 1, 0int],
    {
        let r = Self::new(T::zero(), T::unit(), T::zero());
        proof {
            assert(r.values() =~= seq![0, 1, 0int]);
        }
        r
    }

    /// The unit vector along z.
    pub fn unit_z() -> (r: Self)
        ensures
            r.values() == seq![0, 0, 1int],
    {
        let r = Self::new(T::zero(), T::zero(), T::unit());
        proof {
            assert(r.values() =~= seq![0, 0, 1int]);
        }
        r
    }
}

impl<T: Copy> Vector<T, 4> {
    pub fn new(x: T, y: T, z: T, w: T) -> (r: Self)
        ensures
            r.spec_parts() == seq![x, y, z, w],
    {
        let r = Vector([x, y, z, w]);
        proof {
            assert(r.spec_parts() =~= seq![x, y, z, w]);
        }
        r
    }

    pub fn x(&self) -> (r: T)
        ensures
            r == self.spec_parts()[0],
    {
        self.0[0]
    }

    pub fn y(&self) -> (r: T)
        ensures
            r == self.spec_parts()[1],
    {
        self.0[1]
    }

    pub fn z(&self) -> (r: T)
        ensures
            r == self.spec_parts()[2],
    {
        self.0[2]
    }

    pub fn w(&self) -> (r: T)
        ensures
            r == self.spec_parts()[3],
    {
        self.0[3]
    }
}

impl<T: Zero + Unit> Vector<T, 4> {
    /// The unit vector along x, with `w` set to one.
    pub fn unit_x() -> (r: Self)
        ensures
            r.values() == seq![1, 0, 0, 1int],
    {
        let r = Self::new(T::unit(), T::zero(), T::zero(), T::unit());
        proof {
            assert(r.values() =~= seq![1, 0, 0, 1int]);
        }
        r
    }

    /// The unit vector along y, with `w` set to one.
    pub fn unit_y() -> (r: Self)
        ensures
            r.values() == seq![0, 1, 0, 1int],
    {
        let r = Self::new(T::zero(), T::unit(), T::zero(), T::unit());
        proof {
            assert(r.values() =~= seq![0, 1, 0, 1int]);
        }
        r
    }

    /// The unit vector along z, with `w` set to one.
    pub fn unit_z() -> (r: Self)
        ensures
            r.values() == seq![0, 0, 1, 1int],
    {
        let r = Self::new(T::zero(), T::zero(), T::unit(), T::unit());
        proof {
            assert(r.values() =~= seq![0, 0, 1, 1int]);
        }
        r
    }

    /// The unit vector along w.
    pub fn unit_w() -> (r: Self)
        ensures
            r.values() == seq![0, 0, 0, 1int],
    {
        let r = Self::new(T::zero(), T::zero(), T::zero(), T::unit());
        proof {
            assert(r.values() =~= seq![0, 0, 0, 1int]);
        }
        r
    }
}

impl<T: Num> Vector<T, 2> {
    /// The cross product of two planar vectors: `x * rhs.y - y * rhs.x`.
    pub fn cross(&self, rhs: &Self) -> (r: T)
        requires
            fits::<T>(self.values()[0] * rhs.values()[1]),
            fits::<T>(self.values()[1] * rhs.values()[0]),
            fits::<T>(self.values()[0] * rhs.values()[1] - self.values()[1] * rhs.values()[0]),
        ensures
            r.as_int() == self.values()[0] * rhs.values()[1] - self.values()[1] * rhs.values()[0],
    {
        self.0[0].times(rhs.0[1]).minus(self.0[1].times(rhs.0[0]))
    }
}

/// The three components of the cross product of `a` and `b`.
pub open spec fn cross3(a: Seq<int>, b: Seq<int>) -> Seq<int> {
    seq![a[1] * b[2] - a[2] * b[1], a[2] * b[0] - a[0] * b[2], a[0] * b[1] - a[1] * b[0]]
}

/// Whether every product and difference of `cross3` fits in `T`.
pub open spec fn cross3_fits<T: Num>(a: Seq<int>, b: Seq<int>) -> bool {
    &&& fits::<T>(a[1] * b[2]) && fits::<T>(a[2] * b[1])
    &&& fits::<T>(a[2] * b[0]) && fits::<T>(a[0] * b[2])
    &&& fits::<T>(a[0] * b[1]) && fits::<T>(a[1] * b[0])
    &&& forall|k: int| 0 <= k < 3 ==> fits::<T>(#[trigger] cross3(a, b)[k])
}

/// The fourth component that `Vector::<T, 4>::cross` computes.
pub open spec fn cross4_w(a: Seq<int>, b: Seq<int>) -> int {
    a[0] * b[1] * b[2] - a[1] * b[0] * b[2] + a[2] * b[0] * b[1] - a[0] * b[2] * b[1]
}

/// Whether every intermediate value of `cross4_w`, taken left to right,
/// fits in `T`.
pub open spec fn cross4_w_fits<T: Num>(a: Seq<int>, b: Seq<int>) -> bool {
    &&& fits::<T>(a[0] * b[1]) && fits::<T>(a[0] * b[1] * b[2])
    &&& fits::<T>(a[1] * b[0]) && fits::<T>(a[1] * b[0] * b[2])
    &&& fits::<T>(a[2] * b[0]) && fits::<T>(a[2] * b[0] * b[1])
    &&& fits::<T>(a[0] * b[2]) && fits::<T>(a[0] * b[2] * b[1])
    &&& fits::<T>(a[0] * b[1] * b[2] - a[1] * b[0] * b[2])
    &&& fits::<T>(a[0] * b[1] * b[2] - a[1] * b[0] * b[2] + a[2] * b[0] * b[1])
    &&& fits::<T>(cross4_w(a, b))
}

impl<T: Num> Vector<T, 3> {
    /// The cross product.
    pub fn cross(&self, rhs: &Self) -> (r: Self)
        requires
            cross3_fits::<T>(self.values(), rhs.values()),
        ensures
            r.values() == cross3(self.values(), rhs.values()),
    {
        let a = &self.0;
        let b = &rhs.0;
        proof {
            assert(fits::<T>(cross3(self.values(), rhs.values())[0]));
            assert(fits::<T>(cross3(self.values(), rhs.values())[1]));
            assert(fits::<T>(cross3(self.values(), rhs.values())[2]));
        }
        let r = Self::new(
            a[1].times(b[2]).minus(a[2].times(b[1])),
            a[2].times(b[0]).minus(a[0].times(b[2])),
            a[0].times(b[1]).minus(a[1].times(b[0])),
        );
        proof {
            assert(r.values() =~= cross3(self.values(), rhs.values()));
        }
        r
    }
}

impl<T: Num> Vector<T, 4> {
    /// The cross product of the first three components, with a fourth
    /// component computed from them as `cross4_w` says.
    pub fn cross(&self, rhs: &Self) -> (r: Self)
        requires
            cross3_fits::<T>(self.values(), rhs.values()),
            cross4_w_fits::<T>(self.values(), rhs.values()),
        ensures
            r.values() == cross3(self.values(), rhs.values()).push(cross4_w(self.values(), rhs.values())),
    {
        let a = &self.0;
        let b = &rhs.0;
        proof {
            assert(fits::<T>(cross3(self.values(), rhs.values())[0]));
            assert(fits::<T>(cross3(self.values(), rhs.values())[1]));
            assert(fits::<T>(cross3(self.values(), rhs.values())[2]));
        }
        let w = a[0].times(b[1]).times(b[2]).minus(a[1].times(b[0]).times(b[2])).plus(
            a[2].times(b[0]).times(b[1]),
        ).minus(a[0].times(b[2]).times(b[1]));
        let r = Self::new(
            a[1].times(b[2]).minus(a[2].times(b[1])),
            a[2].times(b[0]).minus(a[0].times(b[2])),
            a[0].times(b[1]).minus(a[1].times(b[0])),
            w,
        );
        proof {
            assert(r.values() =~= cross3(self.values(), rhs.values()).push(cross4_w(self.values(), rhs.values())));
        }
        r
    }
}

} // verus!
