use vstd::prelude::*;

verus! {

/// Rust's integer division: the quotient rounded toward zero.
pub open spec fn trunc_div(a: int, b: int) -> int {
    let q = abs(a) / abs(b);
    if (a < 0) == (b < 0) {
        q
    } else {
        -q
    }
}

/// The absolute value.
pub open spec fn abs(a: int) -> int {
    if a < 0 {
        -a
    } else {
        a
    }
}

/// An integer type, seen as the mathematical integers it holds.
pub trait Num: Copy + Sized {
    spec fn as_int(self) -> int;

    /// The least value of the type.
    spec fn lo() -> int;

    /// The greatest value of the type.
    spec fn hi() -> int;

    proof fn lemma_range(x: Self)
        ensures
            Self::lo() <= x.as_int() <= Self::hi(),
            Self::lo() <= 0,
            Self::hi() >= 1,
    ;

    fn plus(self, rhs: Self) -> (r: Self)
        requires
            Self::lo() <= self.as_int() + rhs.as_int() <= Self::hi(),
        ensures
            r.as_int() == self.as_int() + rhs.as_int(),
    ;

    fn minus(self, rhs: Self) -> (r: Self)
        requires
            Self::lo() <= self.as_int() - rhs.as_int() <= Self::hi(),
        ensures
            r.as_int() == self.as_int() - rhs.as_int(),
    ;

    fn times(self, rhs: Self) -> (r: Self)
        requires
            Self::lo() <= self.as_int() * rhs.as_int() <= Self::hi(),
        ensures
            r.as_int() == self.as_int() * rhs.as_int(),
    ;

    fn div_by(self, rhs: Self) -> (r: Self)
        requires
            rhs.as_int() != 0,
            Self::lo() <= trunc_div(self.as_int(), rhs.as_int()) <= Self::hi(),
        ensures
            r.as_int() == trunc_div(self.as_int(), rhs.as_int()),
    ;

    fn is_zero(self) -> (r: bool)
        ensures
            r == (self.as_int() == 0),
    ;
}

/// Types with a zero.
pub trait Zero: Num {
    fn zero() -> (r: Self)
        ensures
            r.as_int() == 0,
    ;
}

/// Types with a one.
pub trait Unit: Num {
    fn unit() -> (r: Self)
        ensures
            r.as_int() == 1,
    ;
}

/// Whether `r` is the integer square root of `x`: the greatest integer whose
/// square does not exceed `x`, or 0 when `x` is negative.
pub open spec fn is_isqrt(x: int, r: int) -> bool {
    if x < 0 {
        r == 0
    } else {
        0 <= r && r * r <= x < (r + 1) * (r + 1)
    }
}

/// The integer square root of `x`; see `is_isqrt`.
pub open spec fn isqrt_of(x: int) -> int {
    choose|r: int| is_isqrt(x, r)
}

/// The integer square root is unique.
pub proof fn lemma_isqrt_unique(x: int, r: int)
    requires
        is_isqrt(x, r),
    ensures
        forall|s: int| is_isqrt(x, s) ==> s == r,
{
    assert forall|s: int| is_isqrt(x, s) implies s == r by {
        if x >= 0 && s != r {
            if s < r {
                assert((s + 1) * (s + 1) <= r * r) by (nonlinear_arith)
                    requires
                        0 <= s < r,
                ;
            } else {
                assert((r + 1) * (r + 1) <= s * s) by (nonlinear_arith)
                    requires
                        0 <= r < s,
                ;
            }
        }
    }
}

/// A value with the properties of the integer square root of `x` is it.
pub proof fn lemma_isqrt_of(x: int, r: int)
    requires
        is_isqrt(x, r),
    ensures
        isqrt_of(x) == r,
{
    lemma_isqrt_unique(x, r);
}

/// Types with a square root, rounded down.
pub trait Sqrt: Num {
    fn sqrt(&self) -> (r: Self)
        ensures
            is_isqrt(self.as_int(), r.as_int()),
    ;
}

/// The integer square root of `x`.
pub fn isqrt(x: u64) -> (r: u64)
    ensures
        is_isqrt(x as int, r as int),
        r <= x,
{
    let mut lo: u64 = 0;
    let mut hi: u64 = 0x1_0000_0000;
    proof {
        assert(0x1_0000_0000 * 0x1_0000_0000 > u64::MAX) by (nonlinear_arith);
    }
    while hi - lo > 1
        invariant
            lo < hi <= 0x1_0000_0000,
            lo * lo <= x,
            x < hi * hi,
        decreases hi - lo,
    {
        let mid = lo + (hi - lo) / 2;
        proof {
            assert((mid as int) * (mid as int) < 0x1_0000_0000 * 0x1_0000_0000) by (nonlinear_arith)
                requires
                    mid < 0x1_0000_0000,
            ;
        }
        let sq = (mid as u128) * (mid as u128);
        if sq <= x as u128 {
            lo = mid;
        } else {
            hi = mid;
        }
    }
    proof {
        assert(hi == lo + 1);
        if lo > x {
            assert(lo * lo >= lo) by (nonlinear_arith)
                requires
                    lo >= 1,
            ;
        }
    }
    lo
}

impl Num for u8 {
    open spec fn as_int(self) -> int {
        self as int
    }

    open spec fn lo() -> int {
        0
    }

    open spec fn hi() -> int {
        u8::MAX as int
    }

    proof fn lemma_range(x: u8) {
    }

    fn plus(self, rhs: u8) -> u8 {
        self + rhs
    }

    fn minus(self, rhs: u8) -> u8 {
        self - rhs
    }

    fn times(self, rhs: u8) -> u8 {
        self * rhs
    }

    fn div_by(self, rhs: u8) -> u8 {
        self / rhs
    }

    fn is_zero(self) -> bool {
        self == 0
    }
}

impl Zero for u8 {
    fn zero() -> u8 {
        0
    }
}

impl Unit for u8 {
    fn unit() -> u8 {
        1
    }
}

impl Sqrt for u8 {
    fn sqrt(&self) -> u8 {
        isqrt(*self as u64) as u8
    }
}

impl Num for i8 {
    open spec fn as_int(self) -> int {
        self as int
    }

    open spec fn lo() -> int {
        i8::MIN as int
    }

    open spec fn hi() -> int {
        i8::MAX as int
    }

    proof fn lemma_range(x: i8) {
    }

    fn plus(self, rhs: i8) -> i8 {
        self + rhs
    }

    fn minus(self, rhs: i8) -> i8 {
        self - rhs
    }

    fn times(self, rhs: i8) -> i8 {
        self * rhs
    }

    fn div_by(self, rhs: i8) -> i8 {
        let a = self as i16;
        let b = rhs as i16;
        let ua = (if a < 0 { -a } else { a }) as u16;
        let ub = (if b < 0 { -b } else { b }) as u16;
        let q = (ua / ub) as i16;
        if (a < 0) == (b < 0) {
            q as i8
        } else {
            (-q) as i8
        }
    }

    fn is_zero(self) -> bool {
        self == 0
    }
}

impl Zero for i8 {
    fn zero() -> i8 {
        0
    }
}

impl Unit for i8 {
    fn unit() -> i8 {
        1
    }
}

impl Sqrt for i8 {
    fn sqrt(&self) -> i8 {
        if *self <= 0 {
            0
        } else {
            isqrt(*self as u64) as i8
        }
    }
}

impl Num for u16 {
    open spec fn as_int(self) -> int {
        self as int
    }

    open spec fn lo() -> int {
        0
    }

    open spec fn hi() -> int {
        u16::MAX as int
    }

    proof fn lemma_range(x: u16) {
    }

    fn plus(self, rhs: u16) -> u16 {
        self + rhs
    }

    fn minus(self, rhs: u16) -> u16 {
        self - rhs
    }

    fn times(self, rhs: u16) -> u16 {
        self * rhs
    }

    fn div_by(self, rhs: u16) -> u16 {
        self / rhs
    }

    fn is_zero(self) -> bool {
        self == 0
    }
}

impl Zero for u16 {
    fn zero() -> u16 {
        0
    }
}

impl Unit for u16 {
    fn unit() -> u16 {
        1
    }
}

impl Sqrt for u16 {
    fn sqrt(&self) -> u16 {
        isqrt(*self as u64) as u16
    }
}

impl Num for u32 {
    open spec fn as_int(self) -> int {
        self as int
    }

    open spec fn lo() -> int {
        0
    }

    open spec fn hi() -> int {
        u32::MAX as int
    }

    proof fn lemma_range(x: u32) {
    }

    fn plus(self, rhs: u32) -> u32 {
        self + rhs
    }

    fn minus(self, rhs: u32) -> u32 {
        self - rhs
    }

    fn times(self, rhs: u32) -> u32 {
        self * rhs
    }

    fn div_by(self, rhs: u32) -> u32 {
        self / rhs
    }

    fn is_zero(self) -> bool {
        self == 0
    }
}

impl Zero for u32 {
    fn zero() -> u32 {
        0
    }
}

impl Unit for u32 {
    fn unit() -> u32 {
        1
    }
}

impl Sqrt for u32 {
    fn sqrt(&self) -> u32 {
        isqrt(*self as u64) as u32
    }
}

impl Num for u64 {
    open spec fn as_int(self) -> int {
        self as int
    }

    open spec fn lo() -> int {
        0
    }

    open spec fn hi() -> int {
        u64::MAX as int
    }

    proof fn lemma_range(x: u64) {
    }

    fn plus(self, rhs: u64) -> u64 {
        self + rhs
    }

    fn minus(self, rhs: u64) -> u64 {
        self - rhs
    }

    fn times(self, rhs: u64) -> u64 {
        self * rhs
    }

    fn div_by(self, rhs: u64) -> u64 {
        self / rhs
    }

    fn is_zero(self) -> bool {
        self == 0
    }
}

impl Zero for u64 {
    fn zero() -> u64 {
        0
    }
}

impl Unit for u64 {
    fn unit() -> u64 {
        1
    }
}

impl Sqrt for u64 {
    fn sqrt(&self) -> u64 {
        isqrt(*self as u64) as u64
    }
}

impl Num for i16 {
    open spec fn as_int(self) -> int {
        self as int
    }

    open spec fn lo() -> int {
        i16::MIN as int
    }

    open spec fn hi() -> int {
        i16::MAX as int
    }

    proof fn lemma_range(x: i16) {
    }

    fn plus(self, rhs: i16) -> i16 {
        self + rhs
    }

    fn minus(self, rhs: i16) -> i16 {
        self - rhs
    }

    fn times(self, rhs: i16) -> i16 {
        self * rhs
    }

    fn div_by(self, rhs: i16) -> i16 {
        let a = self as i32;
        let b = rhs as i32;
        let ua = (if a < 0 { -a } else { a }) as u32;
        let ub = (if b < 0 { -b } else { b }) as u32;
        let q = (ua / ub) as i32;
        if (a < 0) == (b < 0) {
            q as i16
        } else {
            (-q) as i16
        }
    }

    fn is_zero(self) -> bool {
        self == 0
    }
}

impl Zero for i16 {
    fn zero() -> i16 {
        0
    }
}

impl Unit for i16 {
    fn unit() -> i16 {
        1
    }
}

impl Sqrt for i16 {
    fn sqrt(&self) -> i16 {
        if *self <= 0 {
            0
        } else {
            isqrt(*self as u64) as i16
        }
    }
}

impl Num for i32 {
    open spec fn as_int(self) -> int {
        self as int
    }

    open spec fn lo() -> int {
        i32::MIN as int
    }

    open spec fn hi() -> int {
        i32::MAX as int
    }

    proof fn lemma_range(x: i32) {
    }

    fn plus(self, rhs: i32) -> i32 {
        self + rhs
    }

    fn minus(self, rhs: i32) -> i32 {
        self - rhs
    }

    fn times(self, rhs: i32) -> i32 {
        self * rhs
    }

    fn div_by(self, rhs: i32) -> i32 {
        let a = self as i64;
        let b = rhs as i64;
        let ua = (if a < 0 { -a } else { a }) as u64;
        let ub = (if b < 0 { -b } else { b }) as u64;
        let q = (ua / ub) as i64;
        if (a < 0) == (b < 0) {
            q as i32
        } else {
            (-q) as i32
        }
    }

    fn is_zero(self) -> bool {
        self == 0
    }
}

impl Zero for i32 {
    fn zero() -> i32 {
        0
    }
}

impl Unit for i32 {
    fn unit() -> i32 {
        1
    }
}

impl Sqrt for i32 {
    fn sqrt(&self) -> i32 {
        if *self <= 0 {
            0
        } else {
            isqrt(*self as u64) as i32
        }
    }
}

impl Num for i64 {
    open spec fn as_int(self) -> int {
        self as int
    }

    open spec fn lo() -> int {
        i64::MIN as int
    }

    open spec fn hi() -> int {
        i64::MAX as int
    }

    proof fn lemma_range(x: i64) {
    }

    fn plus(self, rhs: i64) -> i64 {
        self + rhs
    }

    fn minus(self, rhs: i64) -> i64 {
        self - rhs
    }

    fn times(self, rhs: i64) -> i64 {
        self * rhs
    }

    fn div_by(self, rhs: i64) -> i64 {
        let a = self as i128;
        let b = rhs as i128;
        let ua = (if a < 0 { -a } else { a }) as u128;
        let ub = (if b < 0 { -b } else { b }) as u128;
        let q = (ua / ub) as i128;
        if (a < 0) == (b < 0) {
            q as i64
        } else {
            (-q) as i64
        }
    }

    fn is_zero(self) -> bool {
        self == 0
    }
}

impl Zero for i64 {
    fn zero() -> i64 {
        0
    }
}

impl Unit for i64 {
    fn unit() -> i64 {
        1
    }
}

impl Sqrt for i64 {
    fn sqrt(&self) -> i64 {
        if *self <= 0 {
            0
        } else {
            isqrt(*self as u64) as i64
        }
    }
}

} // verus!
