//! Weights: the values a weighted sampling tree adds up.

use vstd::prelude::*;

verus! {

/// The place in `0 .. bound` that a 64-bit draw falls on when the range of draws is
/// mapped evenly onto `0 .. bound`.
pub open spec fn scaled(draw: u64, bound: int) -> int {
    (draw as int * bound) / 0x1_0000_0000_0000_0000
}

/// A scaled draw lies in `0 .. bound`.
pub proof fn lemma_scaled_in_range(draw: u64, bound: int)
    requires
        bound > 0,
    ensures
        0 <= scaled(draw, bound) < bound,
{
    let d = draw as int;
    assert(0 <= d * bound) by (nonlinear_arith)
        requires
            0 <= d,
            0 < bound,
    ;
    assert(d * bound < 0x1_0000_0000_0000_0000 * bound) by (nonlinear_arith)
        requires
            d < 0x1_0000_0000_0000_0000,
            0 < bound,
    ;
    assert((d * bound) / 0x1_0000_0000_0000_0000 < bound) by (nonlinear_arith)
        requires
            d * bound < 0x1_0000_0000_0000_0000 * bound,
    ;
}

/// Scaling a draw onto a bound of up to 128 bits, by the halves of the bound: with the
/// bound `high * 2^64 + low`, the place is `draw * high` plus the place of the draw in
/// `low`. Neither product nor the sum leaves 128 bits.
pub proof fn lemma_scaled_wide(draw: u64, high: int, low: int)
    requires
        0 <= high < 0x1_0000_0000_0000_0000,
        0 <= low < 0x1_0000_0000_0000_0000,
        high * 0x1_0000_0000_0000_0000 + low > 0,
    ensures
        scaled(draw, high * 0x1_0000_0000_0000_0000 + low) == draw * high + (draw * low)
            / 0x1_0000_0000_0000_0000,
        0 <= draw * high <= 0xffff_ffff_ffff_ffff * 0xffff_ffff_ffff_ffff,
        0 <= draw * low <= 0xffff_ffff_ffff_ffff * 0xffff_ffff_ffff_ffff,
        0 <= draw * high + (draw * low) / 0x1_0000_0000_0000_0000 < high
            * 0x1_0000_0000_0000_0000 + low,
{
    let d = draw as int;
    let two64 = 0x1_0000_0000_0000_0000int;
    let bound = high * two64 + low;
    lemma_scaled_in_range(draw, bound);
    assert(d * bound == d * low + (d * high) * two64) by (nonlinear_arith)
        requires
            bound == high * two64 + low,
    ;
    vstd::arithmetic::div_mod::lemma_hoist_over_denominator(d * low, d * high, two64 as nat);
    assert(0 <= d * high <= 0xffff_ffff_ffff_ffff * 0xffff_ffff_ffff_ffff) by (nonlinear_arith)
        requires
            0 <= d <= 0xffff_ffff_ffff_ffff,
            0 <= high <= 0xffff_ffff_ffff_ffff,
    ;
    assert(0 <= d * low <= 0xffff_ffff_ffff_ffff * 0xffff_ffff_ffff_ffff) by (nonlinear_arith)
        requires
            0 <= d <= 0xffff_ffff_ffff_ffff,
            0 <= low <= 0xffff_ffff_ffff_ffff,
    ;
}

/// A weight type: a bounded integer with overflow-detecting addition.
///
/// Every weight stands for a mathematical integer, its `value`. The representable values
/// form the interval `min_value() ..= max_value()`, which always contains zero.
pub trait Weight: Sized + Copy {
    /// The integer this weight stands for.
    spec fn value(self) -> int;

    /// The least representable value.
    spec fn min_value() -> int;

    /// The greatest representable value.
    spec fn max_value() -> int;

    /// Every weight lies in the representable interval.
    proof fn lemma_bounds(self)
        ensures
            Self::min_value() <= self.value() <= Self::max_value(),
    ;

    /// Zero is representable.
    proof fn zero_is_representable()
        ensures
            Self::min_value() <= 0 <= Self::max_value(),
    ;

    /// Two weights that stand for the same integer are the same weight.
    proof fn lemma_value_injective(a: Self, b: Self)
        requires
            a.value() == b.value(),
        ensures
            a == b,
    ;

    /// The weight that stands for zero.
    fn zero() -> (z: Self)
        ensures
            z.value() == 0,
    ;

    /// Whether `self` stands for a smaller integer than `rhs`.
    fn less_than(&self, rhs: &Self) -> (b: bool)
        ensures
            b == (self.value() < rhs.value()),
    ;

    /// The sum, or `None` when it is not representable.
    fn checked_add(&self, rhs: &Self) -> (sum: Option<Self>)
        ensures
            sum is Some <==> Self::min_value() <= self.value() + rhs.value() <= Self::max_value(),
            sum matches Some(s) ==> s.value() == self.value() + rhs.value(),
    ;

    /// The difference of two weights whose difference is representable.
    fn minus(&self, rhs: &Self) -> (diff: Self)
        requires
            Self::min_value() <= self.value() - rhs.value() <= Self::max_value(),
        ensures
            diff.value() == self.value() - rhs.value(),
    ;

    /// Maps a 64-bit draw evenly onto the weights below `bound`.
    fn scale(draw: u64, bound: &Self) -> (place: Self)
        requires
            bound.value() > 0,
        ensures
            place.value() == scaled(draw, bound.value()),
    ;
}

impl Weight for i32 {
    open spec fn value(self) -> int {
        self as int
    }

    open spec fn min_value() -> int {
        i32::MIN as int
    }

    open spec fn max_value() -> int {
        i32::MAX as int
    }

    proof fn lemma_bounds(self) {
    }

    proof fn zero_is_representable() {
    }

    proof fn lemma_value_injective(a: Self, b: Self) {
    }

    fn zero() -> (z: Self) {
        0i32
    }

    fn less_than(&self, rhs: &Self) -> (b: bool) {
        *self < *rhs
    }

    fn checked_add(&self, rhs: &Self) -> (sum: Option<Self>) {
        i32::checked_add(*self, *rhs)
    }

    fn minus(&self, rhs: &Self) -> (diff: Self) {
        *self - *rhs
    }

    fn scale(draw: u64, bound: &Self) -> (place: Self) {
        proof {
            let d = draw as int;
            let b = *bound as int;
            lemma_scaled_in_range(draw, b);
            assert(0 <= d * b < 0x1_0000_0000_0000_0000 * 0x8000_0000) by (nonlinear_arith)
                requires
                    0 <= d < 0x1_0000_0000_0000_0000,
                    0 < b < 0x8000_0000,
            ;
        }
        let wide: u128 = (draw as u128) * (*bound as u128);
        (wide / 0x1_0000_0000_0000_0000u128) as i32
    }
}

impl Weight for i64 {
    open spec fn value(self) -> int {
        self as int
    }

    open spec fn min_value() -> int {
        i64::MIN as int
    }

    open spec fn max_value() -> int {
        i64::MAX as int
    }

    proof fn lemma_bounds(self) {
    }

    proof fn zero_is_representable() {
    }

    proof fn lemma_value_injective(a: Self, b: Self) {
    }

    fn zero() -> (z: Self) {
        0
    }

    fn less_than(&self, rhs: &Self) -> (b: bool) {
        *self < *rhs
    }

    fn checked_add(&self, rhs: &Self) -> (sum: Option<Self>) {
        i64::checked_add(*self, *rhs)
    }

    fn minus(&self, rhs: &Self) -> (diff: Self) {
        *self - *rhs
    }

    fn scale(draw: u64, bound: &Self) -> (place: Self) {
        proof {
            let d = draw as int;
            let b = *bound as int;
            lemma_scaled_in_range(draw, b);
            assert(0 <= d * b < 0x1_0000_0000_0000_0000 * 0x8000_0000_0000_0000) by (nonlinear_arith)
                requires
                    0 <= d < 0x1_0000_0000_0000_0000,
                    0 < b < 0x8000_0000_0000_0000,
            ;
        }
        let wide: u128 = (draw as u128) * (*bound as u128);
        (wide / 0x1_0000_0000_0000_0000u128) as i64
    }
}

impl Weight for u32 {
    open spec fn value(self) -> int {
        self as int
    }

    open spec fn min_value() -> int {
        u32::MIN as int
    }

    open spec fn max_value() -> int {
        u32::MAX as int
    }

    proof fn lemma_bounds(self) {
    }

    proof fn zero_is_representable() {
    }

    proof fn lemma_value_injective(a: Self, b: Self) {
    }

    fn zero() -> (z: Self) {
        0
    }

    fn less_than(&self, rhs: &Self) -> (b: bool) {
        *self < *rhs
    }

    fn checked_add(&self, rhs: &Self) -> (sum: Option<Self>) {
        u32::checked_add(*self, *rhs)
    }

    fn minus(&self, rhs: &Self) -> (diff: Self) {
        *self - *rhs
    }

    fn scale(draw: u64, bound: &Self) -> (place: Self) {
        proof {
            let d = draw as int;
            let b = *bound as int;
            lemma_scaled_in_range(draw, b);
            assert(0 <= d * b < 0x1_0000_0000_0000_0000 * 0x1_0000_0000) by (nonlinear_arith)
                requires
                    0 <= d < 0x1_0000_0000_0000_0000,
                    0 < b < 0x1_0000_0000,
            ;
        }
        let wide: u128 = (draw as u128) * (*bound as u128);
        (wide / 0x1_0000_0000_0000_0000u128) as u32
    }
}

impl Weight for u64 {
    open spec fn value(self) -> int {
        self as int
    }

    open spec fn min_value() -> int {
        u64::MIN as int
    }

    open spec fn max_value() -> int {
        u64::MAX as int
    }

    proof fn lemma_bounds(self) {
    }

    proof fn zero_is_representable() {
    }

    proof fn lemma_value_injective(a: Self, b: Self) {
    }

    fn zero() -> (z: Self) {
        0
    }

    fn less_than(&self, rhs: &Self) -> (b: bool) {
        *self < *rhs
    }

    fn checked_add(&self, rhs: &Self) -> (sum: Option<Self>) {
        u64::checked_add(*self, *rhs)
    }

    fn minus(&self, rhs: &Self) -> (diff: Self) {
        *self - *rhs
    }

    fn scale(draw: u64, bound: &Self) -> (place: Self) {
        proof {
            let d = draw as int;
            let b = *bound as int;
            lemma_scaled_in_range(draw, b);
            assert(0 <= d * b < 0x1_0000_0000_0000_0000 * 0x1_0000_0000_0000_0000) by (nonlinear_arith)
                requires
                    0 <= d < 0x1_0000_0000_0000_0000,
                    0 < b < 0x1_0000_0000_0000_0000,
            ;
        }
        let wide: u128 = (draw as u128) * (*bound as u128);
        (wide / 0x1_0000_0000_0000_0000u128) as u64
    }
}

impl Weight for i8 {
    open spec fn value(self) -> int {
        self as int
    }

    open spec fn min_value() -> int {
        i8::MIN as int
    }

    open spec fn max_value() -> int {
        i8::MAX as int
    }

    proof fn lemma_bounds(self) {
    }

    proof fn zero_is_representable() {
    }

    proof fn lemma_value_injective(a: Self, b: Self) {
    }

    fn zero() -> (z: Self) {
        0
    }

    fn less_than(&self, rhs: &Self) -> (b: bool) {
        *self < *rhs
    }

    fn checked_add(&self, rhs: &Self) -> (sum: Option<Self>) {
        i8::checked_add(*self, *rhs)
    }

    fn minus(&self, rhs: &Self) -> (diff: Self) {
        *self - *rhs
    }

    fn scale(draw: u64, bound: &Self) -> (place: Self) {
        proof {
            let d = draw as int;
            let b = *bound as int;
            lemma_scaled_in_range(draw, b);
            assert(0 <= d * b < 0x1_0000_0000_0000_0000 * 0x80) by (nonlinear_arith)
                requires
                    0 <= d < 0x1_0000_0000_0000_0000,
                    0 < b < 0x80,
            ;
        }
        let wide: u128 = (draw as u128) * (*bound as u128);
        (wide / 0x1_0000_0000_0000_0000u128) as i8
    }
}

impl Weight for i16 {
    open spec fn value(self) -> int {
        self as int
    }

    open spec fn min_value() -> int {
        i16::MIN as int
    }

    open spec fn max_value() -> int {
        i16::MAX as int
    }

    proof fn lemma_bounds(self) {
    }

    proof fn zero_is_representable() {
    }

    proof fn lemma_value_injective(a: Self, b: Self) {
    }

    fn zero() -> (z: Self) {
        0
    }

    fn less_than(&self, rhs: &Self) -> (b: bool) {
        *self < *rhs
    }

    fn checked_add(&self, rhs: &Self) -> (sum: Option<Self>) {
        i16::checked_add(*self, *rhs)
    }

    fn minus(&self, rhs: &Self) -> (diff: Self) {
        *self - *rhs
    }

    fn scale(draw: u64, bound: &Self) -> (place: Self) {
        proof {
            let d = draw as int;
            let b = *bound as int;
            lemma_scaled_in_range(draw, b);
            assert(0 <= d * b < 0x1_0000_0000_0000_0000 * 0x8000) by (nonlinear_arith)
                requires
                    0 <= d < 0x1_0000_0000_0000_0000,
                    0 < b < 0x8000,
            ;
        }
        let wide: u128 = (draw as u128) * (*bound as u128);
        (wide / 0x1_0000_0000_0000_0000u128) as i16
    }
}

impl Weight for isize {
    open spec fn value(self) -> int {
        self as int
    }

    open spec fn min_value() -> int {
        isize::MIN as int
    }

    open spec fn max_value() -> int {
        isize::MAX as int
    }

    proof fn lemma_bounds(self) {
    }

    proof fn zero_is_representable() {
    }

    proof fn lemma_value_injective(a: Self, b: Self) {
    }

    fn zero() -> (z: Self) {
        0
    }

    fn less_than(&self, rhs: &Self) -> (b: bool) {
        *self < *rhs
    }

    fn checked_add(&self, rhs: &Self) -> (sum: Option<Self>) {
        isize::checked_add(*self, *rhs)
    }

    fn minus(&self, rhs: &Self) -> (diff: Self) {
        *self - *rhs
    }

    fn scale(draw: u64, bound: &Self) -> (place: Self) {
        proof {
            let d = draw as int;
            let b = *bound as int;
            lemma_scaled_in_range(draw, b);
            assert(0 <= d * b < 0x1_0000_0000_0000_0000 * 0x8000_0000_0000_0000) by (nonlinear_arith)
                requires
                    0 <= d < 0x1_0000_0000_0000_0000,
                    0 < b < 0x8000_0000_0000_0000,
            ;
        }
        let wide: u128 = (draw as u128) * (*bound as u128);
        (wide / 0x1_0000_0000_0000_0000u128) as isize
    }
}

impl Weight for u8 {
    open spec fn value(self) -> int {
        self as int
    }

    open spec fn min_value() -> int {
        u8::MIN as int
    }

    open spec fn max_value() -> int {
        u8::MAX as int
    }

    proof fn lemma_bounds(self) {
    }

    proof fn zero_is_representable() {
    }

    proof fn lemma_value_injective(a: Self, b: Self) {
    }

    fn zero() -> (z: Self) {
        0
    }

    fn less_than(&self, rhs: &Self) -> (b: bool) {
        *self < *rhs
    }

    fn checked_add(&self, rhs: &Self) -> (sum: Option<Self>) {
        u8::checked_add(*self, *rhs)
    }

    fn minus(&self, rhs: &Self) -> (diff: Self) {
        *self - *rhs
    }

    fn scale(draw: u64, bound: &Self) -> (place: Self) {
        proof {
            let d = draw as int;
            let b = *bound as int;
            lemma_scaled_in_range(draw, b);
            assert(0 <= d * b < 0x1_0000_0000_0000_0000 * 0x100) by (nonlinear_arith)
                requires
                    0 <= d < 0x1_0000_0000_0000_0000,
                    0 < b < 0x100,
            ;
        }
        let wide: u128 = (draw as u128) * (*bound as u128);
        (wide / 0x1_0000_0000_0000_0000u128) as u8
    }
}

impl Weight for u16 {
    open spec fn value(self) -> int {
        self as int
    }

    open spec fn min_value() -> int {
        u16::MIN as int
    }

    open spec fn max_value() -> int {
        u16::MAX as int
    }

    proof fn lemma_bounds(self) {
    }

    proof fn zero_is_representable() {
    }

    proof fn lemma_value_injective(a: Self, b: Self) {
    }

    fn zero() -> (z: Self) {
        0
    }

    fn less_than(&self, rhs: &Self) -> (b: bool) {
        *self < *rhs
    }

    fn checked_add(&self, rhs: &Self) -> (sum: Option<Self>) {
        u16::checked_add(*self, *rhs)
    }

    fn minus(&self, rhs: &Self) -> (diff: Self) {
        *self - *rhs
    }

    fn scale(draw: u64, bound: &Self) -> (place: Self) {
        proof {
            let d = draw as int;
            let b = *bound as int;
            lemma_scaled_in_range(draw, b);
            assert(0 <= d * b < 0x1_0000_0000_0000_0000 * 0x1_0000) by (nonlinear_arith)
                requires
                    0 <= d < 0x1_0000_0000_0000_0000,
                    0 < b < 0x1_0000,
            ;
        }
        let wide: u128 = (draw as u128) * (*bound as u128);
        (wide / 0x1_0000_0000_0000_0000u128) as u16
    }
}

impl Weight for usize {
    open spec fn value(self) -> int {
        self as int
    }

    open spec fn min_value() -> int {
        usize::MIN as int
    }

    open spec fn max_value() -> int {
        usize::MAX as int
    }

    proof fn lemma_bounds(self) {
    }

    proof fn zero_is_representable() {
    }

    proof fn lemma_value_injective(a: Self, b: Self) {
    }

    fn zero() -> (z: Self) {
        0
    }

    fn less_than(&self, rhs: &Self) -> (b: bool) {
        *self < *rhs
    }

    fn checked_add(&self, rhs: &Self) -> (sum: Option<Self>) {
        usize::checked_add(*self, *rhs)
    }

    fn minus(&self, rhs: &Self) -> (diff: Self) {
        *self - *rhs
    }

    fn scale(draw: u64, bound: &Self) -> (place: Self) {
        proof {
            let d = draw as int;
            let b = *bound as int;
            lemma_scaled_in_range(draw, b);
            assert(0 <= d * b < 0x1_0000_0000_0000_0000 * 0x1_0000_0000_0000_0000) by (nonlinear_arith)
                requires
                    0 <= d < 0x1_0000_0000_0000_0000,
                    0 < b < 0x1_0000_0000_0000_0000,
            ;
        }
        let wide: u128 = (draw as u128) * (*bound as u128);
        (wide / 0x1_0000_0000_0000_0000u128) as usize
    }
}

impl Weight for i128 {
    open spec fn value(self) -> int {
        self as int
    }

    open spec fn min_value() -> int {
        i128::MIN as int
    }

    open spec fn max_value() -> int {
        i128::MAX as int
    }

    proof fn lemma_bounds(self) {
    }

    proof fn zero_is_representable() {
    }

    proof fn lemma_value_injective(a: Self, b: Self) {
    }

    fn zero() -> (z: Self) {
        0
    }

    fn less_than(&self, rhs: &Self) -> (b: bool) {
        *self < *rhs
    }

    fn checked_add(&self, rhs: &Self) -> (sum: Option<Self>) {
        i128::checked_add(*self, *rhs)
    }

    fn minus(&self, rhs: &Self) -> (diff: Self) {
        *self - *rhs
    }

    /// The bound is taken apart into its high and low 64 bits, so that no product
    /// leaves 128 bits.
    fn scale(draw: u64, bound: &Self) -> (place: Self) {
        let whole = *bound as u128;
        let high = whole / 0x1_0000_0000_0000_0000u128;
        let low = whole % 0x1_0000_0000_0000_0000u128;
        let d = draw as u128;
        proof {
            lemma_scaled_wide(draw, high as int, low as int);
        }
        (d * high + (d * low) / 0x1_0000_0000_0000_0000u128) as i128
    }
}

impl Weight for u128 {
    open spec fn value(self) -> int {
        self as int
    }

    open spec fn min_value() -> int {
        u128::MIN as int
    }

    open spec fn max_value() -> int {
        u128::MAX as int
    }

    proof fn lemma_bounds(self) {
    }

    proof fn zero_is_representable() {
    }

    proof fn lemma_value_injective(a: Self, b: Self) {
    }

    fn zero() -> (z: Self) {
        0
    }

    fn less_than(&self, rhs: &Self) -> (b: bool) {
        *self < *rhs
    }

    fn checked_add(&self, rhs: &Self) -> (sum: Option<Self>) {
        u128::checked_add(*self, *rhs)
    }

    fn minus(&self, rhs: &Self) -> (diff: Self) {
        *self - *rhs
    }

    /// The bound is taken apart into its high and low 64 bits, so that no product
    /// leaves 128 bits.
    fn scale(draw: u64, bound: &Self) -> (place: Self) {
        let whole = *bound as u128;
        let high = whole / 0x1_0000_0000_0000_0000u128;
        let low = whole % 0x1_0000_0000_0000_0000u128;
        let d = draw as u128;
        proof {
            lemma_scaled_wide(draw, high as int, low as int);
        }
        (d * high + (d * low) / 0x1_0000_0000_0000_0000u128) as u128
    }
}

} // verus!
