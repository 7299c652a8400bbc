//! The arithmetic of tensor elements.

use vstd::prelude::*;

verus! {

/// A number that tensors hold. What adding and multiplying come to is the
/// type's own affair: no law of arithmetic is taken for granted, so a sum is
/// always formed in one fixed order.
pub trait Element: Copy {
    spec fn nought() -> Self;

    spec fn plus(self, other: Self) -> Self;

    spec fn times(self, other: Self) -> Self;

    /// Zero.
    fn zero() -> (element: Self)
        ensures
            element == Self::nought(),
    ;

    /// The sum of two elements.
    fn sum(self, other: Self) -> (element: Self)
        ensures
            element == self.plus(other),
    ;

    /// The product of two elements.
    fn product(self, other: Self) -> (element: Self)
        ensures
            element == self.times(other),
    ;
}

/// Device integers wrap around.
impl Element for i32 {
    open spec fn nought() -> i32 {
        0
    }

    open spec fn plus(self, other: i32) -> i32 {
        self.wrapping_add(other)
    }

    open spec fn times(self, other: i32) -> i32 {
        self.wrapping_mul(other)
    }

    fn zero() -> i32 {
        0
    }

    fn sum(self, other: i32) -> i32 {
        self.wrapping_add(other)
    }

    fn product(self, other: i32) -> i32 {
        self.wrapping_mul(other)
    }
}

/// Device integers wrap around.
impl Element for i64 {
    open spec fn nought() -> i64 {
        0
    }

    open spec fn plus(self, other: i64) -> i64 {
        self.wrapping_add(other)
    }

    open spec fn times(self, other: i64) -> i64 {
        self.wrapping_mul(other)
    }

    fn zero() -> i64 {
        0
    }

    fn sum(self, other: i64) -> i64 {
        self.wrapping_add(other)
    }

    fn product(self, other: i64) -> i64 {
        self.wrapping_mul(other)
    }
}

/// Device integers wrap around.
impl Element for u32 {
    open spec fn nought() -> u32 {
        0
    }

    open spec fn plus(self, other: u32) -> u32 {
        self.wrapping_add(other)
    }

    open spec fn times(self, other: u32) -> u32 {
        self.wrapping_mul(other)
    }

    fn zero() -> u32 {
        0
    }

    fn sum(self, other: u32) -> u32 {
        self.wrapping_add(other)
    }

    fn product(self, other: u32) -> u32 {
        self.wrapping_mul(other)
    }
}

/// Device integers wrap around.
impl Element for u64 {
    open spec fn nought() -> u64 {
        0
    }

    open spec fn plus(self, other: u64) -> u64 {
        self.wrapping_add(other)
    }

    open spec fn times(self, other: u64) -> u64 {
        self.wrapping_mul(other)
    }

    fn zero() -> u64 {
        0
    }

    fn sum(self, other: u64) -> u64 {
        self.wrapping_add(other)
    }

    fn product(self, other: u64) -> u64 {
        self.wrapping_mul(other)
    }
}

/// Sums and products of `i32` elements are those of the numbers, up to whole
/// turns of the type, and zero is the number.
pub proof fn law_i32_elements_are_numbers(a: i32, b: i32, zero: i32, sum: i32, product: i32)
    requires
        call_ensures(<i32 as Element>::zero, (), zero),
        call_ensures(<i32 as Element>::sum, (a, b), sum),
        call_ensures(<i32 as Element>::product, (a, b), product),
    ensures
        zero == 0,
        zero == <i32 as Element>::nought(),
        sum == a.plus(b),
        product == a.times(b),
        (a + b - sum) % 0x1_0000_0000 == 0,
        (a * b - product) % 0x1_0000_0000 == 0,
        i32::MIN <= a + b <= i32::MAX ==> sum == a + b,
        i32::MIN <= a * b <= i32::MAX ==> product == a * b,
{
    let exact = a * b;
    let turns = exact / 0x1_0000_0000;
    assert(exact == turns * 0x1_0000_0000 + exact % 0x1_0000_0000);
}

/// Sums and products of `i64` elements are those of the numbers, up to whole
/// turns of the type, and zero is the number.
pub proof fn law_i64_elements_are_numbers(a: i64, b: i64, zero: i64, sum: i64, product: i64)
    requires
        call_ensures(<i64 as Element>::zero, (), zero),
        call_ensures(<i64 as Element>::sum, (a, b), sum),
        call_ensures(<i64 as Element>::product, (a, b), product),
    ensures
        zero == 0,
        zero == <i64 as Element>::nought(),
        sum == a.plus(b),
        product == a.times(b),
        (a + b - sum) % 0x1_0000_0000_0000_0000 == 0,
        (a * b - product) % 0x1_0000_0000_0000_0000 == 0,
        i64::MIN <= a + b <= i64::MAX ==> sum == a + b,
        i64::MIN <= a * b <= i64::MAX ==> product == a * b,
{
    let exact = a * b;
    let turns = exact / 0x1_0000_0000_0000_0000;
    assert(exact == turns * 0x1_0000_0000_0000_0000 + exact % 0x1_0000_0000_0000_0000);
}

/// Sums and products of `u32` elements are those of the numbers, up to whole
/// turns of the type, and zero is the number.
pub proof fn law_u32_elements_are_numbers(a: u32, b: u32, zero: u32, sum: u32, product: u32)
    requires
        call_ensures(<u32 as Element>::zero, (), zero),
        call_ensures(<u32 as Element>::sum, (a, b), sum),
        call_ensures(<u32 as Element>::product, (a, b), product),
    ensures
        zero == 0,
        zero == <u32 as Element>::nought(),
        sum == a.plus(b),
        product == a.times(b),
        (a + b - sum) % 0x1_0000_0000 == 0,
        (a * b - product) % 0x1_0000_0000 == 0,
        u32::MIN <= a + b <= u32::MAX ==> sum == a + b,
        u32::MIN <= a * b <= u32::MAX ==> product == a * b,
{
    let exact = a * b;
    let turns = exact / 0x1_0000_0000;
    assert(exact == turns * 0x1_0000_0000 + exact % 0x1_0000_0000);
}

/// Sums and products of `u64` elements are those of the numbers, up to whole
/// turns of the type, and zero is the number.
pub proof fn law_u64_elements_are_numbers(a: u64, b: u64, zero: u64, sum: u64, product: u64)
    requires
        call_ensures(<u64 as Element>::zero, (), zero),
        call_ensures(<u64 as Element>::sum, (a, b), sum),
        call_ensures(<u64 as Element>::product, (a, b), product),
    ensures
        zero == 0,
        zero == <u64 as Element>::nought(),
        sum == a.plus(b),
        product == a.times(b),
        (a + b - sum) % 0x1_0000_0000_0000_0000 == 0,
        (a * b - product) % 0x1_0000_0000_0000_0000 == 0,
        u64::MIN <= a + b <= u64::MAX ==> sum == a + b,
        u64::MIN <= a * b <= u64::MAX ==> product == a * b,
{
    let exact = a * b;
    let turns = exact / 0x1_0000_0000_0000_0000;
    assert(exact == turns * 0x1_0000_0000_0000_0000 + exact % 0x1_0000_0000_0000_0000);
}

} // verus!
