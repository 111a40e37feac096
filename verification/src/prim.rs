//! The fixed-width integers that the numeric traversals count in.

use vstd::prelude::*;

verus! {

/// A primitive integer type, seen through the mathematical integer that each
/// of its values stands for.
pub trait PrimInt: Copy + Sized {
    /// The integer that `self` stands for.
    spec fn value(self) -> int;

    /// The least integer that the type can hold.
    spec fn lowest() -> int;

    /// The greatest integer that the type can hold.
    spec fn highest() -> int;

    /// Every value lies within the type's range.
    proof fn within(self)
        ensures
            Self::lowest() <= self.value() <= Self::highest(),
    ;

    /// Two values that stand for one integer are one value.
    proof fn told_by_value(self, other: Self)
        requires
            self.value() == other.value(),
        ensures
            self == other,
    ;

    /// The value that stands for 0.
    fn zero() -> (z: Self)
        ensures
            z.value() == 0,
    ;

    /// The value that stands for 1.
    fn one() -> (o: Self)
        ensures
            o.value() == 1,
    ;

    /// Whether `self` stands for a smaller integer than `other`.
    fn less_than(self, other: Self) -> (b: bool)
        ensures
            b == (self.value() < other.value()),
    ;

    /// The sum, where the type can hold it.
    fn plus(self, other: Self) -> (sum: Self)
        requires
            Self::lowest() <= self.value() + other.value() <= Self::highest(),
        ensures
            sum.value() == self.value() + other.value(),
    ;

    /// The sum, or `None` where the type cannot hold it.
    fn checked_add(self, other: Self) -> (sum: Option<Self>)
        ensures
            match sum {
                Some(s) => s.value() == self.value() + other.value(),
                None => !(Self::lowest() <= self.value() + other.value() <= Self::highest()),
            },
    ;
}

impl PrimInt for i8 {
    open spec fn value(self) -> int {
        self as int
    }

    open spec fn lowest() -> int {
        i8::MIN as int
    }

    open spec fn highest() -> int {
        i8::MAX as int
    }

    proof fn within(self) {
    }

    proof fn told_by_value(self, other: Self) {
    }

    fn zero() -> i8 {
        0
    }

    fn one() -> i8 {
        1
    }

    fn less_than(self, other: i8) -> bool {
        self < other
    }

    fn plus(self, other: i8) -> i8 {
        self + other
    }

    fn checked_add(self, other: i8) -> Option<i8> {
        checked_add_i8(self, other)
    }
}

/// `CheckedAdd::checked_add` of the `num` crate at `i8`: the sum where it
/// lies between `i8::MIN` and `i8::MAX`, and `None` where it does not.
#[verifier::external_body]
fn checked_add_i8(a: i8, b: i8) -> (sum: Option<i8>)
    ensures
        sum == (if i8::MIN <= a + b <= i8::MAX {
            Some((a + b) as i8)
        } else {
            None
        }),
{
    num::traits::CheckedAdd::checked_add(&a, &b)
}

impl PrimInt for i16 {
    open spec fn value(self) -> int {
        self as int
    }

    open spec fn lowest() -> int {
        i16::MIN as int
    }

    open spec fn highest() -> int {
        i16::MAX as int
    }

    proof fn within(self) {
    }

    proof fn told_by_value(self, other: Self) {
    }

    fn zero() -> i16 {
        0
    }

    fn one() -> i16 {
        1
    }

    fn less_than(self, other: i16) -> bool {
        self < other
    }

    fn plus(self, other: i16) -> i16 {
        self + other
    }

    fn checked_add(self, other: i16) -> Option<i16> {
        checked_add_i16(self, other)
    }
}

/// `CheckedAdd::checked_add` of the `num` crate at `i16`: the sum where it
/// lies between `i16::MIN` and `i16::MAX`, and `None` where it does not.
#[verifier::external_body]
fn checked_add_i16(a: i16, b: i16) -> (sum: Option<i16>)
    ensures
        sum == (if i16::MIN <= a + b <= i16::MAX {
            Some((a + b) as i16)
        } else {
            None
        }),
{
    num::traits::CheckedAdd::checked_add(&a, &b)
}

impl PrimInt for i32 {
    open spec fn value(self) -> int {
        self as int
    }

    open spec fn lowest() -> int {
        i32::MIN as int
    }

    open spec fn highest() -> int {
        i32::MAX as int
    }

    proof fn within(self) {
    }

    proof fn told_by_value(self, other: Self) {
    }

    fn zero() -> i32 {
        0
    }

    fn one() -> i32 {
        1
    }

    fn less_than(self, other: i32) -> bool {
        self < other
    }

    fn plus(self, other: i32) -> i32 {
        self + other
    }

    fn checked_add(self, other: i32) -> Option<i32> {
        checked_add_i32(self, other)
    }
}

/// `CheckedAdd::checked_add` of the `num` crate at `i32`: the sum where it
/// lies between `i32::MIN` and `i32::MAX`, and `None` where it does not.
#[verifier::external_body]
fn checked_add_i32(a: i32, b: i32) -> (sum: Option<i32>)
    ensures
        sum == (if i32::MIN <= a + b <= i32::MAX {
            Some((a + b) as i32)
        } else {
            None
        }),
{
    num::traits::CheckedAdd::checked_add(&a, &b)
}

impl PrimInt for i64 {
    open spec fn value(self) -> int {
        self as int
    }

    open spec fn lowest() -> int {
        i64::MIN as int
    }

    open spec fn highest() -> int {
        i64::MAX as int
    }

    proof fn within(self) {
    }

    proof fn told_by_value(self, other: Self) {
    }

    fn zero() -> i64 {
        0
    }

    fn one() -> i64 {
        1
    }

    fn less_than(self, other: i64) -> bool {
        self < other
    }

    fn plus(self, other: i64) -> i64 {
        self + other
    }

    fn checked_add(self, other: i64) -> Option<i64> {
        checked_add_i64(self, other)
    }
}

/// `CheckedAdd::checked_add` of the `num` crate at `i64`: the sum where it
/// lies between `i64::MIN` and `i64::MAX`, and `None` where it does not.
#[verifier::external_body]
fn checked_add_i64(a: i64, b: i64) -> (sum: Option<i64>)
    ensures
        sum == (if i64::MIN <= a + b <= i64::MAX {
            Some((a + b) as i64)
        } else {
            None
        }),
{
    num::traits::CheckedAdd::checked_add(&a, &b)
}

impl PrimInt for i128 {
    open spec fn value(self) -> int {
        self as int
    }

    open spec fn lowest() -> int {
        i128::MIN as int
    }

    open spec fn highest() -> int {
        i128::MAX as int
    }

    proof fn within(self) {
    }

    proof fn told_by_value(self, other: Self) {
    }

    fn zero() -> i128 {
        0
    }

    fn one() -> i128 {
        1
    }

    fn less_than(self, other: i128) -> bool {
        self < other
    }

    fn plus(self, other: i128) -> i128 {
        self + other
    }

    fn checked_add(self, other: i128) -> Option<i128> {
        checked_add_i128(self, other)
    }
}

/// `CheckedAdd::checked_add` of the `num` crate at `i128`: the sum where it
/// lies between `i128::MIN` and `i128::MAX`, and `None` where it does not.
#[verifier::external_body]
fn checked_add_i128(a: i128, b: i128) -> (sum: Option<i128>)
    ensures
        sum == (if i128::MIN <= a + b <= i128::MAX {
            Some((a + b) as i128)
        } else {
            None
        }),
{
    num::traits::CheckedAdd::checked_add(&a, &b)
}

impl PrimInt for isize {
    open spec fn value(self) -> int {
        self as int
    }

    open spec fn lowest() -> int {
        isize::MIN as int
    }

    open spec fn highest() -> int {
        isize::MAX as int
    }

    proof fn within(self) {
    }

    proof fn told_by_value(self, other: Self) {
    }

    fn zero() -> isize {
        0
    }

    fn one() -> isize {
        1
    }

    fn less_than(self, other: isize) -> bool {
        self < other
    }

    fn plus(self, other: isize) -> isize {
        self + other
    }

    fn checked_add(self, other: isize) -> Option<isize> {
        checked_add_isize(self, other)
    }
}

/// `CheckedAdd::checked_add` of the `num` crate at `isize`: the sum where it
/// lies between `isize::MIN` and `isize::MAX`, and `None` where it does not.
#[verifier::external_body]
fn checked_add_isize(a: isize, b: isize) -> (sum: Option<isize>)
    ensures
        sum == (if isize::MIN <= a + b <= isize::MAX {
            Some((a + b) as isize)
        } else {
            None
        }),
{
    num::traits::CheckedAdd::checked_add(&a, &b)
}

impl PrimInt for u8 {
    open spec fn value(self) -> int {
        self as int
    }

    open spec fn lowest() -> int {
        u8::MIN as int
    }

    open spec fn highest() -> int {
        u8::MAX as int
    }

    proof fn within(self) {
    }

    proof fn told_by_value(self, other: Self) {
    }

    fn zero() -> u8 {
        0
    }

    fn one() -> u8 {
        1
    }

    fn less_than(self, other: u8) -> bool {
        self < other
    }

    fn plus(self, other: u8) -> u8 {
        self + other
    }

    fn checked_add(self, other: u8) -> Option<u8> {
        checked_add_u8(self, other)
    }
}

/// `CheckedAdd::checked_add` of the `num` crate at `u8`: the sum where it
/// lies between `u8::MIN` and `u8::MAX`, and `None` where it does not.
#[verifier::external_body]
fn checked_add_u8(a: u8, b: u8) -> (sum: Option<u8>)
    ensures
        sum == (if u8::MIN <= a + b <= u8::MAX {
            Some((a + b) as u8)
        } else {
            None
        }),
{
    num::traits::CheckedAdd::checked_add(&a, &b)
}

impl PrimInt for u16 {
    open spec fn value(self) -> int {
        self as int
    }

    open spec fn lowest() -> int {
        u16::MIN as int
    }

    open spec fn highest() -> int {
        u16::MAX as int
    }

    proof fn within(self) {
    }

    proof fn told_by_value(self, other: Self) {
    }

    fn zero() -> u16 {
        0
    }

    fn one() -> u16 {
        1
    }

    fn less_than(self, other: u16) -> bool {
        self < other
    }

    fn plus(self, other: u16) -> u16 {
        self + other
    }

    fn checked_add(self, other: u16) -> Option<u16> {
        checked_add_u16(self, other)
    }
}

/// `CheckedAdd::checked_add` of the `num` crate at `u16`: the sum where it
/// lies between `u16::MIN` and `u16::MAX`, and `None` where it does not.
#[verifier::external_body]
fn checked_add_u16(a: u16, b: u16) -> (sum: Option<u16>)
    ensures
        sum == (if u16::MIN <= a + b <= u16::MAX {
            Some((a + b) as u16)
        } else {
            None
        }),
{
    num::traits::CheckedAdd::checked_add(&a, &b)
}

impl PrimInt for u32 {
    open spec fn value(self) -> int {
        self as int
    }

    open spec fn lowest() -> int {
        u32::MIN as int
    }

    open spec fn highest() -> int {
        u32::MAX as int
    }

    proof fn within(self) {
    }

    proof fn told_by_value(self, other: Self) {
    }

    fn zero() -> u32 {
        0
    }

    fn one() -> u32 {
        1
    }

    fn less_than(self, other: u32) -> bool {
        self < other
    }

    fn plus(self, other: u32) -> u32 {
        self + other
    }

    fn checked_add(self, other: u32) -> Option<u32> {
        checked_add_u32(self, other)
    }
}

/// `CheckedAdd::checked_add` of the `num` crate at `u32`: the sum where it
/// lies between `u32::MIN` and `u32::MAX`, and `None` where it does not.
#[verifier::external_body]
fn checked_add_u32(a: u32, b: u32) -> (sum: Option<u32>)
    ensures
        sum == (if u32::MIN <= a + b <= u32::MAX {
            Some((a + b) as u32)
        } else {
            None
        }),
{
    num::traits::CheckedAdd::checked_add(&a, &b)
}

impl PrimInt for u64 {
    open spec fn value(self) -> int {
        self as int
    }

    open spec fn lowest() -> int {
        u64::MIN as int
    }

    open spec fn highest() -> int {
        u64::MAX as int
    }

    proof fn within(self) {
    }

    proof fn told_by_value(self, other: Self) {
    }

    fn zero() -> u64 {
        0
    }

    fn one() -> u64 {
        1
    }

    fn less_than(self, other: u64) -> bool {
        self < other
    }

    fn plus(self, other: u64) -> u64 {
        self + other
    }

    fn checked_add(self, other: u64) -> Option<u64> {
        checked_add_u64(self, other)
    }
}

/// `CheckedAdd::checked_add` of the `num` crate at `u64`: the sum where it
/// lies between `u64::MIN` and `u64::MAX`, and `None` where it does not.
#[verifier::external_body]
fn checked_add_u64(a: u64, b: u64) -> (sum: Option<u64>)
    ensures
        sum == (if u64::MIN <= a + b <= u64::MAX {
            Some((a + b) as u64)
        } else {
            None
        }),
{
    num::traits::CheckedAdd::checked_add(&a, &b)
}

impl PrimInt for u128 {
    open spec fn value(self) -> int {
        self as int
    }

    open spec fn lowest() -> int {
        u128::MIN as int
    }

    open spec fn highest() -> int {
        u128::MAX as int
    }

    proof fn within(self) {
    }

    proof fn told_by_value(self, other: Self) {
    }

    fn zero() -> u128 {
        0
    }

    fn one() -> u128 {
        1
    }

    fn less_than(self, other: u128) -> bool {
        self < other
    }

    fn plus(self, other: u128) -> u128 {
        self + other
    }

    fn checked_add(self, other: u128) -> Option<u128> {
        checked_add_u128(self, other)
    }
}

/// `CheckedAdd::checked_add` of the `num` crate at `u128`: the sum where it
/// lies between `u128::MIN` and `u128::MAX`, and `None` where it does not.
#[verifier::external_body]
fn checked_add_u128(a: u128, b: u128) -> (sum: Option<u128>)
    ensures
        sum == (if u128::MIN <= a + b <= u128::MAX {
            Some((a + b) as u128)
        } else {
            None
        }),
{
    num::traits::CheckedAdd::checked_add(&a, &b)
}

impl PrimInt for usize {
    open spec fn value(self) -> int {
        self as int
    }

    open spec fn lowest() -> int {
        usize::MIN as int
    }

    open spec fn highest() -> int {
        usize::MAX as int
    }

    proof fn within(self) {
    }

    proof fn told_by_value(self, other: Self) {
    }

    fn zero() -> usize {
        0
    }

    fn one() -> usize {
        1
    }

    fn less_than(self, other: usize) -> bool {
        self < other
    }

    fn plus(self, other: usize) -> usize {
        self + other
    }

    fn checked_add(self, other: usize) -> Option<usize> {
        checked_add_usize(self, other)
    }
}

/// `CheckedAdd::checked_add` of the `num` crate at `usize`: the sum where it
/// lies between `usize::MIN` and `usize::MAX`, and `None` where it does not.
#[verifier::external_body]
fn checked_add_usize(a: usize, b: usize) -> (sum: Option<usize>)
    ensures
        sum == (if usize::MIN <= a + b <= usize::MAX {
            Some((a + b) as usize)
        } else {
            None
        }),
{
    num::traits::CheckedAdd::checked_add(&a, &b)
}

} // verus!
