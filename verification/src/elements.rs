//! What the library asks of element types: an additive identity, a
//! multiplicative identity, and (for the algebra in `derivers`) the usual
//! behaviour of the arithmetic operators around those identities. Every
//! primitive integer type satisfies all of it.
use vstd::prelude::*;

use vstd::std_specs::cmp::PartialEqSpec;
use vstd::std_specs::ops::AddSpec;
use vstd::std_specs::ops::DivSpec;
use vstd::std_specs::ops::MulSpec;
use vstd::std_specs::ops::SubSpec;

verus! {

/// A type with an additive identity.
pub trait Zero: Sized + Copy {
    /// The additive identity as a specification-level value.
    spec fn zero_spec() -> Self;

    /// Returns the additive identity.
    fn zero() -> (r: Self)
        ensures
            r == Self::zero_spec(),
    ;

    /// Whether this value is the additive identity.
    fn is_zero(&self) -> (r: bool)
        ensures
            r == (*self == Self::zero_spec()),
    ;
}

/// A type with a multiplicative identity.
pub trait One: Sized + Copy {
    /// The multiplicative identity as a specification-level value.
    spec fn one_spec() -> Self;

    /// Returns the multiplicative identity.
    fn one() -> (r: Self)
        ensures
            r == Self::one_spec(),
    ;
}

/// An element type the algebra can compute with: it has both identities,
/// the arithmetic operators, and those operators behave as usual around
/// zero and one. Every primitive integer type is an instance.
pub trait Num: Zero + One + PartialEq + core::ops::Add<Output = Self> + core::ops::Sub<
    Output = Self,
> + core::ops::Mul<Output = Self> + core::ops::Div<Output = Self> + Copy {
    /// The arithmetic operators follow their specifications, the identities
    /// absorb or vanish as usual, and none of these uses can overflow.
    proof fn properties()
        ensures
            Self::obeys_add_spec(),
            Self::obeys_sub_spec(),
            Self::obeys_mul_spec(),
            Self::obeys_div_spec(),
            forall|x: Self| (#[trigger] x.add_spec(Self::zero_spec())) == x,
            forall|x: Self| #[trigger] x.add_req(Self::zero_spec()),
            forall|x: Self| (#[trigger] Self::zero_spec().add_spec(x)) == x,
            forall|x: Self| #[trigger] Self::zero_spec().add_req(x),
            forall|x: Self| (#[trigger] x.sub_spec(Self::zero_spec())) == x,
            forall|x: Self| #[trigger] x.sub_req(Self::zero_spec()),
            forall|x: Self| (#[trigger] x.mul_spec(Self::zero_spec())) == Self::zero_spec(),
            forall|x: Self| #[trigger] x.mul_req(Self::zero_spec()),
            forall|x: Self| (#[trigger] Self::zero_spec().mul_spec(x)) == Self::zero_spec(),
            forall|x: Self| #[trigger] Self::zero_spec().mul_req(x),
            forall|x: Self| (#[trigger] x.mul_spec(Self::one_spec())) == x,
            forall|x: Self| #[trigger] x.mul_req(Self::one_spec()),
            forall|x: Self| (#[trigger] Self::one_spec().mul_spec(x)) == x,
            forall|x: Self| #[trigger] Self::one_spec().mul_req(x),
            forall|x: Self| x != Self::zero_spec() ==> #[trigger] Self::one_spec().div_req(x),
            Self::obeys_eq_spec(),
            forall|x: Self, y: Self| #[trigger] x.eq_spec(&y) <==> x == y,
    ;
}

impl Num for u8 {
    proof fn properties() {
    }
}

impl Num for u16 {
    proof fn properties() {
    }
}

impl Num for u32 {
    proof fn properties() {
    }
}

impl Num for u64 {
    proof fn properties() {
    }
}

impl Num for u128 {
    proof fn properties() {
    }
}

impl Num for usize {
    proof fn properties() {
    }
}

impl Num for i8 {
    proof fn properties() {
    }
}

impl Num for i16 {
    proof fn properties() {
    }
}

impl Num for i32 {
    proof fn properties() {
    }
}

impl Num for i64 {
    proof fn properties() {
    }
}

impl Num for i128 {
    proof fn properties() {
    }
}

impl Num for isize {
    proof fn properties() {
    }
}

impl Zero for u8 {
    open spec fn zero_spec() -> u8 {
        0u8
    }

    fn zero() -> u8 {
        0
    }

    fn is_zero(&self) -> bool {
        *self == 0
    }
}

impl One for u8 {
    open spec fn one_spec() -> u8 {
        1u8
    }

    fn one() -> u8 {
        1
    }
}

impl Zero for u16 {
    open spec fn zero_spec() -> u16 {
        0u16
    }

    fn zero() -> u16 {
        0
    }

    fn is_zero(&self) -> bool {
        *self == 0
    }
}

impl One for u16 {
    open spec fn one_spec() -> u16 {
        1u16
    }

    fn one() -> u16 {
        1
    }
}

impl Zero for u32 {
    open spec fn zero_spec() -> u32 {
        0u32
    }

    fn zero() -> u32 {
        0
    }

    fn is_zero(&self) -> bool {
        *self == 0
    }
}

impl One for u32 {
    open spec fn one_spec() -> u32 {
        1u32
    }

    fn one() -> u32 {
        1
    }
}

impl Zero for u64 {
    open spec fn zero_spec() -> u64 {
        0u64
    }

    fn zero() -> u64 {
        0
    }

    fn is_zero(&self) -> bool {
        *self == 0
    }
}

impl One for u64 {
    open spec fn one_spec() -> u64 {
        1u64
    }

    fn one() -> u64 {
        1
    }
}

impl Zero for u128 {
    open spec fn zero_spec() -> u128 {
        0u128
    }

    fn zero() -> u128 {
        0
    }

    fn is_zero(&self) -> bool {
        *self == 0
    }
}

impl One for u128 {
    open spec fn one_spec() -> u128 {
        1u128
    }

    fn one() -> u128 {
        1
    }
}

impl Zero for usize {
    open spec fn zero_spec() -> usize {
        0usize
    }

    fn zero() -> usize {
        0
    }

    fn is_zero(&self) -> bool {
        *self == 0
    }
}

impl One for usize {
    open spec fn one_spec() -> usize {
        1usize
    }

    fn one() -> usize {
        1
    }
}

impl Zero for i8 {
    open spec fn zero_spec() -> i8 {
        0i8
    }

    fn zero() -> i8 {
        0
    }

    fn is_zero(&self) -> bool {
        *self == 0
    }
}

impl One for i8 {
    open spec fn one_spec() -> i8 {
        1i8
    }

    fn one() -> i8 {
        1
    }
}

impl Zero for i16 {
    open spec fn zero_spec() -> i16 {
        0i16
    }

    fn zero() -> i16 {
        0
    }

    fn is_zero(&self) -> bool {
        *self == 0
    }
}

impl One for i16 {
    open spec fn one_spec() -> i16 {
        1i16
    }

    fn one() -> i16 {
        1
    }
}

impl Zero for i32 {
    open spec fn zero_spec() -> i32 {
        0i32
    }

    fn zero() -> i32 {
        0
    }

    fn is_zero(&self) -> bool {
        *self == 0
    }
}

impl One for i32 {
    open spec fn one_spec() -> i32 {
        1i32
    }

    fn one() -> i32 {
        1
    }
}

impl Zero for i64 {
    open spec fn zero_spec() -> i64 {
        0i64
    }

    fn zero() -> i64 {
        0
    }

    fn is_zero(&self) -> bool {
        *self == 0
    }
}

impl One for i64 {
    open spec fn one_spec() -> i64 {
        1i64
    }

    fn one() -> i64 {
        1
    }
}

impl Zero for i128 {
    open spec fn zero_spec() -> i128 {
        0i128
    }

    fn zero() -> i128 {
        0
    }

    fn is_zero(&self) -> bool {
        *self == 0
    }
}

impl One for i128 {
    open spec fn one_spec() -> i128 {
        1i128
    }

    fn one() -> i128 {
        1
    }
}

impl Zero for isize {
    open spec fn zero_spec() -> isize {
        0isize
    }

    fn zero() -> isize {
        0
    }

    fn is_zero(&self) -> bool {
        *self == 0
    }
}

impl One for isize {
    open spec fn one_spec() -> isize {
        1isize
    }

    fn one() -> isize {
        1
    }
}

} // verus!
