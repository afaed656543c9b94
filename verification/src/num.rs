//! Narrowing of the primitive integer types to coordinate values.

use crate::position::{Num, ToNum};
use core::convert::Infallible;
use core::num::TryFromIntError;
use vstd::prelude::*;
use vstd::std_specs::convert::TryFromSpec;

verus! {

impl ToNum for u8 {
    type Error = Infallible;

    open spec fn spec_to_num(self) -> Result<Num, Infallible> {
        Ok(self)
    }

    fn to_num(self) -> Result<Num, Infallible> {
        Ok(self)
    }
}

impl ToNum for u16 {
    type Error = TryFromIntError;

    open spec fn spec_to_num(self) -> Result<Num, TryFromIntError> {
        u8::try_from_spec(self)
    }

    fn to_num(self) -> Result<Num, TryFromIntError> {
        u8::try_from(self)
    }
}

impl ToNum for u32 {
    type Error = TryFromIntError;

    open spec fn spec_to_num(self) -> Result<Num, TryFromIntError> {
        u8::try_from_spec(self)
    }

    fn to_num(self) -> Result<Num, TryFromIntError> {
        u8::try_from(self)
    }
}

impl ToNum for u64 {
    type Error = TryFromIntError;

    open spec fn spec_to_num(self) -> Result<Num, TryFromIntError> {
        u8::try_from_spec(self)
    }

    fn to_num(self) -> Result<Num, TryFromIntError> {
        u8::try_from(self)
    }
}

impl ToNum for u128 {
    type Error = TryFromIntError;

    open spec fn spec_to_num(self) -> Result<Num, TryFromIntError> {
        u8::try_from_spec(self)
    }

    fn to_num(self) -> Result<Num, TryFromIntError> {
        u8::try_from(self)
    }
}

impl ToNum for usize {
    type Error = TryFromIntError;

    open spec fn spec_to_num(self) -> Result<Num, TryFromIntError> {
        u8::try_from_spec(self)
    }

    fn to_num(self) -> Result<Num, TryFromIntError> {
        u8::try_from(self)
    }
}

impl ToNum for i8 {
    type Error = TryFromIntError;

    open spec fn spec_to_num(self) -> Result<Num, TryFromIntError> {
        u8::try_from_spec(self)
    }

    fn to_num(self) -> Result<Num, TryFromIntError> {
        u8::try_from(self)
    }
}

impl ToNum for i16 {
    type Error = TryFromIntError;

    open spec fn spec_to_num(self) -> Result<Num, TryFromIntError> {
        u8::try_from_spec(self)
    }

    fn to_num(self) -> Result<Num, TryFromIntError> {
        u8::try_from(self)
    }
}

impl ToNum for i32 {
    type Error = TryFromIntError;

    open spec fn spec_to_num(self) -> Result<Num, TryFromIntError> {
        u8::try_from_spec(self)
    }

    fn to_num(self) -> Result<Num, TryFromIntError> {
        u8::try_from(self)
    }
}

impl ToNum for i64 {
    type Error = TryFromIntError;

    open spec fn spec_to_num(self) -> Result<Num, TryFromIntError> {
        u8::try_from_spec(self)
    }

    fn to_num(self) -> Result<Num, TryFromIntError> {
        u8::try_from(self)
    }
}

impl ToNum for i128 {
    type Error = TryFromIntError;

    open spec fn spec_to_num(self) -> Result<Num, TryFromIntError> {
        u8::try_from_spec(self)
    }

    fn to_num(self) -> Result<Num, TryFromIntError> {
        u8::try_from(self)
    }
}

impl ToNum for isize {
    type Error = TryFromIntError;

    open spec fn spec_to_num(self) -> Result<Num, TryFromIntError> {
        u8::try_from_spec(self)
    }

    fn to_num(self) -> Result<Num, TryFromIntError> {
        u8::try_from(self)
    }
}

} // verus!
