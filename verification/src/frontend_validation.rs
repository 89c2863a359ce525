//! Values that a form hands in.
use vstd::prelude::*;

verus! {

/// A value that a form handed in is missing or outside its bounds.
#[derive(Debug, Clone, Copy, PartialEq, Eq)]
pub struct OutOfBounds<O> {
    /// The least value that is accepted.
    pub min: O,
    /// The greatest value that is accepted.
    pub max: O,
}

/// A value of a form, held against the bounds of its field.
pub trait FrontendValidation<O> {
    /// The value that the form stands for.
    spec fn submitted(&self) -> Option<O>;

    /// The value, where there is one and it is within the bounds.
    fn frontend_validation(&self, min: O, max: O) -> Result<O, OutOfBounds<O>>;
}

/// The unsigned number of the same 32 bits as `value`: a negative value
/// stands for the number that is 2^32 greater.
pub open spec fn as_unsigned(value: i32) -> u32 {
    if value >= 0 {
        value as u32
    } else {
        (value + 0x1_0000_0000) as u32
    }
}

impl FrontendValidation<u32> for Option<i32> {
    open spec fn submitted(&self) -> Option<u32> {
        match *self {
            Some(value) => Some(as_unsigned(value)),
            None => None,
        }
    }

    /// The number of a field, read as unsigned, where it is filled in and
    /// lies from `min` to `max`.
    fn frontend_validation(&self, min: u32, max: u32) -> (r: Result<u32, OutOfBounds<u32>>)
        ensures
            match r {
                Ok(value) => self.submitted() == Some(value) && min <= value <= max,
                Err(e) => {
                    &&& e == (OutOfBounds { min, max })
                    &&& match self.submitted() {
                        Some(value) => value < min || max < value,
                        None => true,
                    }
                },
            },
    {
        match *self {
            Some(signed) => {
                let value = to_unsigned(signed);
                if value >= min && value <= max {
                    Ok(value)
                } else {
                    Err(OutOfBounds { min, max })
                }
            },
            None => Err(OutOfBounds { min, max }),
        }
    }
}

/// The unsigned number of the same 32 bits.
fn to_unsigned(value: i32) -> (r: u32)
    ensures
        r == as_unsigned(value),
{
    if value >= 0 {
        value as u32
    } else {
        let above: i64 = value as i64 + 0x1_0000_0000i64;
        above as u32
    }
}

} // verus!
