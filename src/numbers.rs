//! Reading a JSON integer as a narrower integer type: the value if it fits,
//! else nothing.
use vstd::prelude::*;

verus! {

/// `i` as an `i32`, when it is in range.
pub fn narrow_i32(i: i64) -> (r: Option<i32>)
    ensures
        r == if i32::MIN <= i <= i32::MAX {
            Some(i as i32)
        } else {
            None::<i32>
        },
{
    if i32::MIN as i64 <= i && i <= i32::MAX as i64 {
        Some(i as i32)
    } else {
        None
    }
}

/// `i` as an `i16`, when it is in range.
pub fn narrow_i16(i: i64) -> (r: Option<i16>)
    ensures
        r == if i16::MIN <= i <= i16::MAX {
            Some(i as i16)
        } else {
            None::<i16>
        },
{
    if i16::MIN as i64 <= i && i <= i16::MAX as i64 {
        Some(i as i16)
    } else {
        None
    }
}

/// `i` as an `i8`, when it is in range.
pub fn narrow_i8(i: i64) -> (r: Option<i8>)
    ensures
        r == if i8::MIN <= i <= i8::MAX {
            Some(i as i8)
        } else {
            None::<i8>
        },
{
    if i8::MIN as i64 <= i && i <= i8::MAX as i64 {
        Some(i as i8)
    } else {
        None
    }
}

/// `u` as a `u32`, when it is in range.
pub fn narrow_u32(u: u64) -> (r: Option<u32>)
    ensures
        r == if u <= u32::MAX {
            Some(u as u32)
        } else {
            None::<u32>
        },
{
    if u <= u32::MAX as u64 {
        Some(u as u32)
    } else {
        None
    }
}

/// `u` as a `u16`, when it is in range.
pub fn narrow_u16(u: u64) -> (r: Option<u16>)
    ensures
        r == if u <= u16::MAX {
            Some(u as u16)
        } else {
            None::<u16>
        },
{
    if u <= u16::MAX as u64 {
        Some(u as u16)
    } else {
        None
    }
}

/// `u` as a `u8`, when it is in range.
pub fn narrow_u8(u: u64) -> (r: Option<u8>)
    ensures
        r == if u <= u8::MAX {
            Some(u as u8)
        } else {
            None::<u8>
        },
{
    if u <= u8::MAX as u64 {
        Some(u as u8)
    } else {
        None
    }
}

/// `u` as a `usize`, when it is in range.
pub fn narrow_usize(u: u64) -> (r: Option<usize>)
    ensures
        r == if u <= usize::MAX {
            Some(u as usize)
        } else {
            None::<usize>
        },
{
    if u as u128 <= usize::MAX as u128 {
        Some(u as usize)
    } else {
        None
    }
}

} // verus!
