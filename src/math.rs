//! Checked counter arithmetic.
use vstd::prelude::*;

use crate::error::ContractError;

verus! {

/// `a + b`, or `Overflow` where the sum does not fit.
pub fn add_u32(a: u32, b: u32) -> (r: Result<u32, ContractError>)
    ensures
        a + b <= u32::MAX ==> r == Ok::<u32, ContractError>((a + b) as u32),
        a + b > u32::MAX ==> r matches Err(ContractError::Overflow),
{
    match a.checked_add(b) {
        Some(n) => Ok(n),
        None => Err(ContractError::Overflow),
    }
}

/// `a - b`, or `Underflow` where the difference is below zero.
pub fn sub_u32(a: u32, b: u32) -> (r: Result<u32, ContractError>)
    ensures
        b <= a ==> r == Ok::<u32, ContractError>((a - b) as u32),
        b > a ==> r matches Err(ContractError::Underflow),
{
    match a.checked_sub(b) {
        Some(n) => Ok(n),
        None => Err(ContractError::Underflow),
    }
}

} // verus!
