//! Error codes for the foreign-function boundary.
//!
//! Dimension mismatches crossing the C boundary are reported as explicit
//! codes rather than failing the process; the boundary layer itself lives
//! outside the verified core and converts through these helpers.

use vstd::prelude::*;

verus! {

/// Status code handed across the foreign boundary.
#[allow(non_camel_case_types)]
#[derive(Debug, Clone, Copy, PartialEq, Eq, Structural)]
pub enum adv_error {
    /// The call completed.
    ADV_ERROR_SUCCESS,
    /// An argument's dimensions did not match the callee's expectation.
    ADV_ERROR_DIM_MISMATCH,
}

impl adv_error {
    /// Collapse a result into its status code.
    pub fn from_result(result: Result<(), adv_error>) -> (r: adv_error)
        ensures
            r == (match result {
                Ok(_) => adv_error::ADV_ERROR_SUCCESS,
                Err(e) => e,
            }),
    {
        match result {
            Ok(_) => adv_error::ADV_ERROR_SUCCESS,
            Err(e) => e,
        }
    }

    /// View this status code as a result.
    pub fn into_result(self) -> (r: Result<(), adv_error>)
        ensures
            r == (match self {
                adv_error::ADV_ERROR_SUCCESS => Ok::<(), adv_error>(()),
                e => Err::<(), adv_error>(e),
            }),
    {
        match self {
            adv_error::ADV_ERROR_SUCCESS => Ok(()),
            e => Err(e),
        }
    }
}

} // verus!
