//! Weekly pill-dosing regimen suggestions.
//!
//! All doses are carried as integer half-milligram units: every achievable
//! dose is a sum of whole pills (integer mg) and half pills (half-integer mg),
//! so it sits on a 0.5 mg grid, and a target within the clinical tolerance of
//! 0.01 mg of a grid point can only match that one grid point. Working in
//! half-mg units therefore makes every dose comparison exact.

pub mod combos;
pub mod days;
pub mod options;
pub mod pill;
pub mod rank;
pub mod suggest;
pub mod tally;

use vstd::prelude::*;

verus! {

/// Ceiling on a single day's dose, in half-mg units (15.0 mg).
pub const MAX_DAILY_DOSE_HALF_MG: u32 = 30;

} // verus!
