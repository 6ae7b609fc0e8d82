//! Drivers that run the library on made-up problems and hold the results against a naive
//! reference. The exact ones are here; those that need a tolerance are left to the caller.

use vstd::prelude::*;

pub mod api_validation;
pub mod classes;
pub mod common;
pub mod differential;
pub mod exact_drivers;
pub mod meanings;
pub mod plans;
pub mod reference;
pub mod separate_views;

verus! {

} // verus!
