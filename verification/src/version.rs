//! The version of this library.

use vstd::prelude::*;

verus! {

pub const VERSION: &'static str = "0.1.0";

/// The version of this library.
pub fn version() -> (v: &'static str)
    ensures
        v == VERSION,
{
    VERSION
}

} // verus!
