//! Constants of the program.

use vstd::prelude::*;

verus! {

/// The minimum number of retention days when none is specified.
pub const MIN_DAYS: i32 = 60;

} // verus!
