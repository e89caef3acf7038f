//! Status codes returned by the execution environment.

use vstd::prelude::*;

verus! {

/// The status of an operation: `OK` or `ERR`.
pub type Error = usize;

/// The operation succeeded.
pub const OK: usize = 0;

/// The operation failed.
pub const ERR: usize = 1;

} // verus!
