//! The layer through which the application's logs pass.
use vstd::prelude::*;

verus! {

/// A logging layer that adds nothing to what it is given.
#[derive(Debug, Clone, Copy)]
pub struct LogLayer;

} // verus!
