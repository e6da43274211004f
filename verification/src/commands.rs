use crate::error::Error;
use vstd::prelude::*;

verus! {

/// A runnable command of the tool: the boundary code that reads files,
/// drives a conversion and writes the results implements this.
pub trait Executable {
    /// Run the command to completion.
    fn execute(&self) -> Result<(), Error>;
}

} // verus!
