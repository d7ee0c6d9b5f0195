//! Command-line-level value types.  Argument parsing itself is the
//! surrounding application's concern; the library only defines the values
//! it hands over.

use vstd::prelude::*;

verus! {

/// The logging verbosity selectable on the command line.
#[derive(Default, Debug, Copy, Clone, PartialEq, Eq, Structural)]
pub enum Level {
    Error,
    Warn,
    #[default]
    Info,
    Debug,
    Trace,
}

} // verus!
