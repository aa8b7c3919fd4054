//! The tracer as a plugin of the compiler driver.

use vstd::prelude::*;

verus! {

/// The tracer's plugin.
pub struct MirivisPlugin;

/// The name of the plugin's driver binary.
pub open spec fn driver_name() -> Seq<char> {
    "mirivis-driver"@
}

impl MirivisPlugin {
    /// The name of the binary that drives the compiler for the plugin.
    pub fn bin_name() -> (name: String)
        ensures
            name@ == driver_name(),
    {
        String::from_str("mirivis-driver")
    }
}

} // verus!
