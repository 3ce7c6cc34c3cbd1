//! The device context recorded alongside notes and timeline entries.
use vstd::prelude::*;

verus! {

/// Battery level and charging state of the device that wrote an entry.
#[derive(Debug, Clone, Copy, PartialEq, Eq, Structural)]
pub struct Context {
    pub battery: u8,
    pub is_charging: bool,
}

/// The same context under the name the rest of the library uses.
pub type DeviceContext = Context;

impl Context {
    /// A fixed context for when no device information is available.
    pub fn mock() -> (res: Context)
        ensures
            res.battery == 50,
            !res.is_charging,
    {
        Context { battery: 50, is_charging: false }
    }
}

} // verus!
