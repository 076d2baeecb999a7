//! The daemon's face on the session bus.

use vstd::prelude::*;

pub mod frontend;

verus! {

/// Where the interface is exposed.
pub const CLACKD_OBJECT_PATH: &'static str = "/io/github/clackd";

/// The name that the daemon requests on the bus.
pub const CLACKD_BUS_NAME: &'static str = "io.github.clackd";

} // verus!
