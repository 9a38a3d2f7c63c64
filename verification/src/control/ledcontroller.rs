use vstd::prelude::*;
use super::ledstrip::LEDStrip;
use super::mapping::LEDAddress;

verus! {

/// Where a controller is reached on the network.
#[derive(Debug, Copy, Clone, PartialEq, Eq)]
pub struct ControllerLocation {
    pub ip: [u8; 4],
    pub port: u16,
}

/// A network-addressable device and the strips attached to it. A controller
/// stores no pixels of its own.
#[derive(Debug, Clone, PartialEq, Eq)]
pub struct LEDController {
    pub id: LEDAddress,
    pub location: ControllerLocation,
    pub strips: Vec<LEDStrip>,
}

impl LEDController {
    /// No two strips of the controller have the same identifier.
    pub open spec fn distinct_strips(&self) -> bool {
        forall|s: int, t: int|
            #![trigger self.strips@[s], self.strips@[t]]
            0 <= s < t < self.strips@.len() ==> self.strips@[s].id != self.strips@[t].id
    }
}

} // verus!
