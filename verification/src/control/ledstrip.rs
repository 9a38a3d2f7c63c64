use vstd::prelude::*;
use super::mapping::{ChannelMapping, LEDAddress};

verus! {

/// One physical strip, as a named view over the virtual offsets
/// `[start, end)` of the channel with identifier `channel`. A strip owns no
/// pixels: what it shows is read from its channel when the array is flushed.
#[derive(Debug, Clone, PartialEq, Eq)]
pub struct LEDStrip {
    pub id: LEDAddress,
    pub name: String,
    pub channel: usize,
    pub start: LEDAddress,
    pub end: LEDAddress,
}

impl LEDStrip {
    /// Number of pixels the strip shows.
    pub open spec fn span(&self) -> int {
        if self.start <= self.end {
            self.end - self.start
        } else {
            0
        }
    }

    /// The mapping that a strip of controller `controller_id` stands for.
    pub open spec fn mapping(&self, controller_id: LEDAddress) -> ChannelMapping {
        ChannelMapping { controller_id, strip_id: self.id, start: self.start, end: self.end }
    }

    /// The strip is the view that mapping `mapping` of channel `channel` defines.
    pub open spec fn views(&self, channel: int, mapping: ChannelMapping) -> bool {
        &&& self.id == mapping.strip_id
        &&& self.channel == channel
        &&& self.start == mapping.start
        &&& self.end == mapping.end
    }

    pub fn len(&self) -> (n: usize)
        ensures
            n == self.span(),
    {
        if self.start <= self.end {
            (self.end - self.start) as usize
        } else {
            0
        }
    }
}

} // verus!
