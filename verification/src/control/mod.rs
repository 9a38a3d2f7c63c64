pub mod flush;
pub mod ledarray;
pub mod ledchannel;
pub mod ledcontroller;
pub mod ledstrip;
pub mod mapping;
pub mod topology;

pub use flush::{ControllerFrame, DeliveryError, StripFrame};
pub use ledarray::{LEDArray, Place, SwitchOutcome};
pub use ledchannel::LEDChannel;
pub use ledcontroller::{ControllerLocation, LEDController};
pub use ledstrip::LEDStrip;
pub use mapping::{ChannelMapping, LEDAddress, MappingFault, TopologyErrorKind};
pub use topology::{ChannelConfig, ControllerConfig, StripConfig, Topology, TopologyError};
