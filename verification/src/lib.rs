//! Streams that arrive over Zigbee. One APS data frame is one Stream where
//! it fits; a longer Stream is a fragmented transmission (numbered blocks
//! under one APS counter, acknowledged once every block is in) and arrives
//! whole.
//!
//! Zigbee is the mesh of the building's sensors and switches: 802.15.4
//! radios in a network of short addresses, a coordinator at its root, and
//! above the network layer the application support sublayer that names an
//! endpoint, a profile and a cluster for every frame. What is here is the
//! network and APS headers, the extended header that fragments a
//! transmission, and the acknowledgement.
//!
//! The radio is a trait: [`LoopbackRadio`] is the receiving node in-process,
//! which every box without an 802.15.4 radio drives. The origin URI names the
//! radio, the sender and the cluster:
//! `zigbee://loopback/0x1a2b/1?cluster=0x0402`.
//!
//! A radio, a node and a loopback are plain values that one owner drives;
//! sharing one between threads is left to whoever holds it.
pub mod error;
pub mod exchange;
pub mod frame;
pub mod laws;
pub mod loopback;
pub mod node;
pub mod radio;
pub mod reassembly;
pub mod reception;
pub mod target;
pub mod text;

pub use crate::error::ZigbeeError;
pub use crate::frame::{Fragment, Frame, Header, MAX_STREAM};
pub use crate::node::{Arrived, Listening, Reception, ZigbeeTransport};
pub use crate::radio::{LoopbackRadio, Radio};
pub use crate::reassembly::Reassembly;
