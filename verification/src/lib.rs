//! Passive observer for a controller/gateway wireline network.
//!
//! Bytes tapped from the serial link are reassembled into link-layer frames,
//! the frames into transport-level request/response exchanges, and those into
//! application-level reports, which an [`observer::Observer`] correlates into
//! persistent infrastructure state and timestamped power reports.

pub mod application;
pub mod barcode;
pub mod config;
pub mod crc;
pub mod escape;
pub mod framer;
pub mod link;
pub mod node_table;
pub mod observer;
pub mod persistent_state;
pub mod pipeline;
pub mod pv;
pub mod slot_clock;
pub mod transport;
pub mod vecmap;
