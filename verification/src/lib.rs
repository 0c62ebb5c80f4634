//! HID++ 2.0 protocol support for Logitech devices: report framing, feature
//! access over a transport, and the decoding of feature replies.

pub mod cid_names;
pub mod commands;
pub mod config;
pub mod device;
pub mod error;
pub mod features;
pub mod laws;
pub mod report;
pub mod session;
pub mod text;
pub mod transport;
