//! The on-wire packet format.

pub mod checksum;
pub mod chunks;
pub mod codec;
pub mod parse_utils;
