//! Verified core of a hardware control utility for Colorful AMD motherboards:
//! RGB lighting state, its binary state file and HID frames, fan headers,
//! SmartFan curves and the Super I/O register protocol.

pub mod cli;
pub mod fan;
pub mod rgb;
pub mod text;
pub mod utils;
