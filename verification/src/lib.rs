//! Host-side protocol for the Divoom Ditoo Pro: command packets, response
//! frames, device session decisions and 16x16 text rendering.
pub mod protocol;
pub mod device;
pub mod divoom_file_format;
pub mod hex_payload;
pub mod color;
