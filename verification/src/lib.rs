//! A verified core for a LAN audio streaming pipeline: capture chunking,
//! packet encoding and decoding, broadcast discovery, client-set upkeep,
//! and playback buffer filling.
//!
//! Samples travel through the library as 32-bit little-endian bit patterns
//! (`u32`); the surrounding application converts them to and from the audio
//! hardware's floating-point representation at the edges.

pub mod capture;
pub mod config;
pub mod device;
pub mod discovery;
pub mod packet;
pub mod playback;
pub mod wire;

use vstd::prelude::*;

verus! {

/// The error kinds of the streaming library. Each variant carries a
/// human-readable message.
#[derive(Debug)]
pub enum AudioStreamerError {
    /// Device enumeration, lookup or opening failed.
    DeviceError(String),
    /// Socket bind/send/receive failure, or discovery timed out.
    NetworkError(String),
    /// A payload could not be encoded.
    EncodingError(String),
    /// An invalid configuration was supplied.
    ConfigError(String),
    /// An input/output failure outside the sockets themselves.
    IoError(String),
    /// A running stream reported an error.
    StreamError(String),
    /// Native stream configuration negotiation failed.
    StreamConfigError(String),
    /// Building a native stream failed.
    StreamBuildError(String),
    /// A network address could not be parsed.
    AddressError(String),
    /// The native sample representation is not one the converter understands.
    UnsupportedFormat(String),
}

pub fn add(left: u64, right: u64) -> (sum: u64)
    requires
        left + right <= u64::MAX,
    ensures
        sum == left + right,
{
    left + right
}

} // verus!
