//! Capture configuration: sample rate, channel count and chunk size, with
//! the sizing relation that keeps one chunk inside a single UDP datagram.

use vstd::prelude::*;

verus! {

/// Safe UDP payload bound: standard Ethernet MTU minus IP and UDP headers.
pub const MAX_DATAGRAM_SIZE: usize = 1472;

/// Wire header: 4 reserved bytes (a future sequence number) followed by a
/// 4-byte little-endian timestamp in milliseconds.
pub const AUDIO_HEADER_SIZE: usize = 8;

/// Configuration of a capture session. Immutable once capture starts.
#[derive(Clone, Copy, Debug)]
pub struct CaptureConfig {
    /// Samples per second and channel.
    pub sample_rate: u32,
    /// Interleaved channel count.
    pub channels: u16,
    /// Frames per emitted chunk.
    pub buffer_size: u32,
}

impl CaptureConfig {
    /// A configuration is valid when every dimension is positive and a full
    /// chunk of samples can be indexed on this machine.
    pub open spec fn valid(self) -> bool {
        self.sample_rate > 0 && self.channels > 0 && self.buffer_size > 0
            && self.buffer_size as int * self.channels as int <= usize::MAX as int
    }

    /// Number of interleaved samples in one chunk: frames times channels.
    pub open spec fn spec_samples_per_chunk(self) -> int {
        self.buffer_size as int * self.channels as int
    }

    /// One chunk's wire size, header included, stays at or below the safe
    /// UDP payload bound, so a datagram never needs IP fragmentation.
    pub open spec fn fits_datagram(self) -> bool {
        self.spec_samples_per_chunk() * 4 + AUDIO_HEADER_SIZE <= MAX_DATAGRAM_SIZE
    }

    /// Number of interleaved samples in one emitted chunk.
    pub fn samples_per_chunk(&self) -> (n: usize)
        requires
            self.valid(),
        ensures
            n == self.spec_samples_per_chunk(),
    {
        (self.buffer_size as usize) * (self.channels as usize)
    }

    /// Checks the sizing constraint between this configuration and the
    /// transport: a full chunk, once serialized, must fit in one datagram.
    pub fn check_fits_datagram(&self) -> (ok: bool)
        requires
            self.valid(),
        ensures
            ok == self.fits_datagram(),
    {
        let samples = self.samples_per_chunk();
        samples <= (MAX_DATAGRAM_SIZE - AUDIO_HEADER_SIZE) / 4
    }
}

impl Default for CaptureConfig {
    /// 48 kHz stereo in 480-frame chunks: 10 ms of audio per chunk.
    fn default() -> (c: Self)
        ensures
            c.sample_rate == 48000,
            c.channels == 2,
            c.buffer_size == 480,
            c.valid(),
    {
        CaptureConfig { sample_rate: 48000, channels: 2, buffer_size: 480 }
    }
}

} // verus!
