//! The capture side of the pipeline: accumulation of converted samples into
//! fixed-size chunks, selection of the capture target, and the set of native
//! sample formats the converter understands.

use vstd::prelude::*;
use vstd::string::StringExecFns;

use crate::config::CaptureConfig;
use crate::AudioStreamerError;

verus! {

/// Accumulates interleaved samples as they arrive from the device callback
/// and emits them in chunks of exactly `chunk_size` samples. The leftover
/// below one chunk persists across calls.
pub struct ChunkAccumulator {
    chunk_size: usize,
    pending: Vec<u32>,
}

impl ChunkAccumulator {
    /// The accumulator's chunk size, as given at construction.
    pub closed spec fn spec_chunk_size(self) -> int {
        self.chunk_size as int
    }

    /// The samples received but not yet emitted, in arrival order.
    pub closed spec fn spec_pending(self) -> Seq<u32> {
        self.pending@
    }

    /// The chunk size is positive and the leftover is always below one
    /// full chunk: a full chunk is never withheld.
    pub open spec fn wf(self) -> bool {
        self.spec_chunk_size() > 0 && self.spec_pending().len() < self.spec_chunk_size()
    }

    /// An empty accumulator emitting chunks of `chunk_size` samples.
    pub fn new(chunk_size: usize) -> (a: Self)
        requires
            chunk_size > 0,
        ensures
            a.wf(),
            a.spec_chunk_size() == chunk_size,
            a.spec_pending() =~= Seq::<u32>::empty(),
    {
        ChunkAccumulator { chunk_size, pending: Vec::new() }
    }

    /// An empty accumulator sized for a capture configuration: one chunk
    /// per `buffer_size` frames of `channels` interleaved samples.
    pub fn for_config(config: &CaptureConfig) -> (a: Self)
        requires
            config.valid(),
        ensures
            a.wf(),
            a.spec_chunk_size() == config.spec_samples_per_chunk(),
            a.spec_pending() =~= Seq::<u32>::empty(),
    {
        let n = config.samples_per_chunk();
        assert(config.buffer_size as int * config.channels as int > 0) by (nonlinear_arith)
            requires
                config.buffer_size > 0,
                config.channels > 0,
        ;
        Self::new(n)
    }

    /// Number of samples per emitted chunk.
    pub fn chunk_size(&self) -> (n: usize)
        ensures
            n == self.spec_chunk_size(),
    {
        self.chunk_size
    }

    /// Number of samples received but not yet emitted.
    pub fn pending_len(&self) -> (n: usize)
        ensures
            n == self.spec_pending().len(),
    {
        self.pending.len()
    }

    /// Feeds newly converted samples and drains every full chunk.
    ///
    /// The concatenation of the previous leftover and the new samples is
    /// split, in order, into emitted chunks of exactly `chunk_size` samples
    /// each, with the remainder below one chunk retained: no chunk is ever
    /// emitted short, and no full chunk is withheld.
    #[verifier::loop_isolation(false)]
    pub fn push_samples(&mut self, samples: &Vec<u32>) -> (chunks: Vec<Vec<u32>>)
        requires
            old(self).wf(),
        ensures
            final(self).wf(),
            final(self).spec_chunk_size() == old(self).spec_chunk_size(),
            ({
                let combined = old(self).spec_pending() + samples@;
                let cs = old(self).spec_chunk_size();
                &&& forall|i: int|
                    0 <= i < chunks@.len() ==> (#[trigger] chunks@[i])@.len() == cs
                &&& forall|i: int|
                    0 <= i < chunks@.len() ==> (#[trigger] chunks@[i])@ =~= combined.subrange(
                        i * cs,
                        i * cs + cs,
                    )
                &&& chunks@.len() * cs + final(self).spec_pending().len() == combined.len()
                &&& final(self).spec_pending() =~= combined.subrange(
                    chunks@.len() * cs,
                    combined.len() as int,
                )
            }),
    {
        let cs = self.chunk_size;
        let mut combined: Vec<u32> = Vec::new();
        let mut i: usize = 0;
        while i < self.pending.len()
            invariant
                0 <= i <= self.pending@.len(),
                combined@ =~= self.pending@.subrange(0, i as int),
            decreases self.pending@.len() - i,
        {
            combined.push(self.pending[i]);
            assert(combined@ =~= self.pending@.subrange(0, i as int + 1));
            i = i + 1;
        }
        assert(combined@ =~= self.pending@);
        let mut j: usize = 0;
        while j < samples.len()
            invariant
                0 <= j <= samples@.len(),
                combined@ =~= self.pending@ + samples@.subrange(0, j as int),
            decreases samples@.len() - j,
        {
            combined.push(samples[j]);
            assert(combined@ =~= self.pending@ + samples@.subrange(0, j as int + 1));
            j = j + 1;
        }
        assert(combined@ =~= self.pending@ + samples@);
        let ghost whole = combined@;
        let total = combined.len();
        let mut chunks: Vec<Vec<u32>> = Vec::new();
        let mut consumed: usize = 0;
        assert(chunks@.len() == 0);
        assert(chunks@.len() * cs == 0) by (nonlinear_arith)
            requires
                chunks@.len() == 0,
        ;
        while total - consumed >= cs
            invariant
                0 <= consumed <= total,
                consumed == chunks@.len() * cs,
                forall|k: int| 0 <= k < chunks@.len() ==> (#[trigger] chunks@[k])@.len() == cs,
                forall|k: int|
                    0 <= k < chunks@.len() ==> (#[trigger] chunks@[k])@ =~= whole.subrange(
                        k * cs,
                        k * cs + cs,
                    ),
            decreases total - consumed,
        {
            let mut one: Vec<u32> = Vec::new();
            let mut p: usize = consumed;
            while p < consumed + cs
                invariant
                    consumed <= p <= consumed + cs,
                    consumed + cs <= total,
                    one@ =~= whole.subrange(consumed as int, p as int),
                decreases consumed + cs - p,
            {
                one.push(combined[p]);
                assert(one@ =~= whole.subrange(consumed as int, p as int + 1));
                p = p + 1;
            }
            chunks.push(one);
            proof {
                let n = chunks@.len() - 1;
                assert(chunks@[n]@ =~= whole.subrange(n * cs, n * cs + cs));
                assert((n + 1) * cs == n * cs + cs) by (nonlinear_arith);
            }
            consumed = consumed + cs;
        }
        let mut leftover: Vec<u32> = Vec::new();
        let mut q: usize = consumed;
        while q < total
            invariant
                consumed <= q <= total,
                leftover@ =~= whole.subrange(consumed as int, q as int),
            decreases total - q,
        {
            leftover.push(combined[q]);
            assert(leftover@ =~= whole.subrange(consumed as int, q as int + 1));
            q = q + 1;
        }
        self.pending = leftover;
        chunks
    }
}

/// What a device selection resolves to: the platform's system-audio tap,
/// or the input device at a position of the native enumeration.
#[derive(PartialEq, Eq, Structural, Clone, Copy, Debug)]
pub enum CaptureTarget {
    /// Capture the audio the system is playing.
    SystemAudio,
    /// Capture the input device at this position of the native enumeration.
    Input(usize),
}

/// Resolves a device index from the listing (where the synthetic
/// system-audio entry, when present, occupies index 0) to a capture
/// target over the native enumeration of `device_count` input devices.
pub fn resolve_capture_target(
    device_index: usize,
    has_system_audio: bool,
    device_count: usize,
) -> (r: Result<CaptureTarget, AudioStreamerError>)
    ensures
        has_system_audio && device_index == 0 ==> r == Ok::<CaptureTarget, AudioStreamerError>(
            CaptureTarget::SystemAudio,
        ),
        has_system_audio && device_index > 0 ==> (if device_index - 1 < device_count {
            r == Ok::<CaptureTarget, AudioStreamerError>(
                CaptureTarget::Input((device_index - 1) as usize),
            )
        } else {
            r matches Err(e) && e matches AudioStreamerError::DeviceError(_)
        }),
        !has_system_audio ==> (if device_index < device_count {
            r == Ok::<CaptureTarget, AudioStreamerError>(CaptureTarget::Input(device_index))
        } else {
            r matches Err(e) && e matches AudioStreamerError::DeviceError(_)
        }),
{
    if has_system_audio && device_index == 0 {
        return Ok(CaptureTarget::SystemAudio);
    }
    let adjusted = if has_system_audio {
        device_index - 1
    } else {
        device_index
    };
    if adjusted < device_count {
        Ok(CaptureTarget::Input(adjusted))
    } else {
        Err(AudioStreamerError::DeviceError(String::from_str("Selected device not found")))
    }
}

/// The shape of a native sample representation, as reported by the audio
/// subsystem for a stream about to be opened.
#[derive(PartialEq, Eq, Structural, Clone, Copy, Debug)]
pub enum SampleFormatKind {
    /// 32-bit floating point.
    Float32,
    /// Signed 16-bit integers.
    Int16,
    /// Unsigned 16-bit integers.
    Uint16,
    /// Any representation the converter does not understand.
    Other,
}

/// The converter understands float and common integer representations.
pub open spec fn format_supported(kind: SampleFormatKind) -> bool {
    kind != SampleFormatKind::Other
}

/// Accepts a stream's native sample format or rejects it as unsupported.
pub fn check_stream_format(kind: SampleFormatKind) -> (r: Result<(), AudioStreamerError>)
    ensures
        format_supported(kind) ==> r == Ok::<(), AudioStreamerError>(()),
        !format_supported(kind) ==> (r matches Err(e) && e
            matches AudioStreamerError::UnsupportedFormat(_)),
{
    match kind {
        SampleFormatKind::Other => Err(
            AudioStreamerError::UnsupportedFormat(String::from_str("Unsupported sample format")),
        ),
        _ => Ok(()),
    }
}

} // verus!
