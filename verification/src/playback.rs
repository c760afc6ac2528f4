//! The playback side: filling a render buffer from the next available
//! chunk, synthesizing silence on underrun.

use vstd::prelude::*;

verus! {

/// Channel count of the fixed playback output format: stereo.
pub const PLAYBACK_CHANNELS: u16 = 2;

/// Sample rate of the fixed playback output format, in hertz.
pub const PLAYBACK_SAMPLE_RATE: u32 = 48000;

/// Capacity, in chunks, of the bounded channels between the pipeline
/// stages and the audio callbacks.
pub const CHANNEL_CAPACITY: usize = 32;

/// The bit pattern of a zero-amplitude 32-bit float sample: silence.
pub const SILENCE: u32 = 0;

/// Fills one render buffer of `out_len` interleaved samples.
///
/// With a chunk at hand, its samples are copied in order as far as they
/// fit, and every remaining position is silence. With no chunk at hand
/// (underrun), the whole buffer is silence — never leftover or garbage
/// data.
#[verifier::loop_isolation(false)]
pub fn fill_output(next: Option<&Vec<u32>>, out_len: usize) -> (out: Vec<u32>)
    ensures
        out@.len() == out_len,
        match next {
            Some(chunk) => {
                &&& forall|i: int|
                    0 <= i < out_len && i < chunk@.len() ==> out@[i] == chunk@[i]
                &&& forall|i: int|
                    chunk@.len() <= i < out_len ==> out@[i] == SILENCE
            },
            None => forall|i: int| 0 <= i < out_len ==> out@[i] == SILENCE,
        },
{
    let mut out: Vec<u32> = Vec::new();
    match next {
        Some(chunk) => {
            let copy_len = if chunk.len() < out_len {
                chunk.len()
            } else {
                out_len
            };
            let mut i: usize = 0;
            while i < copy_len
                invariant
                    0 <= i <= copy_len,
                    copy_len <= chunk@.len(),
                    copy_len <= out_len,
                    out@.len() == i,
                    forall|j: int| 0 <= j < i ==> out@[j] == chunk@[j],
                decreases copy_len - i,
            {
                out.push(chunk[i]);
                i = i + 1;
            }
            while i < out_len
                invariant
                    copy_len <= i <= out_len,
                    out@.len() == i,
                    forall|j: int| 0 <= j < copy_len ==> out@[j] == chunk@[j],
                    forall|j: int| copy_len <= j < i ==> out@[j] == SILENCE,
                decreases out_len - i,
            {
                out.push(SILENCE);
                i = i + 1;
            }
        },
        None => {
            let mut i: usize = 0;
            while i < out_len
                invariant
                    0 <= i <= out_len,
                    out@.len() == i,
                    forall|j: int| 0 <= j < i ==> out@[j] == SILENCE,
                decreases out_len - i,
            {
                out.push(SILENCE);
                i = i + 1;
            }
        },
    }
    out
}

} // verus!
