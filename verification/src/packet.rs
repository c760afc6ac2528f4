//! The streaming wire form: 4 reserved bytes, a 4-byte little-endian
//! timestamp in milliseconds, then interleaved samples as 4-byte
//! little-endian groups. Samples are carried as 32-bit bit patterns.

use vstd::prelude::*;

use crate::config::AUDIO_HEADER_SIZE;
use crate::wire::{
    lemma_u32_le_round_trip, push_u32_le, read_u32_le, u32_from_le, u32_le_bytes,
};

verus! {

/// A parsed audio packet: the advisory timestamp and the payload samples.
/// The reserved field of the wire form carries no semantics and is dropped.
pub struct AudioPacket {
    /// Milliseconds since epoch, truncated to 32 bits. Advisory only.
    pub timestamp_ms: u32,
    /// Interleaved samples, each a 32-bit little-endian bit pattern.
    pub samples: Vec<u32>,
}

/// The payload bytes of a sample sequence: each sample as four
/// little-endian bytes, in order.
pub open spec fn payload_bytes(samples: Seq<u32>) -> Seq<u8>
    decreases samples.len(),
{
    if samples.len() == 0 {
        Seq::empty()
    } else {
        payload_bytes(samples.drop_last()) + u32_le_bytes(samples.last())
    }
}

/// The full wire form of a packet.
pub open spec fn packet_bytes(timestamp_ms: u32, samples: Seq<u32>) -> Seq<u8> {
    seq![0u8, 0u8, 0u8, 0u8] + u32_le_bytes(timestamp_ms) + payload_bytes(samples)
}

/// The payload is four bytes per sample, and byte group `i` encodes
/// sample `i`.
pub proof fn lemma_payload_bytes_index(samples: Seq<u32>, i: int)
    requires
        0 <= i < samples.len(),
    ensures
        payload_bytes(samples).len() == 4 * samples.len(),
        payload_bytes(samples).subrange(4 * i, 4 * i + 4) =~= u32_le_bytes(samples[i]),
    decreases samples.len(),
{
    lemma_payload_bytes_len(samples);
    if i == samples.len() - 1 {
        lemma_payload_bytes_len(samples.drop_last());
    } else {
        lemma_payload_bytes_index(samples.drop_last(), i);
        lemma_payload_bytes_len(samples.drop_last());
        assert(payload_bytes(samples).subrange(4 * i, 4 * i + 4) =~= payload_bytes(
            samples.drop_last(),
        ).subrange(4 * i, 4 * i + 4));
    }
}

/// The payload of `n` samples is `4 * n` bytes long.
pub proof fn lemma_payload_bytes_len(samples: Seq<u32>)
    ensures
        payload_bytes(samples).len() == 4 * samples.len(),
    decreases samples.len(),
{
    if samples.len() > 0 {
        lemma_payload_bytes_len(samples.drop_last());
    }
}

/// The timestamp decoded from a well-formed datagram's header.
pub open spec fn parsed_timestamp(data: Seq<u8>) -> u32 {
    u32_from_le(data[4], data[5], data[6], data[7])
}

/// The samples decoded from a datagram: the maximal prefix of the payload
/// that forms complete 4-byte groups, trailing bytes dropped.
pub open spec fn parsed_samples(data: Seq<u8>) -> Seq<u32> {
    Seq::new(
        ((data.len() - AUDIO_HEADER_SIZE) / 4) as nat,
        |i: int|
            u32_from_le(
                data[AUDIO_HEADER_SIZE + 4 * i],
                data[AUDIO_HEADER_SIZE + 4 * i + 1],
                data[AUDIO_HEADER_SIZE + 4 * i + 2],
                data[AUDIO_HEADER_SIZE + 4 * i + 3],
            ),
    )
}

/// A datagram parses exactly when it is at least as long as the header.
pub open spec fn parses(data: Seq<u8>) -> bool {
    data.len() >= AUDIO_HEADER_SIZE
}

/// Serializes one packet: reserved zeros, little-endian timestamp, then
/// each sample as four little-endian bytes.
#[verifier::loop_isolation(false)]
pub fn serialize_packet(timestamp_ms: u32, samples: &Vec<u32>) -> (out: Vec<u8>)
    ensures
        out@ =~= packet_bytes(timestamp_ms, samples@),
        out@.len() == AUDIO_HEADER_SIZE + 4 * samples@.len(),
{
    let mut out: Vec<u8> = Vec::new();
    out.push(0u8);
    out.push(0u8);
    out.push(0u8);
    out.push(0u8);
    push_u32_le(&mut out, timestamp_ms);
    assert(out@ =~= seq![0u8, 0u8, 0u8, 0u8] + u32_le_bytes(timestamp_ms));
    let ghost header = out@;
    let mut i: usize = 0;
    while i < samples.len()
        invariant
            0 <= i <= samples@.len(),
            out@ =~= header + payload_bytes(samples@.subrange(0, i as int)),
            out@.len() == 8 + 4 * i,
            header =~= seq![0u8, 0u8, 0u8, 0u8] + u32_le_bytes(timestamp_ms),
        decreases samples@.len() - i,
    {
        proof {
            lemma_payload_bytes_len(samples@.subrange(0, i as int));
        }
        push_u32_le(&mut out, samples[i]);
        assert(samples@.subrange(0, i as int + 1).drop_last() =~= samples@.subrange(0, i as int));
        assert(out@ =~= header + payload_bytes(samples@.subrange(0, i as int + 1)));
        i = i + 1;
    }
    assert(samples@.subrange(0, i as int) =~= samples@);
    proof {
        lemma_payload_bytes_len(samples@);
    }
    out
}

/// Parses one datagram. A datagram shorter than the header is rejected
/// entirely; otherwise the header is stripped and the payload is read as
/// 4-byte little-endian groups, dropping any trailing incomplete group.
#[verifier::loop_isolation(false)]
pub fn parse_packet(data: &Vec<u8>) -> (r: Option<AudioPacket>)
    ensures
        match r {
            Some(p) => parses(data@) && p.timestamp_ms == parsed_timestamp(data@) && p.samples@
                =~= parsed_samples(data@),
            None => !parses(data@),
        },
{
    if data.len() < AUDIO_HEADER_SIZE {
        return None;
    }
    let timestamp_ms = read_u32_le(data, 4);
    let n: usize = (data.len() - AUDIO_HEADER_SIZE) / 4;
    let mut samples: Vec<u32> = Vec::new();
    let mut i: usize = 0;
    while i < n
        invariant
            0 <= i <= n,
            n == (data@.len() - 8) / 4,
            data@.len() >= 8,
            samples@.len() == i,
            forall|j: int| 0 <= j < i ==> samples@[j] == parsed_samples(data@)[j],
        decreases n - i,
    {
        assert(4 * (i as int) + 4 <= 4 * (n as int)) by (nonlinear_arith)
            requires
                i < n,
        ;
        assert(4 * (n as int) <= data@.len() - 8);
        let x = read_u32_le(data, AUDIO_HEADER_SIZE + 4 * i);
        samples.push(x);
        i = i + 1;
    }
    assert(samples@ =~= parsed_samples(data@));
    Some(AudioPacket { timestamp_ms, samples })
}

/// Round trip: parsing a serialized packet yields the original timestamp
/// and the original sample sequence, bit for bit.
pub proof fn lemma_packet_round_trip(timestamp_ms: u32, samples: Seq<u32>)
    ensures
        parses(packet_bytes(timestamp_ms, samples)),
        parsed_timestamp(packet_bytes(timestamp_ms, samples)) == timestamp_ms,
        parsed_samples(packet_bytes(timestamp_ms, samples)) =~= samples,
{
    let data = packet_bytes(timestamp_ms, samples);
    lemma_payload_bytes_len(samples);
    assert(data.len() == 8 + 4 * samples.len());
    lemma_u32_le_round_trip(timestamp_ms);
    assert(data[4] == u32_le_bytes(timestamp_ms)[0]);
    assert(data[5] == u32_le_bytes(timestamp_ms)[1]);
    assert(data[6] == u32_le_bytes(timestamp_ms)[2]);
    assert(data[7] == u32_le_bytes(timestamp_ms)[3]);
    assert((data.len() - 8) / 4 == samples.len());
    assert forall|i: int| 0 <= i < samples.len() implies parsed_samples(data)[i] == samples[i] by {
        lemma_payload_bytes_index(samples, i);
        let grp = payload_bytes(samples).subrange(4 * i, 4 * i + 4);
        assert(data[8 + 4 * i] == grp[0]);
        assert(data[8 + 4 * i + 1] == grp[1]);
        assert(data[8 + 4 * i + 2] == grp[2]);
        assert(data[8 + 4 * i + 3] == grp[3]);
        lemma_u32_le_round_trip(samples[i]);
    }
}

/// Truncation policy: a datagram shorter than the header produces nothing;
/// a longer one yields exactly one sample per complete 4-byte payload group,
/// so only the trailing incomplete bytes are dropped.
pub proof fn lemma_parse_truncation(data: Seq<u8>)
    ensures
        data.len() < AUDIO_HEADER_SIZE ==> !parses(data),
        data.len() >= AUDIO_HEADER_SIZE ==> parses(data) && parsed_samples(data).len() == (
        data.len() - AUDIO_HEADER_SIZE) / 4,
{
}

} // verus!
