//! A model run of the whole pipeline: a synthetic silent source on the
//! sender, discovery by one receiver, and a second of streaming with an
//! unbroken sequence of same-sized chunks.

use audio_streamer::capture::ChunkAccumulator;
use audio_streamer::config::CaptureConfig;
use audio_streamer::discovery::{
    discover_request_bytes, handle_discovery_request, parse_server_reply, run_discovery,
    ClientSet, DiscoveryEvent, Endpoint,
};
use audio_streamer::packet::{parse_packet, serialize_packet};
use audio_streamer::playback::fill_output;

#[test]
fn end_to_end_silent_stream() {
    // Sender setup: default config, a 480-frame stereo synthetic source
    // producing silence, streaming on an ephemeral port.
    let config = CaptureConfig::default();
    let chunk_samples = config.samples_per_chunk();
    assert_eq!(chunk_samples, 960);
    let stream_port: u16 = 49152;
    let mut clients = ClientSet::new();

    // Discovery: the receiver broadcasts DISCOVER; the sender replies and
    // subscribes the requester; the receiver records the server endpoint.
    let receiver_ip: u32 = 0xC0A80002;
    let request = discover_request_bytes();
    let reply = handle_discovery_request(&mut clients, &request, receiver_ip, stream_port)
        .expect("the literal request must be answered");
    assert_eq!(clients.len(), 1);
    assert_eq!(parse_server_reply(&reply), Some(stream_port));
    let events = vec![DiscoveryEvent::Packet {
        data: reply,
        from_ip: 0xC0A80001,
    }];
    let server = run_discovery(&events).expect("discovery must succeed");
    assert_eq!(
        server,
        Endpoint {
            ip: 0xC0A80001,
            port: stream_port
        }
    );

    // One second of capture: 100 callbacks of 10 ms each. Every chunk that
    // reaches the receiver renders without a gap or a short buffer.
    let mut acc = ChunkAccumulator::for_config(&config);
    let silence_bits = 0.0f32.to_bits();
    let callback_data: Vec<u32> = vec![silence_bits; chunk_samples];
    let mut received = 0usize;
    for t in 0..100u32 {
        let chunks = acc.push_samples(&callback_data);
        assert_eq!(chunks.len(), 1);
        for chunk in &chunks {
            assert_eq!(chunk.len(), chunk_samples);
            let snapshot = clients.snapshot();
            assert_eq!(snapshot.len(), 1);
            let wire = serialize_packet(t, chunk);
            let packet = parse_packet(&wire).expect("the stream's datagrams parse");
            assert_eq!(packet.timestamp_ms, t);
            assert_eq!(packet.samples.len(), chunk_samples);
            let rendered = fill_output(Some(&packet.samples), chunk_samples);
            assert_eq!(rendered.len(), chunk_samples);
            assert!(rendered.iter().all(|&s| f32::from_bits(s) == 0.0));
            received += 1;
        }
    }
    assert_eq!(received, 100);
    assert_eq!(acc.pending_len(), 0);
    // The client set still holds exactly the one discovered receiver.
    assert_eq!(clients.len(), 1);
}
