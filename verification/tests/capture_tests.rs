use audio_streamer::capture::{
    check_stream_format, resolve_capture_target, CaptureTarget, ChunkAccumulator,
    SampleFormatKind,
};
use audio_streamer::config::CaptureConfig;
use audio_streamer::AudioStreamerError;

#[test]
fn default_config_values() {
    let c = CaptureConfig::default();
    assert_eq!(c.sample_rate, 48000);
    assert_eq!(c.channels, 2);
    assert_eq!(c.buffer_size, 480);
    assert_eq!(c.samples_per_chunk(), 960);
}

#[test]
fn datagram_sizing_constraint() {
    // The default chunk (960 samples, 3848 wire bytes) exceeds the safe
    // datagram bound; 183 stereo frames (1472 wire bytes) is the largest
    // that fits exactly.
    let c = CaptureConfig::default();
    assert!(!c.check_fits_datagram());
    let fits = CaptureConfig {
        sample_rate: 48000,
        channels: 2,
        buffer_size: 183,
    };
    assert!(fits.check_fits_datagram());
    let over = CaptureConfig {
        sample_rate: 48000,
        channels: 2,
        buffer_size: 184,
    };
    assert!(!over.check_fits_datagram());
}

#[test]
fn one_exact_chunk_is_emitted_whole() {
    let mut acc = ChunkAccumulator::new(960);
    let samples: Vec<u32> = (0..960).collect();
    let chunks = acc.push_samples(&samples);
    assert_eq!(chunks.len(), 1);
    assert_eq!(chunks[0].len(), 960);
    assert_eq!(chunks[0], samples);
    assert_eq!(acc.pending_len(), 0);
}

#[test]
fn partial_input_emits_nothing() {
    let mut acc = ChunkAccumulator::new(960);
    let chunks = acc.push_samples(&(0..480).collect());
    assert!(chunks.is_empty());
    assert_eq!(acc.pending_len(), 480);
}

#[test]
fn remainder_persists_across_calls() {
    let mut acc = ChunkAccumulator::new(960);
    assert!(acc.push_samples(&(0..480).collect()).is_empty());
    let chunks = acc.push_samples(&(480..1000).collect());
    assert_eq!(chunks.len(), 1);
    assert_eq!(chunks[0].len(), 960);
    let expected: Vec<u32> = (0..960).collect();
    assert_eq!(chunks[0], expected);
    assert_eq!(acc.pending_len(), 40);
}

#[test]
fn several_chunks_in_one_call_in_order() {
    let mut acc = ChunkAccumulator::new(960);
    let samples: Vec<u32> = (0..2000).collect();
    let chunks = acc.push_samples(&samples);
    assert_eq!(chunks.len(), 2);
    for chunk in &chunks {
        assert_eq!(chunk.len(), 960);
    }
    assert_eq!(chunks[0], (0..960).collect::<Vec<u32>>());
    assert_eq!(chunks[1], (960..1920).collect::<Vec<u32>>());
    assert_eq!(acc.pending_len(), 80);
}

#[test]
fn accumulator_sized_for_config() {
    let acc = ChunkAccumulator::for_config(&CaptureConfig::default());
    assert_eq!(acc.chunk_size(), 960);
    assert_eq!(acc.pending_len(), 0);
}

#[test]
fn system_audio_is_index_zero() {
    assert_eq!(
        resolve_capture_target(0, true, 5).unwrap(),
        CaptureTarget::SystemAudio
    );
}

#[test]
fn indices_shift_past_the_synthetic_entry() {
    assert_eq!(
        resolve_capture_target(3, true, 5).unwrap(),
        CaptureTarget::Input(2)
    );
    assert_eq!(
        resolve_capture_target(2, false, 5).unwrap(),
        CaptureTarget::Input(2)
    );
}

#[test]
fn out_of_range_selection_is_a_device_error() {
    assert!(matches!(
        resolve_capture_target(6, true, 5),
        Err(AudioStreamerError::DeviceError(_))
    ));
    assert!(matches!(
        resolve_capture_target(5, false, 5),
        Err(AudioStreamerError::DeviceError(_))
    ));
}

#[test]
fn supported_and_unsupported_formats() {
    assert!(check_stream_format(SampleFormatKind::Float32).is_ok());
    assert!(check_stream_format(SampleFormatKind::Int16).is_ok());
    assert!(check_stream_format(SampleFormatKind::Uint16).is_ok());
    assert!(matches!(
        check_stream_format(SampleFormatKind::Other),
        Err(AudioStreamerError::UnsupportedFormat(_))
    ));
}
