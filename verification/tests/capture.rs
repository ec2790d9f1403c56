use oxide::capture::{
    arguments_after_the_path, arguments_before_the_path, audio_track, is_format_in_range,
    NativeCapture, PipeCapture, StreamError, CHANNELS, MAX_SAMPLES, MAX_SECONDS, SAMPLE_RATE,
};

/// A sum of two tones that change over time, in stereo.
fn sweep(frames: usize) -> Vec<i16> {
    let mut samples = Vec::with_capacity(2 * frames);
    for i in 0..frames {
        let t = i as f64 / 44_100.0;
        let a = (t * (440.0 + 60.0 * t) * std::f64::consts::TAU).sin();
        let b = (t * (660.0 - 15.0 * t) * std::f64::consts::TAU).sin();
        samples.push((a * 9000.0) as i16);
        samples.push((b * 9000.0) as i16);
    }
    samples
}

fn bytes_of(samples: &[i16]) -> Vec<u8> {
    samples.iter().flat_map(|sample| sample.to_le_bytes()).collect()
}

fn directly(samples: &[i16], sample_rate: u32, channels: u16) -> String {
    let mut fp = chromaprint::Fingerprinter::new(chromaprint::Algorithm::default());
    fp.start(sample_rate, channels).unwrap();
    fp.feed(samples).unwrap();
    fp.finish().unwrap();
    fp.encode()
}

fn start(rate: Option<u32>, channels: Option<usize>) -> NativeCapture {
    match NativeCapture::start(rate, channels) {
        Ok(capture) => capture,
        Err(_) => panic!("format refused"),
    }
}

#[test]
fn limits_are_those_of_two_minutes() {
    assert_eq!(MAX_SECONDS, 120);
    assert_eq!(MAX_SAMPLES, MAX_SECONDS * SAMPLE_RATE * CHANNELS as u32);
    assert_eq!(MAX_SAMPLES, 10_584_000);
}

#[test]
fn silence_of_no_length_has_the_empty_fingerprint() {
    let mut capture = PipeCapture::start();
    assert_eq!(capture.finish(true), Some("AQAAAA".to_string()));
    let mut capture = start(Some(44_100), Some(2));
    assert_eq!(capture.finish(), "AQAAAA");
}

#[test]
fn failed_decoder_without_samples_has_no_fingerprint() {
    let mut capture = PipeCapture::start();
    capture.push(&[7]);
    assert_eq!(capture.finish(false), None);
}

#[test]
fn failed_decoder_with_samples_has_a_fingerprint() {
    let mut capture = PipeCapture::start();
    capture.push(&[7, 0, 7, 0]);
    assert_eq!(capture.finish(false), Some("AQAAAA".to_string()));
}

#[test]
fn captures_agree_with_the_fingerprinter() {
    let samples = sweep(44_100 * 8);
    let expected = directly(&samples, 44_100, 2);
    assert!(expected.len() > 6);

    let mut native = start(Some(44_100), Some(2));
    for packet in samples.chunks(2304) {
        assert!(native.wants_more());
        assert!(native.has_room_for(packet));
        native.feed(packet);
    }
    assert_eq!(native.finish(), expected);

    let mut pipe = PipeCapture::start();
    for read in bytes_of(&samples).chunks(64 * 1024) {
        assert!(pipe.wants_more());
        pipe.push(read);
    }
    assert_eq!(pipe.finish(true), Some(expected));
}

#[test]
fn other_formats_are_fingerprinted_as_they_are() {
    let samples: Vec<i16> = sweep(22_050 * 8).into_iter().step_by(2).collect();
    let mut native = start(Some(22_050), Some(1));
    native.feed(&samples);
    assert_eq!(native.finish(), directly(&samples, 22_050, 1));
}

#[test]
fn broken_frames_are_completed_by_what_follows() {
    let samples = sweep(44_100 * 8);
    let expected = directly(&samples, 44_100, 2);
    for size in [1, 3, 2305] {
        let mut native = start(Some(44_100), Some(2));
        for packet in samples.chunks(size) {
            native.feed(packet);
        }
        assert_eq!(native.finish(), expected);
    }
    for size in [1, 2, 3, 5, 4097] {
        let mut pipe = PipeCapture::start();
        for read in bytes_of(&samples).chunks(size) {
            pipe.push(read);
        }
        assert_eq!(pipe.finish(true).as_ref(), Some(&expected));
    }
}

#[test]
fn frame_that_stays_incomplete_is_left_out() {
    let samples = sweep(44_100 * 8);
    let expected = directly(&samples, 44_100, 2);
    let mut native = start(Some(44_100), Some(2));
    native.feed(&samples);
    native.feed(&[77]);
    assert_eq!(native.finish(), expected);
    let mut pipe = PipeCapture::start();
    pipe.push(&bytes_of(&samples));
    pipe.push(&[77, 0, 77]);
    assert_eq!(pipe.finish(true), Some(expected));
}

#[test]
fn what_is_buffered_is_worked_off() {
    let samples = sweep(44_100 * 8);
    let mut unfinished = chromaprint::Fingerprinter::new(chromaprint::Algorithm::default());
    unfinished.start(44_100, 2).unwrap();
    unfinished.feed(&samples).unwrap();
    let mut native = start(Some(44_100), Some(2));
    native.feed(&samples);
    assert_ne!(native.finish(), unfinished.encode());
}

#[test]
fn what_follows_two_minutes_changes_nothing() {
    let mut bytes = bytes_of(&sweep(44_100 * 120));
    let mut exact = PipeCapture::start();
    for read in bytes.chunks(64 * 1024) {
        exact.push(read);
    }
    assert!(!exact.wants_more());
    bytes.extend_from_slice(&[1; 99_999]);
    let mut longer = PipeCapture::start();
    for read in bytes.chunks(65_537) {
        longer.push(read);
    }
    assert!(!longer.wants_more());
    assert_eq!(longer.finish(false), exact.finish(true));
}

#[test]
fn pipe_stops_at_the_limit() {
    let mut capture = PipeCapture::start();
    let second = vec![0u8; 44_100 * 4];
    for _ in 0..119 {
        capture.push(&second);
        assert!(capture.wants_more());
    }
    capture.push(&second[..second.len() - 2]);
    assert!(capture.wants_more());
    capture.push(&second);
    assert!(!capture.wants_more());
}

#[test]
fn packets_stop_after_the_limit() {
    let mut capture = start(Some(8000), Some(1));
    let packet = vec![0i16; 8000 * 60 - 1];
    capture.feed(&packet);
    assert!(capture.wants_more());
    capture.feed(&packet);
    assert!(capture.wants_more());
    capture.feed(&packet);
    assert!(!capture.wants_more());
}

#[test]
fn incomplete_formats_are_refused() {
    assert!(matches!(NativeCapture::start(None, Some(2)), Err(StreamError::NoRate)));
    assert!(matches!(NativeCapture::start(None, None), Err(StreamError::NoRate)));
    assert!(matches!(NativeCapture::start(Some(44_100), None), Err(StreamError::NoChannels)));
}

#[test]
fn formats_that_the_fingerprinter_refuses() {
    match NativeCapture::start(Some(1000), Some(2)) {
        Err(StreamError::Rejected(error)) => {
            assert_eq!(error.to_string(), "invalid sample rate: 1000 (must be > 1000)")
        }
        _ => panic!("rate taken"),
    }
    match NativeCapture::start(Some(44_100), Some(0)) {
        Err(StreamError::Rejected(error)) => {
            assert_eq!(error.to_string(), "invalid channel count: 0 (must be >= 1)")
        }
        _ => panic!("channels taken"),
    }
    assert!(NativeCapture::start(Some(1001), Some(1)).is_ok());
}

#[test]
fn range_of_formats() {
    assert!(is_format_in_range(44_100, 2));
    assert!(is_format_in_range(192_000, 32));
    assert!(is_format_in_range(8_388_607, 4));
    assert!(!is_format_in_range(8_388_607, 5));
    assert!(!is_format_in_range(8_388_608, 1));
    assert!(is_format_in_range(1000, 65_535));
    assert!(is_format_in_range(u32::MAX, 0));
}

#[test]
fn short_packets_have_room() {
    let mut capture = start(Some(44_100), Some(2));
    let packet = vec![0i16; 4];
    assert!(capture.has_room_for(&packet));
    capture.feed(&packet);
    assert!(capture.has_room_for(&[]));
}

#[test]
fn first_track_with_a_codec_is_taken() {
    assert_eq!(audio_track(&[false, true, true]), Some(1));
    assert_eq!(audio_track(&[true]), Some(0));
    assert_eq!(audio_track(&[false, false]), None);
    assert_eq!(audio_track(&[]), None);
}

#[test]
fn decoder_is_asked_for_the_format_that_is_fingerprinted() {
    assert_eq!(
        arguments_before_the_path(),
        vec!["-hide_banner", "-loglevel", "error", "-nostdin", "-i"]
    );
    let channels = CHANNELS.to_string();
    let rate = SAMPLE_RATE.to_string();
    assert_eq!(
        arguments_after_the_path(),
        vec!["-vn", "-sn", "-dn", "-f", "s16le", "-ac", &channels, "-ar", &rate, "-"]
    );
}
