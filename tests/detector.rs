use ulaw_vad::detector::{
    detect, Detector, Marker, SpeechEvent, END_THRESHOLD_BITS, START_THRESHOLD_BITS,
};

fn bits(probs: &[f32]) -> Vec<u32> {
    probs.iter().map(|p| p.to_bits()).collect()
}

fn started(t: i32) -> Marker {
    Marker { kind: SpeechEvent::SpeechStarted, time_in_ms: t }
}

fn ended(t: i32) -> Marker {
    Marker { kind: SpeechEvent::SpeechEnded, time_in_ms: t }
}

#[test]
fn thresholds_are_the_single_precision_constants() {
    assert_eq!(START_THRESHOLD_BITS, 0.5f32.to_bits());
    assert_eq!(END_THRESHOLD_BITS, 0.35f32.to_bits());
}

#[test]
fn crafted_sequence_emits_start_and_end() {
    let markers = detect(&bits(&[0.1, 0.6, 0.6, 0.2, 0.1]));
    assert_eq!(markers, vec![started(100), ended(300)]);
}

#[test]
fn quiet_scores_emit_nothing() {
    assert!(detect(&bits(&[0.0; 50])).is_empty());
    assert!(detect(&bits(&[0.01, 0.2, 0.5, 0.34, 0.0])).is_empty());
    assert!(detect(&Vec::new()).is_empty());
}

#[test]
fn dead_zone_after_rise_emits_only_the_start() {
    let markers = detect(&bits(&[0.2, 0.9, 0.35, 0.5, 0.4, 0.36, 0.49, 0.35]));
    assert_eq!(markers, vec![started(100)]);
}

#[test]
fn thresholds_are_strict() {
    // exactly 0.5 does not start speech
    assert!(detect(&bits(&[0.5, 0.5])).is_empty());
    // exactly 0.35 does not end it
    assert_eq!(detect(&bits(&[0.51, 0.35, 0.35])), vec![started(0)]);
    assert_eq!(detect(&bits(&[0.51, 0.3499])), vec![started(0), ended(100)]);
}

#[test]
fn markers_alternate_from_a_start() {
    let probs = [0.9, 0.95, 0.1, 0.0, 0.7, 0.4, 0.2, 0.6, 0.6, 0.1, 0.8];
    let markers = detect(&bits(&probs));
    assert_eq!(
        markers,
        vec![started(0), ended(200), started(400), ended(600), started(700), ended(900), started(1000)]
    );
    assert_eq!(markers[0].kind, SpeechEvent::SpeechStarted);
    for pair in markers.windows(2) {
        assert_ne!(pair[0].kind, pair[1].kind);
        assert!(pair[0].time_in_ms < pair[1].time_in_ms);
    }
}

#[test]
fn out_of_range_scores_do_not_panic() {
    let probs = [f32::NAN, 1.5, f32::NAN, -0.0, f32::INFINITY, -2.0, f32::NEG_INFINITY, -f32::NAN];
    let markers = detect(&bits(&probs));
    assert_eq!(markers, vec![started(100), ended(300), started(400), ended(500)]);
}

#[test]
fn detector_steps_one_frame_at_a_time() {
    let mut d = Detector::new();
    assert!(!d.speech_active);
    assert_eq!(d.push(0.2f32.to_bits()), None);
    assert_eq!(d.push(0.7f32.to_bits()), Some(started(100)));
    assert!(d.speech_active);
    assert_eq!(d.push(0.9f32.to_bits()), None);
    assert_eq!(d.push(0.0f32.to_bits()), Some(ended(300)));
    assert!(!d.speech_active);
    assert_eq!(d.frame_index, 4);
}
