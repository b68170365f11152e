use voice_type::session::{
    final_timeout_message, PressPlan, ReleasePlan, Session, StreamPhase, StreamPlan, StreamSignal,
    VolcResolution,
};

fn release_with(s: &mut Session, samples: usize) -> ReleasePlan {
    s.keep_audio(samples);
    s.release()
}

#[test]
fn streaming_utterance_waits_for_final() {
    let mut s = Session::new();
    assert!(!s.recording());
    assert_eq!(s.press(true), PressPlan::Start { open_stream: true });
    s.started(true, true);
    assert!(s.recording());
    assert!(s.keeps_audio());
    assert_eq!(s.stream_phase(), StreamPhase::Live);
    // A second press while recording is ignored.
    assert_eq!(s.press(true), PressPlan::Ignore);
    assert_eq!(s.stream_event(StreamSignal::Partial, true), StreamPlan::TypePartial);
    assert_eq!(s.stream_event(StreamSignal::Partial, false), StreamPlan::Ignore);
    assert_eq!(release_with(&mut s, 100), ReleasePlan::AwaitFinal);
    assert!(!s.recording());
    assert_eq!(s.stream_phase(), StreamPhase::AwaitingFinal);
    assert!(!s.tick(false));
    assert_eq!(s.stream_event(StreamSignal::Final, true), StreamPlan::ResolveFinal);
    assert_eq!(s.stream_phase(), StreamPhase::Off);
}

#[test]
fn local_path_needs_half_a_second() {
    let mut s = Session::new();
    assert_eq!(s.press(false), PressPlan::Start { open_stream: false });
    s.started(false, true);
    assert_eq!(s.stream_phase(), StreamPhase::Off);
    assert_eq!(release_with(&mut s, 8000), ReleasePlan::Transcribe);
    assert_eq!(release_with(&mut s, 8000), ReleasePlan::Ignore);

    let mut s = Session::new();
    s.press(false);
    s.started(false, true);
    assert_eq!(release_with(&mut s, 7999), ReleasePlan::Idle);
}

#[test]
fn failure_mid_recording_falls_back_to_whisper() {
    let mut s = Session::new();
    s.press(true);
    s.started(true, true);
    assert_eq!(s.stream_event(StreamSignal::Failed, false), StreamPlan::DropStream);
    assert!(s.recording());
    assert_eq!(s.stream_phase(), StreamPhase::Off);
    assert_eq!(release_with(&mut s, 16000), ReleasePlan::Transcribe);
}

#[test]
fn failure_and_disconnect_after_release_resolve() {
    let mut s = Session::new();
    s.press(true);
    s.started(true, true);
    release_with(&mut s, 0);
    assert_eq!(s.stream_event(StreamSignal::Failed, true), StreamPlan::ResolveFailed);

    let mut s = Session::new();
    s.press(true);
    s.started(true, true);
    assert_eq!(s.stream_event(StreamSignal::Disconnected, false), StreamPlan::Ignore);
    release_with(&mut s, 0);
    assert_eq!(s.stream_event(StreamSignal::Ready, false), StreamPlan::Ignore);
    assert_eq!(s.stream_event(StreamSignal::Disconnected, false), StreamPlan::ResolveTyped);
    assert_eq!(s.stream_phase(), StreamPhase::Off);
}

#[test]
fn overdue_final_times_out() {
    let mut s = Session::new();
    s.press(true);
    s.started(true, true);
    assert!(!s.tick(true));
    release_with(&mut s, 0);
    assert!(s.tick(true));
    assert_eq!(s.stream_phase(), StreamPhase::Off);
    assert_eq!(
        final_timeout_message(),
        "volc streaming timed out waiting for the final transcript"
    );
}

#[test]
fn audio_failure_drops_the_stream() {
    let mut s = Session::new();
    s.press(true);
    s.started(true, false);
    assert!(!s.recording());
    assert!(!s.keeps_audio());
    assert_eq!(s.stream_phase(), StreamPhase::Off);
    // A new press after an abandoned stream starts afresh.
    let mut s2 = Session::new();
    s2.press(true);
    s2.started(true, true);
    release_with(&mut s2, 0);
    assert_eq!(s2.press(false), PressPlan::Start { open_stream: false });
    assert_eq!(s2.stream_phase(), StreamPhase::Off);
}

#[test]
fn buffer_is_counted_and_resolving_ends_the_stream() {
    let mut s = Session::new();
    assert!(!s.keep_audio(500));
    assert_eq!(s.buffered(), 0);
    s.press(true);
    s.started(true, true);
    assert!(s.keep_audio(5000));
    assert!(s.keep_audio(4000));
    assert_eq!(s.buffered(), 9000);
    assert_eq!(s.release(), ReleasePlan::AwaitFinal);
    // The buffer is kept for a fallback while the final is awaited.
    assert_eq!(s.buffered(), 9000);
    assert!(!s.keep_audio(100));
    assert_eq!(s.stream_event(StreamSignal::Failed, true), StreamPlan::ResolveFailed);
    assert!(matches!(s.resolve_volc(Err("boom".to_string()), ""), VolcResolution::WhisperFallback));
    assert_eq!(s.stream_phase(), StreamPhase::Off);
    assert_eq!(s.buffered(), 0);

    // A final while still recording resolves and empties the buffer; the
    // recording goes on.
    let mut s = Session::new();
    s.press(true);
    s.started(true, true);
    s.keep_audio(100);
    assert_eq!(s.stream_event(StreamSignal::Final, true), StreamPlan::ResolveFinal);
    match s.resolve_volc(Ok(" hi ".to_string()), "h") {
        VolcResolution::TypeFinal(t) => assert_eq!(t, " hi "),
        _ => panic!("expected the final to be typed"),
    }
    assert!(s.recording());
    assert_eq!(s.buffered(), 0);
    assert_eq!(s.stream_phase(), StreamPhase::Off);

    // Too little audio: the failure is reported; a blank final keeps the partials.
    let mut s = Session::new();
    s.press(true);
    s.started(true, true);
    s.keep_audio(10);
    s.release();
    match s.resolve_volc(Err("x".to_string()), "") {
        VolcResolution::Fail(m) => assert_eq!(m, "x"),
        _ => panic!("expected a failure"),
    }
    assert!(matches!(s.resolve_volc(Ok("  ".to_string()), "typed"), VolcResolution::KeepTyped(_)));
    assert!(matches!(s.resolve_volc(Ok(String::new()), ""), VolcResolution::Idle));
}
