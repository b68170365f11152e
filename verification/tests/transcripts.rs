use voice_type::asr::{asr_base_url, clean_text, collapse_whitespace, remove_all_str, transcription_url};
use voice_type::correct::{ark_reply, corrector_config, retry_without_thinking, CorrectError};
use voice_type::session::{
    asr_provider, correction_edit, final_transcript, resolution_of, use_volc, wants_correction,
    AsrProvider, VolcResolution,
};
use voice_type::text::{str_contains, trim_str, usize_to_string};

#[test]
fn clean_text_drops_tags_and_squeezes_spaces() {
    assert_eq!(clean_text("[BLANK_AUDIO]"), "");
    assert_eq!(clean_text("  hello   [NOISE] world\n"), "hello world");
    assert_eq!(clean_text("[MUSIC]你好[SPEECH]世界"), "你好世界");
    assert_eq!(clean_text("a\u{3000}b\tc"), "a b c");
    // Removal is one pass per tag, left to right.
    assert_eq!(clean_text("[NO[NOISE]ISE]"), "[NOISE]");
}

#[test]
fn replace_and_collapse() {
    assert_eq!(remove_all_str("aaa", "aa"), "a");
    assert_eq!(remove_all_str("abc", ""), "abc");
    assert_eq!(collapse_whitespace("   "), "");
    assert_eq!(collapse_whitespace(" x  y "), "x y");
    assert_eq!(trim_str("\u{a0} x \u{2028}"), "x");
    assert!(str_contains("doubao-seed-2", "seed"));
    assert!(!str_contains("abc", "abcd"));
    assert_eq!(usize_to_string(0), "0");
    assert_eq!(usize_to_string(1205), "1205");
}

#[test]
fn provider_selection() {
    assert_eq!(asr_provider("VOLC"), AsrProvider::Volc);
    assert_eq!(asr_provider("volcengine"), AsrProvider::Volc);
    assert_eq!(asr_provider("Pi-Voice-Input"), AsrProvider::Volc);
    assert_eq!(asr_provider("Whisper"), AsrProvider::Whisper);
    assert_eq!(asr_provider("local"), AsrProvider::Whisper);
    assert_eq!(asr_provider(""), AsrProvider::Auto);
    assert_eq!(asr_provider("volc "), AsrProvider::Auto);
    assert!(use_volc(AsrProvider::Volc, false));
    assert!(!use_volc(AsrProvider::Whisper, true));
    assert!(use_volc(AsrProvider::Auto, true));
    assert!(!use_volc(AsrProvider::Auto, false));
}

#[test]
fn volc_resolution() {
    assert!(matches!(resolution_of(Ok("hi".into()), "", 0), VolcResolution::TypeFinal(t) if t == "hi"));
    assert!(matches!(resolution_of(Ok("  ".into()), "partial", 0), VolcResolution::KeepTyped(t) if t == "partial"));
    assert!(matches!(resolution_of(Ok("".into()), "", 0), VolcResolution::Idle));
    assert!(matches!(resolution_of(Err("x".into()), "", 8000), VolcResolution::WhisperFallback));
    assert!(matches!(resolution_of(Err("boom".into()), "", 7999), VolcResolution::Fail(m) if m == "boom"));
    assert_eq!(final_transcript("  hi \n"), Some("hi".to_string()));
    assert_eq!(final_transcript(" \n"), None);
}

#[test]
fn correction_decisions() {
    assert!(wants_correction(true, " x "));
    assert!(!wants_correction(true, "  "));
    assert!(!wants_correction(false, "x"));
    let e = correction_edit("你好世界", "你好，世界。", 3, 3).unwrap();
    assert_eq!(e.backspaces, 4);
    assert_eq!(e.retype, "你好，世界。");
    assert!(correction_edit("same", "same", 3, 3).is_none());
    assert!(correction_edit("a", "b", 3, 4).is_none());
}

#[test]
fn corrector_settings() {
    let c = corrector_config(&Some(" key ".to_string()), &None, None);
    assert!(c.enabled());
    assert_eq!(c.api_key, "key");
    assert_eq!(c.model, "doubao-seed-2-1-turbo-260628");
    assert!(c.disables_thinking());
    assert!(c.needs_request(" text "));
    assert!(!c.needs_request("  "));
    for off in ["0", "false", "NO", "Off"] {
        assert!(!corrector_config(&Some("k".to_string()), &Some(off.to_string()), None).enabled());
    }
    assert!(corrector_config(&Some("k".to_string()), &Some("yes".to_string()), None).enabled());
    assert!(!corrector_config(&Some(" ".to_string()), &None, None).enabled());
    let m = corrector_config(&None, &None, Some("doubao-1.6-flash".to_string()));
    assert!(m.disables_thinking());
    let m = corrector_config(&None, &None, Some("ep-123".to_string()));
    assert!(!m.disables_thinking());
    assert!(retry_without_thinking(true, 400));
    assert!(retry_without_thinking(true, 404));
    assert!(!retry_without_thinking(true, 500));
    assert!(!retry_without_thinking(false, 400));
    let ok = br#"{"choices":[{"message":{"content":" fixed "}}]}"#;
    assert_eq!(ark_reply(true, "200 OK", ok).ok(), Some("fixed".to_string()));
    let e = ark_reply(true, "200 OK", br#"{"choices":[]}"#).unwrap_err();
    assert!(matches!(e, CorrectError::Empty));
    assert_eq!(e.message(), "Ark correction returned empty content");
    let blank = br#"{"choices":[{"message":{"content":" "}}]}"#;
    assert!(matches!(ark_reply(true, "200 OK", blank), Err(CorrectError::Empty)));
    let e = ark_reply(false, "400 Bad Request", br#"{ "error" : {"code": "x"} }"#).unwrap_err();
    assert_eq!(e.message(), r#"Ark correction failed (400 Bad Request): {"error":{"code":"x"}}"#);
    let e = ark_reply(false, "502 Bad Gateway", b"<html>").unwrap_err();
    assert!(matches!(e, CorrectError::Unparsable));
    assert_eq!(e.message(), "failed to parse Ark correction response");
}

#[test]
fn transcription_endpoint() {
    assert_eq!(
        transcription_url("http://127.0.0.1:8000"),
        "http://127.0.0.1:8000/v1/audio/transcriptions"
    );
    assert_eq!(transcription_url("http://h:1//"), "http://h:1/v1/audio/transcriptions");
    assert_eq!(transcription_url(""), "/v1/audio/transcriptions");
    assert_eq!(asr_base_url(None), "http://127.0.0.1:8000");
    assert_eq!(asr_base_url(Some("http://x".to_string())), "http://x");
}

#[test]
fn wav_file_layout() {
    let wav = voice_type::wav::encode_wav(&[1, -2], 16000).unwrap();
    let mut expect: Vec<u8> = Vec::new();
    expect.extend_from_slice(b"RIFF");
    expect.extend_from_slice(&40u32.to_le_bytes());
    expect.extend_from_slice(b"WAVEfmt ");
    expect.extend_from_slice(&16u32.to_le_bytes());
    expect.extend_from_slice(&[1, 0, 1, 0]);
    expect.extend_from_slice(&16000u32.to_le_bytes());
    expect.extend_from_slice(&32000u32.to_le_bytes());
    expect.extend_from_slice(&[2, 0, 16, 0]);
    expect.extend_from_slice(b"data");
    expect.extend_from_slice(&4u32.to_le_bytes());
    expect.extend_from_slice(&[1, 0, 0xfe, 0xff]);
    assert_eq!(wav, expect);
    assert_eq!(voice_type::wav::encode_wav(&[], 8000).unwrap().len(), 44);
}
