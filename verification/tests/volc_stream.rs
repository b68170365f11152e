use std::io::Read;

use voice_type::volc::{
    available, config_file_path, config_from_env, config_from_file, corpus_table, request_payload, require_key, AsrStream, StreamError,
    VolcConfigFile, VolcEvent, FINAL_TIMEOUT_SECS, IDLE_TIMEOUT_SECS, SEGMENT_BYTES,
};

fn gunzip(data: &[u8]) -> Vec<u8> {
    let mut out = Vec::new();
    flate2::read::GzDecoder::new(data).read_to_end(&mut out).unwrap();
    out
}

fn seq_of(frame: &[u8]) -> i32 {
    i32::from_be_bytes(frame[4..8].try_into().unwrap())
}

#[test]
fn stream_segments_audio_in_100ms_packets() {
    let (mut s, cfg_frame) = AsrStream::open(br#"{"a":1}"#).unwrap();
    assert_eq!(seq_of(&cfg_frame), 1);
    assert_eq!(gunzip(&cfg_frame[12..]), br#"{"a":1}"#);
    assert_eq!(s.read_timeout_secs(), IDLE_TIMEOUT_SECS);

    // 1000 samples = 2000 bytes: not a full segment yet.
    let samples: Vec<i16> = (0..1000).map(|i| i as i16 - 500).collect();
    assert!(s.push_audio(&samples).unwrap().is_empty());

    // 2000 more samples: 6000 bytes pending -> one packet of 3200 bytes.
    let more: Vec<i16> = (0..2000).map(|i| (i * 7) as i16).collect();
    let frames = s.push_audio(&more).unwrap();
    assert_eq!(frames.len(), 1);
    assert_eq!(seq_of(&frames[0]), 2);
    let seg = gunzip(&frames[0][12..]);
    assert_eq!(seg.len(), SEGMENT_BYTES);
    let mut expect: Vec<u8> = Vec::new();
    for x in samples.iter().chain(more.iter()) {
        expect.extend_from_slice(&x.to_le_bytes());
    }
    assert_eq!(seg, expect[..SEGMENT_BYTES]);

    // 5000 samples more: 2800 + 10000 bytes -> 4 packets, seq 3..=6.
    let big: Vec<i16> = vec![-1; 5000];
    let frames = s.push_audio(&big).unwrap();
    assert_eq!(frames.len(), 4);
    for (i, f) in frames.iter().enumerate() {
        assert_eq!(seq_of(f), 3 + i as i32);
        assert_eq!(f[1], 0x21);
    }

    // Finish: negative sequence, remaining 12800 - 12800 = 0 bytes... pending is (2800 + 10000) % 3200.
    assert!(!s.finished());
    let last = s.finish().unwrap();
    assert!(s.finished());
    assert_eq!(last[1], 0x23);
    assert_eq!(seq_of(&last), -7);
    assert_eq!(gunzip(&last[12..]).len(), (2800 + 10000) % SEGMENT_BYTES);
    assert_eq!(s.read_timeout_secs(), FINAL_TIMEOUT_SECS);
}

#[test]
fn stream_reports_partials_and_final() {
    let (mut s, _) = AsrStream::open(b"{}").unwrap();
    assert!(matches!(s.on_closed(), Err(StreamError::ClosedEarly)));
    assert!(s.on_response(false, String::new()).is_none());
    match s.on_response(false, "你好".to_string()) {
        Some(VolcEvent::Partial(t)) => assert_eq!(t, "你好"),
        _ => panic!("expected a partial"),
    }
    // The last response carries no text: the final is the latest partial.
    match s.on_response(true, String::new()) {
        Some(VolcEvent::Final(t)) => assert_eq!(t, "你好"),
        _ => panic!("expected the final transcript"),
    }
    // Nothing follows the final transcript.
    assert!(s.on_response(false, "再见".to_string()).is_none());
    assert!(s.on_response(true, "再见".to_string()).is_none());
    s.finish().unwrap();
    assert!(matches!(s.on_closed(), Ok(None)));
}

#[test]
fn stream_close_after_last_packet_delivers_final_once() {
    let (mut s, _) = AsrStream::open(b"{}").unwrap();
    assert!(s.on_response(false, "hello".to_string()).is_some());
    s.finish().unwrap();
    match s.on_closed() {
        Ok(Some(VolcEvent::Final(t))) => assert_eq!(t, "hello"),
        _ => panic!("expected the final transcript"),
    }
    assert!(matches!(s.on_closed(), Ok(None)));
    assert!(s.on_response(true, "late".to_string()).is_none());
}

#[test]
fn config_path_prefers_explicit_then_home() {
    assert_eq!(
        config_file_path(&Some("/etc/vt.json".to_string()), &Some("/home/u".to_string())),
        "/etc/vt.json"
    );
    assert_eq!(
        config_file_path(&None, &Some("/home/u".to_string())),
        "/home/u/.pi/agent/voice-input.config.json"
    );
    assert_eq!(
        config_file_path(&None, &Some("/home/u/".to_string())),
        "/home/u/.pi/agent/voice-input.config.json"
    );
    assert_eq!(config_file_path(&None, &None), "./.pi/agent/voice-input.config.json");
    assert_eq!(config_file_path(&None, &Some(String::new())), ".pi/agent/voice-input.config.json");
}

#[test]
fn env_key_config() {
    let cfg = config_from_env(&Some(" test-key-from-env ".to_string()), &Some("tbl-123".to_string()))
        .unwrap();
    assert_eq!(cfg.api_key, "test-key-from-env");
    assert_eq!(cfg.boosting_table_id, "tbl-123");
    assert_eq!(cfg.config_path, "<VT_VOLC_API_KEY>");
    assert_eq!(corpus_table(&cfg), Some("tbl-123"));
    assert!(config_from_env(&Some("   ".to_string()), &None).is_none());
    assert!(config_from_env(&None, &None).is_none());
    assert!(available(&Some(cfg)));
    assert!(!available(&None));
}

#[test]
fn file_config_trims_fields() {
    let f = VolcConfigFile { volc_api_key: Some(" k ".to_string()), boosting_table_id: None };
    let cfg = config_from_file(&f, "/tmp/x.json".to_string());
    assert_eq!(cfg.api_key, "k");
    assert_eq!(cfg.boosting_table_id, "");
    assert_eq!(cfg.config_path, "/tmp/x.json");
    assert_eq!(corpus_table(&cfg), None);
    let empty = config_from_file(&VolcConfigFile { volc_api_key: None, boosting_table_id: None }, String::new());
    assert!(!available(&Some(empty)));
}

#[test]
fn missing_key_names_the_config_file() {
    let f = VolcConfigFile { volc_api_key: Some("  ".to_string()), boosting_table_id: None };
    let cfg = config_from_file(&f, "/home/u/.pi/agent/voice-input.config.json".to_string());
    assert_eq!(
        require_key(&cfg).unwrap_err(),
        "VolcEngine API key missing: set VT_VOLC_API_KEY, or configure volcApiKey in \
         /home/u/.pi/agent/voice-input.config.json (e.g. via /voice key inside pi)"
    );
    let ok = config_from_env(&Some("k".to_string()), &None).unwrap();
    assert!(require_key(&ok).is_ok());
}

#[test]
fn packets_carry_all_audio_in_order() {
    let (mut s, _) = AsrStream::open(b"{}").unwrap();
    let samples: Vec<i16> = (0..4321).map(|i| (i * 31 % 65536 - 32768) as i16).collect();
    let mut sent: Vec<u8> = Vec::new();
    for chunk in samples.chunks(777) {
        for f in s.push_audio(chunk).unwrap() {
            assert_eq!(f[8..12], ((f.len() - 12) as u32).to_be_bytes());
            sent.extend_from_slice(&gunzip(&f[12..]));
        }
    }
    let last = s.finish().unwrap();
    sent.extend_from_slice(&gunzip(&last[12..]));
    let mut expect: Vec<u8> = Vec::new();
    for x in &samples {
        expect.extend_from_slice(&x.to_le_bytes());
    }
    assert_eq!(sent, expect);
    // 8642 bytes: two full packets (seq 2, 3), the last one is -4.
    assert_eq!(seq_of(&last), -4);
}

fn obj(pairs: Vec<(&str, serde_json::Value)>) -> serde_json::Value {
    let mut m = serde_json::Map::new();
    for (k, v) in pairs {
        m.insert(k.to_string(), v);
    }
    serde_json::Value::Object(m)
}

fn expected_payload(table: &str) -> String {
    let s = |x: &str| serde_json::Value::String(x.to_string());
    let mut request = vec![
        ("model_name", s("bigmodel")),
        ("enable_itn", serde_json::Value::Bool(true)),
        ("enable_punc", serde_json::Value::Bool(true)),
        ("enable_ddc", serde_json::Value::Bool(false)),
        ("result_type", s("full")),
    ];
    if !table.is_empty() {
        request.push(("corpus", obj(vec![("boosting_table_id", s(table))])));
    }
    obj(vec![
        ("user", obj(vec![("uid", s("voice-type"))])),
        (
            "audio",
            obj(vec![
                ("format", s("pcm")),
                ("codec", s("raw")),
                ("rate", serde_json::Value::from(16000)),
                ("bits", serde_json::Value::from(16)),
                ("channel", serde_json::Value::from(1)),
            ]),
        ),
        ("request", obj(request)),
    ])
    .to_string()
}

#[test]
fn request_payload_matches_serde_json() {
    let with = config_from_env(&Some("k".to_string()), &Some("tb\"l\\\n\u{1}é".to_string())).unwrap();
    assert_eq!(request_payload(&with), expected_payload("tb\"l\\\n\u{1}é"));
    let without = config_from_env(&Some("k".to_string()), &None).unwrap();
    assert_eq!(request_payload(&without), expected_payload(""));
    assert!(!request_payload(&without).contains("corpus"));
}
