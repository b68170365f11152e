use std::io::{Read, Write};

use voice_type::volc::{
    config_from_json, extract_text, transcript_of_frame, transcript_payload, AsrStream, StreamError,
    TranscriptPayload,
};
use voice_type::volc_frame::{
    audio_request, frame_header, full_request, parse_frame, FrameError,
    COMPRESSION_GZIP, FLAG_POS_SEQUENCE, FLAG_SERVER_LAST, MSG_SERVER_ERROR,
    MSG_SERVER_FULL_RESPONSE, SERIALIZATION_JSON,
};

fn gzip(data: &[u8]) -> Vec<u8> {
    let mut enc = flate2::write::GzEncoder::new(Vec::new(), flate2::Compression::fast());
    enc.write_all(data).unwrap();
    enc.finish().unwrap()
}

fn gunzip(data: &[u8]) -> Vec<u8> {
    let mut out = Vec::new();
    flate2::read::GzDecoder::new(data).read_to_end(&mut out).unwrap();
    out
}

fn server_full_frame(seq: i32, payload: &str, is_last: bool) -> Vec<u8> {
    let body = gzip(payload.as_bytes());
    let flags = FLAG_POS_SEQUENCE | if is_last { FLAG_SERVER_LAST } else { 0 };
    let mut out = vec![
        0x11u8,
        (MSG_SERVER_FULL_RESPONSE << 4) | flags,
        (SERIALIZATION_JSON << 4) | COMPRESSION_GZIP,
        0,
    ];
    out.extend_from_slice(&seq.to_be_bytes());
    out.extend_from_slice(&(body.len() as u32).to_be_bytes());
    out.extend_from_slice(&body);
    out
}

#[test]
fn parse_server_full_response_frame() {
    let payload = r#"{"result":{"text":"你好 world"}}"#;
    let frame = server_full_frame(7, payload, false);
    let parsed = parse_frame(&frame).unwrap();
    assert!(!parsed.is_last);
    let json = parsed.json.unwrap();
    assert_eq!(extract_text(&transcript_payload(&json).unwrap()), "你好 world");
    assert_eq!(transcript_of_frame(&frame).unwrap(), (false, "你好 world".to_string()));
}

#[test]
fn parse_last_frame_with_utterances_fallback() {
    let payload = r#"{"result":{"text":"","utterances":[{"text":"a "},{"text":"b"}]}}"#;
    let frame = server_full_frame(9, payload, true);
    let parsed = parse_frame(&frame).unwrap();
    assert!(parsed.is_last);
    let json = parsed.json.unwrap();
    assert_eq!(extract_text(&transcript_payload(&json).unwrap()), "a b");
    assert_eq!(transcript_of_frame(&frame).unwrap(), (true, "a b".to_string()));
}

#[test]
fn parse_error_frame() {
    let body = gzip(br#"{"message":"bad key"}"#);
    let mut frame = vec![
        0x11u8,
        MSG_SERVER_ERROR << 4,
        (SERIALIZATION_JSON << 4) | COMPRESSION_GZIP,
        0,
    ];
    frame.extend_from_slice(&45000003i32.to_be_bytes());
    frame.extend_from_slice(&(body.len() as u32).to_be_bytes());
    frame.extend_from_slice(&body);
    let err = parse_frame(&frame).unwrap_err();
    assert!(err.message().contains("45000003"));
    assert_eq!(
        err.message(),
        r#"VolcEngine ASR error 45000003: {"message":"bad key"}"#
    );
}

#[test]
fn frame_header_packs_nibbles() {
    assert_eq!(frame_header(0b0001, 0b0001, 0b0001, 0b0001), [0x11, 0x11, 0x11, 0x00]);
    assert_eq!(frame_header(0b1001, 0b0011, 0b0001, 0b0000), [0x11, 0x93, 0x10, 0x00]);
}

#[test]
fn audio_request_layout() {
    let audio = [1u8, 2, 3, 4, 5];
    let f = audio_request(7, &audio, false).unwrap();
    assert_eq!(&f[..4], &[0x11, 0x21, 0x01, 0x00]);
    assert_eq!(&f[4..8], &7i32.to_be_bytes());
    let len = u32::from_be_bytes(f[8..12].try_into().unwrap()) as usize;
    assert_eq!(len, f.len() - 12);
    assert_eq!(gunzip(&f[12..]), audio);

    let last = audio_request(7, &audio, true).unwrap();
    assert_eq!(&last[..4], &[0x11, 0x23, 0x01, 0x00]);
    assert_eq!(&last[4..8], &(-7i32).to_be_bytes());
    assert_eq!(gunzip(&last[12..]), audio);
}

#[test]
fn full_request_layout() {
    let json = br#"{"user":{"uid":"voice-type"}}"#;
    let f = full_request(1, json).unwrap();
    assert_eq!(&f[..4], &[0x11, 0x11, 0x11, 0x00]);
    assert_eq!(&f[4..8], &1i32.to_be_bytes());
    assert_eq!(gunzip(&f[12..]), json);
}

#[test]
fn parse_frame_errors() {
    assert!(matches!(parse_frame(&[0x11, 0x90]), Err(FrameError::TooShort)));
    // Header size 2 words but only 4 bytes.
    assert!(matches!(parse_frame(&[0x12, 0x90, 0x10, 0]), Err(FrameError::HeaderTruncated)));
    assert!(matches!(
        parse_frame(&[0x11, 0x91, 0x10, 0, 0, 0]),
        Err(FrameError::SequenceTruncated)
    ));
    assert!(matches!(
        parse_frame(&[0x11, 0x90, 0x10, 0, 0, 0]),
        Err(FrameError::PayloadSizeTruncated)
    ));
    assert!(matches!(
        parse_frame(&[0x11, 0x90, 0x10, 0, 0, 0, 0, 5, 1, 2]),
        Err(FrameError::PayloadTruncated)
    ));
    assert!(matches!(
        parse_frame(&[0x11, 0x90, 0x11, 0, 0, 0, 0, 2, 1, 2]),
        Err(FrameError::Decompression)
    ));
    assert!(matches!(
        parse_frame(&[0x11, 0xF0, 0x10, 0, 0, 0]),
        Err(FrameError::ErrorFrameTruncated)
    ));
    assert_eq!(FrameError::TooShort.message(), "ASR frame too short");
}

#[test]
fn parse_frame_uncompressed_and_other_types() {
    // Uncompressed JSON payload, no sequence number.
    let mut f = vec![0x11u8, 0x92, 0x10, 0];
    let body = br#"{"result":{"text":" hi "}}"#;
    f.extend_from_slice(&(body.len() as u32).to_be_bytes());
    f.extend_from_slice(body);
    let parsed = parse_frame(&f).unwrap();
    assert!(parsed.is_last);
    assert_eq!(parsed.json.as_deref(), Some(&body[..]));
    assert_eq!(extract_text(&transcript_payload(body).unwrap()), "hi");
    assert_eq!(transcript_of_frame(&f).unwrap(), (true, "hi".to_string()));

    // Non-JSON serialization yields no payload.
    let mut g = vec![0x11u8, 0x90, 0x00, 0, 0, 0, 0, 2, b'o', b'k'];
    let parsed = parse_frame(&g).unwrap();
    assert!(parsed.json.is_none());
    // Unknown message type: empty, non-final frame.
    g[1] = 0x52;
    let parsed = parse_frame(&g).unwrap();
    assert!(!parsed.is_last && parsed.json.is_none());

    // Error frame without size field: empty message.
    let e = parse_frame(&[0x11, 0xF0, 0x10, 0, 0xFF, 0xFF, 0xFF, 0xFF]).unwrap_err();
    assert_eq!(e.message(), "VolcEngine ASR error -1: ");
}

#[test]
fn extract_text_prefers_text_then_utterances() {
    let p = TranscriptPayload {
        text: Some("  ".to_string()),
        utterances: Some(vec![Some(" x".to_string()), None, Some("y ".to_string())]),
    };
    assert_eq!(extract_text(&p), "xy");
    let p = TranscriptPayload { text: None, utterances: None };
    assert_eq!(extract_text(&p), "");
    let p = TranscriptPayload {
        text: Some("t".to_string()),
        utterances: Some(vec![Some("u".to_string())]),
    };
    assert_eq!(extract_text(&p), "t");
}

#[test]
fn frame_with_invalid_json_is_an_error() {
    let frame = server_full_frame(3, "{not json", false);
    let e = parse_frame(&frame).unwrap_err();
    assert!(matches!(e, FrameError::InvalidJson));
    assert_eq!(e.message(), "failed to parse ASR JSON payload");
    assert!(matches!(transcript_of_frame(&frame), Err(FrameError::InvalidJson)));
}

#[test]
fn transcript_payload_reads_the_fields() {
    assert!(transcript_payload(b"nope").is_none());
    let p = transcript_payload(br#"{"result":{"text":5,"utterances":[{"text":"a"},{"x":1},7]}}"#)
        .unwrap();
    assert_eq!(p.text, None);
    assert_eq!(p.utterances, Some(vec![Some("a".to_string()), None, None]));
    let p = transcript_payload(br#"{"result":{"utterances":"no"}}"#).unwrap();
    assert_eq!(p.text, None);
    assert_eq!(p.utterances, None);
    // A frame of another serialization carries no transcript.
    let g = vec![0x11u8, 0x90, 0x00, 0, 0, 0, 0, 2, b'o', b'k'];
    assert_eq!(transcript_of_frame(&g).unwrap(), (false, String::new()));
}

#[test]
fn config_file_json_fields() {
    let c = config_from_json(r#"{"volcApiKey":" k1 ","boostingTableId":"t9","x":1}"#, "/p.json".to_string())
        .unwrap();
    assert_eq!(c.api_key, "k1");
    assert_eq!(c.boosting_table_id, "t9");
    assert_eq!(c.config_path, "/p.json");
    let c = config_from_json(r#"{"volcApiKey":42}"#, String::new()).unwrap();
    assert_eq!(c.api_key, "");
    assert_eq!(c.boosting_table_id, "");
    assert!(config_from_json("{", "/p.json".to_string()).is_none());
    assert!(config_from_json("", "/p.json".to_string()).is_none());
}

#[test]
fn stream_error_messages() {
    assert_eq!(StreamError::ClosedEarly.message(), "ASR socket closed before the final result");
    assert_eq!(StreamError::SequenceExhausted.message(), "ASR sequence numbers exhausted");
    assert_eq!(StreamError::Frame(FrameError::TooShort).message(), "ASR frame too short");
    let (mut s, _) = AsrStream::open(b"{}").unwrap();
    assert_eq!(s.on_closed().unwrap_err().message(), "ASR socket closed before the final result");
}
