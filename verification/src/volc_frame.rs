//! VolcEngine v3 binary framing: client request frames and server response
//! parsing.
//!
//! A frame is a 4-byte header (version/header-size, message type and flags,
//! serialization and compression), an optional big-endian sequence number,
//! a big-endian payload size and the (gzip-compressed) payload.
use vstd::prelude::*;
use vstd::slice::{slice_subrange, slice_to_vec};
use vstd::utf8::{valid_utf8, decode_utf8};
use crate::json::{json_parses, json_valid};
use crate::text::{decimal_signed, push_decimal_signed};
use vstd::string::StringExecFns;
use std::io::Read;
use std::io::Write;

verus! {

pub const MSG_CLIENT_FULL_REQUEST: u8 = 0b0001;
pub const MSG_CLIENT_AUDIO_ONLY: u8 = 0b0010;
pub const MSG_SERVER_FULL_RESPONSE: u8 = 0b1001;
pub const MSG_SERVER_ERROR: u8 = 0b1111;
pub const FLAG_POS_SEQUENCE: u8 = 0b0001;
pub const FLAG_NEG_WITH_SEQUENCE: u8 = 0b0011;
pub const FLAG_SERVER_LAST: u8 = 0b0010;
pub const SERIALIZATION_NONE: u8 = 0b0000;
pub const SERIALIZATION_JSON: u8 = 0b0001;
pub const COMPRESSION_GZIP: u8 = 0b0001;

#[verifier::external_type_specification]
#[verifier::external_body]
pub struct ExIoError(std::io::Error);

// ---------------------------------------------------------------------------
// gzip (flate2)
// ---------------------------------------------------------------------------

/// The bytes flate2's `GzEncoder` at `Compression::fast()` produces for `data`
/// (a deterministic function of the input: the header carries mtime 0 and
/// OS byte 255).
pub uninterp spec fn gzip_bytes(data: Seq<u8>) -> Seq<u8>;

/// The bytes flate2's `GzDecoder` yields when reading `data` to the end, or
/// `None` when that read fails (`data` does not start with a valid gzip
/// member).
pub uninterp spec fn gunzip_bytes(data: Seq<u8>) -> Option<Seq<u8>>;

/// gzip-compresses `data` with `flate2::write::GzEncoder` at the fast level
/// (`write_all` then `finish`) into a `Vec`. Writing into a `Vec` cannot
/// fail, so the result is `Ok`: `gzip_bytes(data)`, a gzip member that
/// `GzDecoder` decompresses back to `data`. It holds at least the 10-byte
/// default header and the 8-byte CRC and size trailer; flate2 documents no
/// upper bound on its length.
#[verifier::external_body]
fn gzip(data: &[u8]) -> (res: Result<Vec<u8>, std::io::Error>)
    ensures
        res is Ok,
        res matches Ok(v) ==> v@ == gzip_bytes(data@),
        res matches Ok(v) ==> v@.len() >= 18 && gunzip_bytes(v@) == Some(data@),
{
    let mut enc = flate2::write::GzEncoder::new(Vec::new(), flate2::Compression::fast());
    match enc.write_all(data) {
        Ok(()) => enc.finish(),
        Err(e) => Err(e),
    }
}

/// Decompresses one gzip member with `flate2::read::GzDecoder::read_to_end`.
/// It succeeds exactly when `gunzip_bytes(data)` is defined, with those bytes.
#[verifier::external_body]
fn gunzip(data: &[u8]) -> (res: Result<Vec<u8>, std::io::Error>)
    ensures
        res is Ok <==> gunzip_bytes(data@) is Some,
        res matches Ok(v) ==> v@ == gunzip_bytes(data@)->Some_0,
{
    let mut dec = flate2::read::GzDecoder::new(data);
    let mut out = Vec::new();
    match dec.read_to_end(&mut out) {
        Ok(_) => Ok(out),
        Err(e) => Err(e),
    }
}

/// The text `String::from_utf8_lossy` makes of `bytes`.
pub uninterp spec fn utf8_lossy(bytes: Seq<u8>) -> Seq<char>;

/// `String::from_utf8_lossy(bytes).into_owned()`: the decoded text, with
/// invalid sequences replaced by U+FFFD. Valid UTF-8 decodes exactly.
#[verifier::external_body]
fn from_utf8_lossy(bytes: &[u8]) -> (s: String)
    ensures
        s@ == utf8_lossy(bytes@),
        valid_utf8(bytes@) ==> s@ == decode_utf8(bytes@),
{
    String::from_utf8_lossy(bytes).into_owned()
}

// ---------------------------------------------------------------------------
// Errors
// ---------------------------------------------------------------------------

/// Why a frame could not be built or parsed.
#[derive(Debug)]
pub enum FrameError {
    /// gzip compression of the payload failed.
    Compression,
    /// Fewer than 4 bytes.
    TooShort,
    /// Shorter than the header size the first byte announces.
    HeaderTruncated,
    /// The sequence number flag is set but the number is cut off.
    SequenceTruncated,
    /// The payload size field is cut off.
    PayloadSizeTruncated,
    /// The payload is shorter than its size field says.
    PayloadTruncated,
    /// The payload is marked gzip but does not decompress.
    Decompression,
    /// The payload is marked JSON but is not a JSON text.
    InvalidJson,
    /// An error frame without a complete error code.
    ErrorFrameTruncated,
    /// The server answered with an error frame.
    ServerError { code: i32, message: Vec<u8> },
}

/// [`FrameError`] with the message bytes as a sequence.
pub enum FrameFault {
    Compression,
    TooShort,
    HeaderTruncated,
    SequenceTruncated,
    PayloadSizeTruncated,
    PayloadTruncated,
    Decompression,
    InvalidJson,
    ErrorFrameTruncated,
    ServerError { code: i32, message: Seq<u8> },
}

impl View for FrameError {
    type V = FrameFault;

    open spec fn view(&self) -> FrameFault {
        match self {
            FrameError::Compression => FrameFault::Compression,
            FrameError::TooShort => FrameFault::TooShort,
            FrameError::HeaderTruncated => FrameFault::HeaderTruncated,
            FrameError::SequenceTruncated => FrameFault::SequenceTruncated,
            FrameError::PayloadSizeTruncated => FrameFault::PayloadSizeTruncated,
            FrameError::PayloadTruncated => FrameFault::PayloadTruncated,
            FrameError::Decompression => FrameFault::Decompression,
            FrameError::InvalidJson => FrameFault::InvalidJson,
            FrameError::ErrorFrameTruncated => FrameFault::ErrorFrameTruncated,
            FrameError::ServerError { code, message } => FrameFault::ServerError {
                code: *code,
                message: message@,
            },
        }
    }
}

/// The human-readable text of each error.
pub open spec fn spec_fault_message(f: FrameFault) -> Seq<char> {
    match f {
        FrameFault::Compression => "gzip compression failed"@,
        FrameFault::TooShort => "ASR frame too short"@,
        FrameFault::HeaderTruncated => "ASR frame header truncated"@,
        FrameFault::SequenceTruncated => "ASR frame sequence truncated"@,
        FrameFault::PayloadSizeTruncated => "ASR frame payload size truncated"@,
        FrameFault::PayloadTruncated => "ASR frame payload truncated"@,
        FrameFault::Decompression => "gunzip failed"@,
        FrameFault::InvalidJson => "failed to parse ASR JSON payload"@,
        FrameFault::ErrorFrameTruncated => "ASR error frame truncated"@,
        FrameFault::ServerError { code, message } => "VolcEngine ASR error "@ + decimal_signed(
            code as int,
        ) + ": "@ + utf8_lossy(message),
    }
}

impl FrameError {
    /// The error's text, e.g. `VolcEngine ASR error 45000003: {"message":"bad key"}`.
    pub fn message(&self) -> (s: String)
        ensures
            s@ == spec_fault_message(self@),
    {
        match self {
            FrameError::Compression => String::from_str("gzip compression failed"),
            FrameError::TooShort => String::from_str("ASR frame too short"),
            FrameError::HeaderTruncated => String::from_str("ASR frame header truncated"),
            FrameError::SequenceTruncated => String::from_str("ASR frame sequence truncated"),
            FrameError::PayloadSizeTruncated => String::from_str(
                "ASR frame payload size truncated",
            ),
            FrameError::PayloadTruncated => String::from_str("ASR frame payload truncated"),
            FrameError::Decompression => String::from_str("gunzip failed"),
            FrameError::InvalidJson => String::from_str("failed to parse ASR JSON payload"),
            FrameError::ErrorFrameTruncated => String::from_str("ASR error frame truncated"),
            FrameError::ServerError { code, message } => {
                let mut s = String::from_str("VolcEngine ASR error ");
                push_decimal_signed(&mut s, *code);
                s.append(": ");
                let m = from_utf8_lossy(message.as_slice());
                s.append(m.as_str());
                s
            },
        }
    }
}

// ---------------------------------------------------------------------------
// Big-endian integers
// ---------------------------------------------------------------------------

/// Big-endian bytes of a 32-bit word.
pub open spec fn be32(x: u32) -> Seq<u8> {
    seq![
        (x / 0x100_0000) as u8,
        ((x / 0x1_0000) % 0x100) as u8,
        ((x / 0x100) % 0x100) as u8,
        (x % 0x100) as u8,
    ]
}

/// The 32-bit word whose big-endian bytes start at `b[at]`.
pub open spec fn be32_at(b: Seq<u8>, at: int) -> u32 {
    (b[at] as int * 0x100_0000 + b[at + 1] as int * 0x1_0000 + b[at + 2] as int * 0x100 + b[at
        + 3] as int) as u32
}

pub proof fn lemma_be32_roundtrip(x: u32)
    ensures
        be32_at(be32(x), 0) == x,
        be32(x).len() == 4,
{
    let b = be32(x);
    assert(b[0] as int == x / 0x100_0000);
    assert(b[1] as int == (x / 0x1_0000) % 0x100);
    assert(b[2] as int == (x / 0x100) % 0x100);
    assert(b[3] as int == x % 0x100);
    assert((x / 0x100_0000) * 0x100_0000 + ((x / 0x1_0000) % 0x100) * 0x1_0000 + ((x / 0x100)
        % 0x100) * 0x100 + x % 0x100 == x) by (nonlinear_arith);
}

fn be32_bytes(x: u32) -> (res: [u8; 4])
    ensures
        res@ == be32(x),
{
    let res = [
        (x / 0x100_0000) as u8,
        ((x / 0x1_0000) % 0x100) as u8,
        ((x / 0x100) % 0x100) as u8,
        (x % 0x100) as u8,
    ];
    assert(res@ =~= be32(x));
    res
}

fn read_be32(b: &[u8], at: usize) -> (x: u32)
    requires
        at + 4 <= b@.len(),
    ensures
        x == be32_at(b@, at as int),
{
    let v: u64 = b[at] as u64 * 0x100_0000 + b[at + 1] as u64 * 0x1_0000 + b[at + 2] as u64
        * 0x100 + b[at + 3] as u64;
    v as u32
}

fn append_bytes(out: &mut Vec<u8>, src: &[u8])
    ensures
        final(out)@ == old(out)@ + src@,
{
    let mut i: usize = 0;
    while i < src.len()
        invariant
            i <= src@.len(),
            out@ == old(out)@ + src@.take(i as int),
        decreases src@.len() - i,
    {
        out.push(src[i]);
        i = i + 1;
        assert(out@ =~= old(out)@ + src@.take(i as int));
    }
    assert(src@.take(src@.len() as int) =~= src@);
}

// ---------------------------------------------------------------------------
// Client frames
// ---------------------------------------------------------------------------

/// The 4-byte header of a VolcEngine v3 binary frame: protocol version 1 with a
/// one-word header, then the message type and flags nibbles, then the
/// serialization and compression nibbles, then a reserved zero byte.
pub open spec fn spec_frame_header(message_type: u8, flags: u8, serialization: u8, compression: u8) -> Seq<u8> {
    seq![0x11u8, (message_type << 4u8) | flags, (serialization << 4u8) | compression, 0u8]
}

pub fn frame_header(message_type: u8, flags: u8, serialization: u8, compression: u8) -> (res: [u8; 4])
    ensures
        res@ == spec_frame_header(message_type, flags, serialization, compression),
{
    let res = [0x11u8, (message_type << 4u8) | flags, (serialization << 4u8) | compression, 0u8];
    assert(res@ =~= spec_frame_header(message_type, flags, serialization, compression));
    res
}

/// A sequenced frame: header, big-endian sequence number, big-endian body
/// length, body.
pub open spec fn spec_sequenced_frame(header: Seq<u8>, seq: i32, body: Seq<u8>) -> Seq<u8> {
    header + be32(seq as u32) + be32(body.len() as u32) + body
}

/// The full-request frame (session configuration) for a JSON text whose
/// gzip compression is `body`.
pub open spec fn spec_full_request(seq: i32, body: Seq<u8>) -> Seq<u8> {
    spec_sequenced_frame(
        spec_frame_header(MSG_CLIENT_FULL_REQUEST, FLAG_POS_SEQUENCE, SERIALIZATION_JSON, COMPRESSION_GZIP),
        seq,
        body,
    )
}

/// The audio-only frame for a gzip-compressed audio `body`; the last packet
/// carries the negated sequence number and flag `0b0011`.
pub open spec fn spec_audio_request(seq: i32, body: Seq<u8>, is_last: bool) -> Seq<u8> {
    spec_sequenced_frame(
        spec_frame_header(
            MSG_CLIENT_AUDIO_ONLY,
            if is_last { FLAG_NEG_WITH_SEQUENCE } else { FLAG_POS_SEQUENCE },
            SERIALIZATION_NONE,
            COMPRESSION_GZIP,
        ),
        if is_last { -seq as i32 } else { seq },
        body,
    )
}

fn sequenced_frame(header: [u8; 4], seq: i32, body: &[u8]) -> (out: Vec<u8>)
    ensures
        out@ == spec_sequenced_frame(header@, seq, body@),
{
    let mut out: Vec<u8> = Vec::new();
    append_bytes(&mut out, &header);
    let s = be32_bytes(seq as u32);
    append_bytes(&mut out, &s);
    let l = be32_bytes(body.len() as u32);
    append_bytes(&mut out, &l);
    append_bytes(&mut out, body);
    out
}

/// A sequenced frame's body follows its 12-byte prefix.
proof fn lemma_sequenced_frame_body(header: Seq<u8>, seq: i32, body: Seq<u8>)
    requires
        header.len() == 4,
    ensures
        spec_sequenced_frame(header, seq, body).skip(12) == body,
{
    assert(spec_sequenced_frame(header, seq, body).skip(12) =~= body);
}

/// Builds the session-configuration frame for the serialized request JSON
/// `payload`: the JSON is gzip-compressed and framed with sequence `seq`.
/// Compressing into memory always succeeds, and the frame's body
/// decompresses back to the payload.
pub fn full_request(seq: i32, payload: &[u8]) -> (res: Result<Vec<u8>, FrameError>)
    ensures
        res is Ok,
        match res {
            Ok(v) => {
                &&& v@ == spec_full_request(seq, gzip_bytes(payload@))
                &&& gunzip_bytes(v@.skip(12)) == Some(payload@)
                &&& v@.len() >= 30
                &&& v@.len() - 12 <= u32::MAX ==> be32_at(v@, 8) == v@.len() - 12
            },
            Err(e) => e@ == FrameFault::Compression,
        },
{
    proof {
        if gzip_bytes(payload@).len() <= u32::MAX {
            lemma_sequenced_frame_fields(
                spec_frame_header(MSG_CLIENT_FULL_REQUEST, FLAG_POS_SEQUENCE, SERIALIZATION_JSON, COMPRESSION_GZIP),
                seq,
                gzip_bytes(payload@),
            );
        }
        lemma_sequenced_frame_body(
            spec_frame_header(MSG_CLIENT_FULL_REQUEST, FLAG_POS_SEQUENCE, SERIALIZATION_JSON, COMPRESSION_GZIP),
            seq,
            gzip_bytes(payload@),
        );
    }
    match gzip(payload) {
        Ok(body) => {
            let h = frame_header(
                MSG_CLIENT_FULL_REQUEST,
                FLAG_POS_SEQUENCE,
                SERIALIZATION_JSON,
                COMPRESSION_GZIP,
            );
            Ok(sequenced_frame(h, seq, body.as_slice()))
        },
        Err(_) => Err(FrameError::Compression),
    }
}

/// Builds an audio-only frame carrying gzip-compressed PCM `audio`; the last
/// packet of a stream uses the negated sequence number. Compressing into
/// memory always succeeds, and the frame's body decompresses back to the
/// audio.
pub fn audio_request(seq: i32, audio: &[u8], is_last: bool) -> (res: Result<Vec<u8>, FrameError>)
    requires
        is_last ==> seq != i32::MIN,
    ensures
        res is Ok,
        match res {
            Ok(v) => {
                &&& v@ == spec_audio_request(seq, gzip_bytes(audio@), is_last)
                &&& gunzip_bytes(v@.skip(12)) == Some(audio@)
                &&& v@.len() >= 30
                &&& v@.len() - 12 <= u32::MAX ==> be32_at(v@, 8) == v@.len() - 12
            },
            Err(e) => e@ == FrameFault::Compression,
        },
{
    proof {
        if gzip_bytes(audio@).len() <= u32::MAX {
            lemma_sequenced_frame_fields(
                spec_frame_header(
                    MSG_CLIENT_AUDIO_ONLY,
                    if is_last { FLAG_NEG_WITH_SEQUENCE } else { FLAG_POS_SEQUENCE },
                    SERIALIZATION_NONE,
                    COMPRESSION_GZIP,
                ),
                if is_last { -seq as i32 } else { seq },
                gzip_bytes(audio@),
            );
        }
        lemma_sequenced_frame_body(
            spec_frame_header(
                MSG_CLIENT_AUDIO_ONLY,
                if is_last { FLAG_NEG_WITH_SEQUENCE } else { FLAG_POS_SEQUENCE },
                SERIALIZATION_NONE,
                COMPRESSION_GZIP,
            ),
            if is_last { -seq as i32 } else { seq },
            gzip_bytes(audio@),
        );
    }
    match gzip(audio) {
        Ok(body) => {
            let flags = if is_last {
                FLAG_NEG_WITH_SEQUENCE
            } else {
                FLAG_POS_SEQUENCE
            };
            let wire_seq = if is_last {
                -seq
            } else {
                seq
            };
            let h = frame_header(MSG_CLIENT_AUDIO_ONLY, flags, SERIALIZATION_NONE, COMPRESSION_GZIP);
            Ok(sequenced_frame(h, wire_seq, body.as_slice()))
        },
        Err(_) => Err(FrameError::Compression),
    }
}

// ---------------------------------------------------------------------------
// Server frames
// ---------------------------------------------------------------------------

/// A decoded server response: whether it is the last one of the stream, and
/// its JSON text when the payload is JSON-serialized and non-empty.
#[derive(Debug)]
pub struct ServerFrame {
    pub is_last: bool,
    pub json: Option<Vec<u8>>,
}

/// [`ServerFrame`] with the payload as a sequence.
pub struct ServerFrameView {
    pub is_last: bool,
    pub json: Option<Seq<u8>>,
}

impl View for ServerFrame {
    type V = ServerFrameView;

    open spec fn view(&self) -> ServerFrameView {
        ServerFrameView {
            is_last: self.is_last,
            json: match self.json {
                Some(v) => Some(v@),
                None => None,
            },
        }
    }
}

/// The payload after decompression when the compression nibble says gzip
/// and the payload is non-empty; `None` when that decompression fails.
pub open spec fn spec_maybe_gunzip(data: Seq<u8>, compression: u8) -> Option<Seq<u8>> {
    if compression != COMPRESSION_GZIP || data.len() == 0 {
        Some(data)
    } else {
        gunzip_bytes(data)
    }
}

/// Where the payload-size field starts: after the header and, when the
/// sequence flag is set, after the sequence number.
pub open spec fn spec_body_offset(msg: Seq<u8>) -> int {
    let header_size = (msg[0] % 16) * 4;
    if msg[1] & FLAG_POS_SEQUENCE != 0 {
        header_size + 4
    } else {
        header_size
    }
}

/// The bytes of an error frame's message (after `off`, where the optional
/// size field starts), decompressed when possible.
pub open spec fn spec_error_message(msg: Seq<u8>, off: int, compression: u8) -> Seq<u8> {
    let size: int = if off + 4 <= msg.len() {
        be32_at(msg, off) as int
    } else {
        0
    };
    let start: int = if off + 4 <= msg.len() {
        off + 4
    } else {
        off
    };
    if size > 0 && start + size <= msg.len() {
        let raw = msg.subrange(start, start + size);
        match spec_maybe_gunzip(raw, compression) {
            Some(p) => p,
            None => raw,
        }
    } else {
        Seq::empty()
    }
}

/// How a server frame decodes (the reference for [`parse_frame`]).
pub open spec fn spec_parse_frame(msg: Seq<u8>) -> Result<ServerFrameView, FrameFault> {
    if msg.len() < 4 {
        Err(FrameFault::TooShort)
    } else if msg.len() < (msg[0] % 16) * 4 {
        Err(FrameFault::HeaderTruncated)
    } else if msg[1] & FLAG_POS_SEQUENCE != 0 && (msg[0] % 16) * 4 + 4 > msg.len() {
        Err(FrameFault::SequenceTruncated)
    } else {
        let message_type = msg[1] / 16;
        let flags = msg[1] % 16;
        let serialization = msg[2] / 16;
        let compression = msg[2] % 16;
        let off = spec_body_offset(msg);
        if message_type == MSG_SERVER_FULL_RESPONSE {
            if off + 4 > msg.len() {
                Err(FrameFault::PayloadSizeTruncated)
            } else if off + 4 + be32_at(msg, off) > msg.len() {
                Err(FrameFault::PayloadTruncated)
            } else {
                let raw = msg.subrange(off + 4, off + 4 + be32_at(msg, off));
                match spec_maybe_gunzip(raw, compression) {
                    None => Err(FrameFault::Decompression),
                    Some(p) => if serialization == SERIALIZATION_JSON && p.len() > 0 {
                        if json_parses(p) {
                            Ok(ServerFrameView { is_last: msg[1] & FLAG_SERVER_LAST != 0, json: Some(p) })
                        } else {
                            Err(FrameFault::InvalidJson)
                        }
                    } else {
                        Ok(ServerFrameView { is_last: msg[1] & FLAG_SERVER_LAST != 0, json: None })
                    },
                }
            }
        } else if message_type == MSG_SERVER_ERROR {
            if off + 4 > msg.len() {
                Err(FrameFault::ErrorFrameTruncated)
            } else {
                Err(
                    FrameFault::ServerError {
                        code: be32_at(msg, off) as i32,
                        message: spec_error_message(msg, off + 4, compression),
                    },
                )
            }
        } else {
            Ok(ServerFrameView { is_last: false, json: None })
        }
    }
}

/// The frame a server sends for a full response: header, sequence number,
/// body length and the gzip-compressed JSON body.
pub open spec fn spec_server_response(seq: i32, body: Seq<u8>, is_last: bool) -> Seq<u8> {
    spec_sequenced_frame(
        spec_frame_header(
            MSG_SERVER_FULL_RESPONSE,
            if is_last { FLAG_POS_SEQUENCE | FLAG_SERVER_LAST } else { FLAG_POS_SEQUENCE },
            SERIALIZATION_JSON,
            COMPRESSION_GZIP,
        ),
        seq,
        body,
    )
}

proof fn lemma_sequenced_frame_fields(header: Seq<u8>, seq: i32, body: Seq<u8>)
    requires
        header.len() == 4,
        body.len() <= u32::MAX,
    ensures
        ({
            let f = spec_sequenced_frame(header, seq, body);
            &&& f.len() == 12 + body.len()
            &&& f.subrange(0, 4) == header
            &&& be32_at(f, 4) == seq as u32
            &&& be32_at(f, 8) == body.len() as u32
            &&& f.subrange(12, 12 + body.len() as int) == body
        }),
{
    let f = spec_sequenced_frame(header, seq, body);
    let s = be32(seq as u32);
    let l = be32(body.len() as u32);
    lemma_be32_roundtrip(seq as u32);
    lemma_be32_roundtrip(body.len() as u32);
    assert(f[4] == s[0] && f[5] == s[1] && f[6] == s[2] && f[7] == s[3]);
    assert(f[8] == l[0] && f[9] == l[1] && f[10] == l[2] && f[11] == l[3]);
    assert(f.subrange(0, 4) =~= header);
    assert(f.subrange(12, 12 + body.len() as int) =~= body);
}

/// Every field of a client frame reads back as written: the header, the
/// sequence number on the wire (negated on the last audio packet), the body
/// length and the body.
pub proof fn lemma_audio_request_fields(seq: i32, body: Seq<u8>, is_last: bool)
    requires
        body.len() <= u32::MAX,
        is_last ==> seq != i32::MIN,
    ensures
        ({
            let f = spec_audio_request(seq, body, is_last);
            &&& f.len() == 12 + body.len()
            &&& f[0] == 0x11
            &&& f[1] / 16 == MSG_CLIENT_AUDIO_ONLY
            &&& f[1] % 16 == if is_last { FLAG_NEG_WITH_SEQUENCE } else { FLAG_POS_SEQUENCE }
            &&& f[2] / 16 == SERIALIZATION_NONE
            &&& f[2] % 16 == COMPRESSION_GZIP
            &&& be32_at(f, 4) as i32 == if is_last { -seq } else { seq as int }
            &&& be32_at(f, 8) == body.len()
            &&& f.subrange(12, f.len() as int) == body
        }),
{
    let flags = if is_last { FLAG_NEG_WITH_SEQUENCE } else { FLAG_POS_SEQUENCE };
    let h = spec_frame_header(MSG_CLIENT_AUDIO_ONLY, flags, SERIALIZATION_NONE, COMPRESSION_GZIP);
    let wire: i32 = if is_last { -seq as i32 } else { seq };
    lemma_sequenced_frame_fields(h, wire, body);
    let f = spec_audio_request(seq, body, is_last);
    assert(f.subrange(0, 4)[1] == f[1] && f.subrange(0, 4)[2] == f[2] && f.subrange(0, 4)[0] == f[0]);
    assert((2u8 << 4u8) | 1u8 == 0x21u8) by (bit_vector);
    assert((2u8 << 4u8) | 3u8 == 0x23u8) by (bit_vector);
    assert((0u8 << 4u8) | 1u8 == 0x01u8) by (bit_vector);
    assert(be32_at(f, 4) as i32 == wire) by {
        let w = wire;
        assert((w as u32) as i32 == w) by (bit_vector);
    }
}

/// A full response laid out with the wire framing parses back to its
/// last-packet flag and its JSON text, when the body decompresses to that
/// (non-empty) JSON text.
pub proof fn lemma_server_response_roundtrip(seq: i32, body: Seq<u8>, json: Seq<u8>, is_last: bool)
    requires
        body.len() > 0,
        body.len() <= u32::MAX,
        json.len() > 0,
        json_parses(json),
        gunzip_bytes(body) == Some(json),
    ensures
        spec_parse_frame(spec_server_response(seq, body, is_last)) == Ok::<
            ServerFrameView,
            FrameFault,
        >(ServerFrameView { is_last, json: Some(json) }),
{
    let flags = if is_last { FLAG_POS_SEQUENCE | FLAG_SERVER_LAST } else { FLAG_POS_SEQUENCE };
    let h = spec_frame_header(MSG_SERVER_FULL_RESPONSE, flags, SERIALIZATION_JSON, COMPRESSION_GZIP);
    lemma_sequenced_frame_fields(h, seq, body);
    let f = spec_server_response(seq, body, is_last);
    assert(f.subrange(0, 4)[1] == f[1] && f.subrange(0, 4)[2] == f[2] && f.subrange(0, 4)[0] == f[0]);
    assert((9u8 << 4u8) | (1u8 | 2u8) == 0x93u8) by (bit_vector);
    assert((9u8 << 4u8) | 1u8 == 0x91u8) by (bit_vector);
    assert((1u8 << 4u8) | 1u8 == 0x11u8) by (bit_vector);
    assert(0x93u8 & 1u8 != 0 && 0x93u8 & 2u8 != 0) by (bit_vector);
    assert(0x91u8 & 1u8 != 0 && 0x91u8 & 2u8 == 0) by (bit_vector);
    assert(spec_body_offset(f) == 8);
}

fn maybe_gunzip(data: &[u8], compression: u8) -> (res: Option<Vec<u8>>)
    ensures
        match res {
            Some(v) => spec_maybe_gunzip(data@, compression) == Some(v@),
            None => spec_maybe_gunzip(data@, compression) is None,
        },
{
    if compression != COMPRESSION_GZIP || data.len() == 0 {
        Some(slice_to_vec(data))
    } else {
        match gunzip(data) {
            Ok(v) => Some(v),
            Err(_) => None,
        }
    }
}

/// Decodes one binary frame received from the server.
///
/// A full response yields its last-packet flag and, for a non-empty JSON
/// payload, the (decompressed) JSON text, which must parse as JSON
/// ([`FrameError::InvalidJson`] otherwise); an error frame yields
/// [`FrameError::ServerError`] with the code and the message bytes; any other
/// message type is an empty, non-final frame.
pub fn parse_frame(msg: &[u8]) -> (res: Result<ServerFrame, FrameError>)
    ensures
        match res {
            Ok(f) => spec_parse_frame(msg@) == Ok::<ServerFrameView, FrameFault>(f@),
            Err(e) => spec_parse_frame(msg@) == Err::<ServerFrameView, FrameFault>(e@),
        },
{
    if msg.len() < 4 {
        return Err(FrameError::TooShort);
    }
    let header_size = (msg[0] % 16) as usize * 4;
    if msg.len() < header_size {
        return Err(FrameError::HeaderTruncated);
    }
    let b1 = msg[1];
    let message_type = b1 / 16;
    let flags = b1 & 0x0f;
    let serialization = msg[2] / 16;
    let compression = msg[2] % 16;
    assert(flags & FLAG_POS_SEQUENCE == b1 & FLAG_POS_SEQUENCE) by (bit_vector)
        requires
            flags == b1 & 0x0f,
    ;
    assert(flags & FLAG_SERVER_LAST == b1 & FLAG_SERVER_LAST) by (bit_vector)
        requires
            flags == b1 & 0x0f,
    ;
    let mut off = header_size;
    if flags & FLAG_POS_SEQUENCE != 0 {
        if off > msg.len() - 4 || msg.len() < 4 {
            return Err(FrameError::SequenceTruncated);
        }
        off = off + 4;
    }
    assert(off == spec_body_offset(msg@));
    if message_type == MSG_SERVER_FULL_RESPONSE {
        if off + 4 > msg.len() {
            return Err(FrameError::PayloadSizeTruncated);
        }
        let size = read_be32(msg, off) as usize;
        off = off + 4;
        if size > msg.len() - off {
            return Err(FrameError::PayloadTruncated);
        }
        let raw = slice_subrange(msg, off, off + size);
        match maybe_gunzip(raw, compression) {
            None => Err(FrameError::Decompression),
            Some(payload) => {
                if serialization == SERIALIZATION_JSON && payload.len() > 0 {
                    if json_valid(payload.as_slice()) {
                        Ok(ServerFrame { is_last: flags & FLAG_SERVER_LAST != 0, json: Some(payload) })
                    } else {
                        Err(FrameError::InvalidJson)
                    }
                } else {
                    Ok(ServerFrame { is_last: flags & FLAG_SERVER_LAST != 0, json: None })
                }
            },
        }
    } else if message_type == MSG_SERVER_ERROR {
        if off + 4 > msg.len() {
            return Err(FrameError::ErrorFrameTruncated);
        }
        let code = read_be32(msg, off) as i32;
        off = off + 4;
        let ghost msg_off = off as int;
        let mut size: usize = 0;
        if off + 4 <= msg.len() {
            size = read_be32(msg, off) as usize;
            off = off + 4;
        }
        let message = if size > 0 && size <= msg.len() - off {
            let raw = slice_subrange(msg, off, off + size);
            match maybe_gunzip(raw, compression) {
                Some(p) => p,
                None => slice_to_vec(raw),
            }
        } else {
            Vec::new()
        };
        assert(message@ == spec_error_message(msg@, msg_off, compression));
        Err(FrameError::ServerError { code, message })
    } else {
        Ok(ServerFrame { is_last: false, json: None })
    }
}

} // verus!
