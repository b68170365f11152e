//! VolcEngine streaming ASR: credentials, transcript extraction and the
//! streaming session's bookkeeping (audio segmentation, sequence numbers,
//! partial and final transcripts).
use vstd::prelude::*;
use vstd::slice::{slice_subrange, slice_to_vec};
use vstd::string::{StringExecFns, StringSliceAdditionalSpecFns};
use crate::text::{trim, trim_str};
use crate::json::{
    json_parses, json_str_at, json_str_items_at, json_str_items_lookup, json_str_lookup, json_valid,
};
use crate::volc_frame::{
    audio_request, full_request, gunzip_bytes, gzip_bytes, lemma_server_response_roundtrip,
    parse_frame, spec_audio_request, spec_fault_message, spec_full_request, spec_parse_frame,
    spec_server_response, FrameError, FrameFault, ServerFrameView,
};

verus! {

/// Audio is streamed in 100 ms packets of 16 kHz mono s16le PCM.
pub const SEGMENT_BYTES: usize = 3200;

/// How long to wait for a server message while audio is still streaming.
pub const IDLE_TIMEOUT_SECS: u64 = 120;

/// How long to wait for the final transcript after the last packet.
pub const FINAL_TIMEOUT_SECS: u64 = 30;

/// Credentials for the VolcEngine provider.
pub struct VolcConfig {
    pub api_key: String,
    pub boosting_table_id: String,
    /// Where the credentials came from (`<VT_VOLC_API_KEY>` for the
    /// environment variable).
    pub config_path: String,
}

/// The string fields read from the shared JSON config file.
pub struct VolcConfigFile {
    /// `volcApiKey`, when present and a string.
    pub volc_api_key: Option<String>,
    /// `boostingTableId`, when present and a string.
    pub boosting_table_id: Option<String>,
}

pub open spec fn opt_text(o: Option<String>) -> Seq<char> {
    match o {
        Some(s) => s@,
        None => Seq::empty(),
    }
}

fn trimmed_or_empty(o: &Option<String>) -> (s: String)
    ensures
        s@ == trim(opt_text(*o)),
{
    match o {
        Some(v) => String::from_str(trim_str(v.as_str())),
        None => String::new(),
    }
}

/// Credentials taken from `VT_VOLC_API_KEY` (and `VT_VOLC_BOOSTING_TABLE_ID`):
/// used when the key is set and not blank; both values are trimmed.
pub fn config_from_env(api_key: &Option<String>, boosting_table_id: &Option<String>) -> (res:
    Option<VolcConfig>)
    ensures
        match res {
            Some(c) => {
                &&& trim(opt_text(*api_key)).len() > 0
                &&& c.api_key@ == trim(opt_text(*api_key))
                &&& c.boosting_table_id@ == trim(opt_text(*boosting_table_id))
                &&& c.config_path@ == "<VT_VOLC_API_KEY>"@
            },
            None => trim(opt_text(*api_key)).len() == 0,
        },
{
    let key = trimmed_or_empty(api_key);
    if key.as_str().is_empty() {
        None
    } else {
        Some(
            VolcConfig {
                api_key: key,
                boosting_table_id: trimmed_or_empty(boosting_table_id),
                config_path: String::from_str("<VT_VOLC_API_KEY>"),
            },
        )
    }
}

/// Credentials read from the JSON config file at `path`: both fields trimmed,
/// a missing field reads as empty.
pub fn config_from_file(file: &VolcConfigFile, path: String) -> (c: VolcConfig)
    ensures
        c.api_key@ == trim(opt_text(file.volc_api_key)),
        c.boosting_table_id@ == trim(opt_text(file.boosting_table_id)),
        c.config_path@ == path@,
{
    VolcConfig {
        api_key: trimmed_or_empty(&file.volc_api_key),
        boosting_table_id: trimmed_or_empty(&file.boosting_table_id),
        config_path: path,
    }
}

/// Credentials from the text of the JSON config file at `path`: `None` when
/// the text is not JSON; else the trimmed string fields `volcApiKey` and
/// `boostingTableId` (empty where absent or not a string).
pub fn config_from_json(raw: &str, path: String) -> (r: Option<VolcConfig>)
    ensures
        r is Some <==> json_parses(raw.spec_bytes()),
        r matches Some(c) ==> {
            &&& c.api_key@ == trim(opt_chars(json_str_at(raw.spec_bytes(), "/volcApiKey"@)))
            &&& c.boosting_table_id@ == trim(
                opt_chars(json_str_at(raw.spec_bytes(), "/boostingTableId"@)),
            )
            &&& c.config_path@ == path@
        },
{
    let bytes = raw.as_bytes();
    if !json_valid(bytes) {
        return None;
    }
    let file = VolcConfigFile {
        volc_api_key: json_str_lookup(bytes, "/volcApiKey"),
        boosting_table_id: json_str_lookup(bytes, "/boostingTableId"),
    };
    Some(config_from_file(&file, path))
}

/// Where the shared config file lies under the home directory.
pub open spec fn home_config_suffix() -> Seq<char> {
    ".pi/agent/voice-input.config.json"@
}

/// `base` joined with the relative path `rest`: a separator goes between
/// them unless `base` is empty or already ends with one.
pub open spec fn join_path(base: Seq<char>, rest: Seq<char>) -> Seq<char> {
    if base.len() == 0 || base.last() == '/' {
        base + rest
    } else {
        base + seq!['/'] + rest
    }
}

/// The config file to read: the path given in `VT_VOLC_CONFIG` when it is
/// set, else `.pi/agent/voice-input.config.json` under `HOME` (under the
/// current directory when `HOME` is unset).
pub fn config_file_path(explicit: &Option<String>, home: &Option<String>) -> (p: String)
    ensures
        p@ == match *explicit {
            Some(e) => e@,
            None => join_path(
                match *home {
                    Some(h) => h@,
                    None => "."@,
                },
                home_config_suffix(),
            ),
        },
{
    match explicit {
        Some(e) => e.clone(),
        None => {
            let mut p = match home {
                Some(h) => h.clone(),
                None => String::from_str("."),
            };
            let n = p.as_str().unicode_len();
            if n > 0 && p.as_str().get_char(n - 1) != '/' {
                p.append("/");
                proof {
                    reveal_strlit("/");
                }
            }
            p.append(".pi/agent/voice-input.config.json");
            p
        }
    }
}

/// True when the VolcEngine provider can be used: the credentials loaded
/// and the key is not empty.
pub fn available(loaded: &Option<VolcConfig>) -> (b: bool)
    ensures
        b == (loaded matches Some(c) && c.api_key@.len() > 0),
{
    match loaded {
        Some(c) => !c.api_key.as_str().is_empty(),
        None => false,
    }
}

/// Starting a session needs a key: without one the error says where to set
/// it.
pub fn require_key(cfg: &VolcConfig) -> (r: Result<(), String>)
    ensures
        match r {
            Ok(()) => cfg.api_key@.len() > 0,
            Err(m) => cfg.api_key@.len() == 0 && m@
                == "VolcEngine API key missing: set VT_VOLC_API_KEY, or configure volcApiKey in "@
                + cfg.config_path@ + " (e.g. via /voice key inside pi)"@,
        },
{
    if cfg.api_key.as_str().is_empty() {
        let mut m = String::from_str(
            "VolcEngine API key missing: set VT_VOLC_API_KEY, or configure volcApiKey in ",
        );
        m.append(cfg.config_path.as_str());
        m.append(" (e.g. via /voice key inside pi)");
        Err(m)
    } else {
        Ok(())
    }
}

/// The hotwords table to send with the request, when one is configured.
pub fn corpus_table(cfg: &VolcConfig) -> (t: Option<&str>)
    ensures
        match t {
            Some(s) => s@ == cfg.boosting_table_id@ && s@.len() > 0,
            None => cfg.boosting_table_id@.len() == 0,
        },
{
    if cfg.boosting_table_id.as_str().is_empty() {
        None
    } else {
        Some(cfg.boosting_table_id.as_str())
    }
}

/// What the session reports to the event loop.
#[derive(Debug)]
pub enum VolcEvent {
    /// WebSocket is open and the request config was accepted.
    Ready,
    /// Incremental recognized text (cumulative) — drives the live preview.
    Partial(String),
    /// Final transcript after the last audio packet was acknowledged.
    Final(String),
    Failed(String),
}

// ---------------------------------------------------------------------------
// The session request
// ---------------------------------------------------------------------------

/// Lower-case hexadecimal digit of `d` (`0 <= d < 16`).
pub open spec fn hex_digit(d: int) -> char {
    if d < 10 {
        (48 + d) as char
    } else {
        (87 + d) as char
    }
}

/// How serde_json writes `c` inside a JSON string: quote, backslash and the
/// control characters escaped (the usual short escapes, `\u00xx` for the
/// others), everything else as it is.
pub open spec fn json_escape(c: char) -> Seq<char> {
    if c == '"' {
        seq!['\\', '"']
    } else if c == '\\' {
        seq!['\\', '\\']
    } else if c == '\u{8}' {
        seq!['\\', 'b']
    } else if c == '\u{c}' {
        seq!['\\', 'f']
    } else if c == '\n' {
        seq!['\\', 'n']
    } else if c == '\r' {
        seq!['\\', 'r']
    } else if c == '\t' {
        seq!['\\', 't']
    } else if (c as u32) < 0x20 {
        seq!['\\', 'u', '0', '0', hex_digit((c as int) / 16), hex_digit((c as int) % 16)]
    } else {
        seq![c]
    }
}

/// The escaped characters of `s`.
pub open spec fn json_escaped(s: Seq<char>) -> Seq<char>
    decreases s.len(),
{
    if s.len() == 0 {
        Seq::empty()
    } else {
        json_escaped(s.drop_last()) + json_escape(s.last())
    }
}

/// `s` as a JSON string literal.
pub open spec fn json_string(s: Seq<char>) -> Seq<char> {
    seq!['"'] + json_escaped(s) + seq!['"']
}

/// `serde_json::to_string` of a `str`: the JSON string literal, escaped as
/// serde_json's `format_escaped_str` does. Serializing a `str` into memory
/// cannot fail.
#[verifier::external_body]
fn json_quote(s: &str) -> (r: String)
    ensures
        r@ == json_string(s@),
{
    match serde_json::to_string(s) {
        Ok(q) => q,
        Err(_) => String::new(),
    }
}

/// The session request: user id `voice-type`; 16 kHz 16-bit mono raw PCM;
/// the `bigmodel` model with inverse text normalization and punctuation, no
/// disfluency removal, full results; and the hotwords table `table` when one
/// is configured. Keys are in the sorted order serde_json writes them.
pub open spec fn spec_request_json(table: Seq<char>) -> Seq<char> {
    "{\"audio\":{\"bits\":16,\"channel\":1,\"codec\":\"raw\",\"format\":\"pcm\",\"rate\":16000},\"request\":{"@
        + (if table.len() > 0 {
        "\"corpus\":{\"boosting_table_id\":"@ + json_string(table) + "},"@
    } else {
        Seq::empty()
    })
        + "\"enable_ddc\":false,\"enable_itn\":true,\"enable_punc\":true,\"model_name\":\"bigmodel\",\"result_type\":\"full\"},\"user\":{\"uid\":\"voice-type\"}}"@
}

/// The JSON text of the session request for `cfg`.
pub fn request_payload(cfg: &VolcConfig) -> (p: String)
    ensures
        p@ == spec_request_json(cfg.boosting_table_id@),
{
    let mut p = String::from_str(
        "{\"audio\":{\"bits\":16,\"channel\":1,\"codec\":\"raw\",\"format\":\"pcm\",\"rate\":16000},\"request\":{",
    );
    if let Some(table) = corpus_table(cfg) {
        p.append("\"corpus\":{\"boosting_table_id\":");
        let q = json_quote(table);
        p.append(q.as_str());
        p.append("},");
    }
    p.append(
        "\"enable_ddc\":false,\"enable_itn\":true,\"enable_punc\":true,\"model_name\":\"bigmodel\",\"result_type\":\"full\"},\"user\":{\"uid\":\"voice-type\"}}",
    );
    p
}

// ---------------------------------------------------------------------------
// Transcript extraction
// ---------------------------------------------------------------------------

/// The parts of a response payload the transcript is read from:
/// `/result/text` when it is a string, and `/result/utterances` when it is an
/// array (each element's `text` when that is a string).
pub struct TranscriptPayload {
    pub text: Option<String>,
    pub utterances: Option<Vec<Option<String>>>,
}

/// The text of an optional string, empty when absent.
pub open spec fn opt_chars(o: Option<Seq<char>>) -> Seq<char> {
    match o {
        Some(s) => s,
        None => Seq::empty(),
    }
}

/// Concatenation of the texts that are present.
pub open spec fn join_present(us: Seq<Option<Seq<char>>>) -> Seq<char>
    decreases us.len(),
{
    if us.len() == 0 {
        Seq::empty()
    } else {
        join_present(us.drop_last()) + opt_chars(us.last())
    }
}

/// The transcript a response carries, given its `/result/text` string and
/// the `text` strings of its `/result/utterances` items: the trimmed text
/// when it is not blank, else the trimmed concatenation of the utterance
/// texts when that is not blank, else nothing.
pub open spec fn transcript_from(
    text: Option<Seq<char>>,
    utterances: Option<Seq<Option<Seq<char>>>>,
) -> Seq<char> {
    if text is Some && trim(opt_chars(text)).len() > 0 {
        trim(opt_chars(text))
    } else if utterances is Some && trim(join_present(utterances->Some_0)).len() > 0 {
        trim(join_present(utterances->Some_0))
    } else {
        Seq::empty()
    }
}

/// A non-blank `/result/text` is the transcript, trimmed. Otherwise (the
/// text absent or blank alike) the transcript is the trimmed concatenation
/// of the utterance texts that are present, and nothing without utterances.
pub proof fn lemma_transcript_fallback(
    text: Option<Seq<char>>,
    utterances: Option<Seq<Option<Seq<char>>>>,
)
    ensures
        text is Some && trim(text->Some_0).len() > 0 ==> transcript_from(text, utterances) == trim(
            text->Some_0,
        ),
        !(text is Some && trim(text->Some_0).len() > 0) ==> transcript_from(text, utterances)
            == match utterances {
            Some(us) => trim(join_present(us)),
            None => Seq::<char>::empty(),
        },
{
}

/// The transcript of the payload fields `p`.
pub open spec fn spec_extract_text(p: TranscriptPayload) -> Seq<char> {
    transcript_from(p.text.deep_view(), p.utterances.deep_view())
}

/// The transcript of a response's JSON text.
pub open spec fn json_transcript(json: Seq<u8>) -> Seq<char> {
    transcript_from(
        json_str_at(json, "/result/text"@),
        json_str_items_at(json, "/result/utterances"@, "text"@),
    )
}

/// The transcript of a parsed server frame: that of its JSON payload, empty
/// without one.
pub open spec fn frame_transcript(f: ServerFrameView) -> Seq<char> {
    match f.json {
        Some(j) => json_transcript(j),
        None => Seq::empty(),
    }
}

pub fn extract_text(payload: &TranscriptPayload) -> (s: String)
    ensures
        s@ == spec_extract_text(*payload),
{
    if let Some(text) = &payload.text {
        let t = trim_str(text.as_str());
        if !t.is_empty() {
            return String::from_str(t);
        }
    }
    if let Some(utts) = &payload.utterances {
        let ghost us = utts.deep_view();
        let mut joined = String::new();
        let mut i: usize = 0;
        while i < utts.len()
            invariant
                i <= utts@.len(),
                us == utts.deep_view(),
                joined@ == join_present(us.take(i as int)),
            decreases utts@.len() - i,
        {
            if let Some(t) = &utts[i] {
                joined.append(t.as_str());
            }
            assert(us.take(i + 1).drop_last() =~= us.take(i as int));
            assert(us[i as int] == utts@[i as int].deep_view());
            i = i + 1;
        }
        assert(us.take(utts@.len() as int) =~= us);
        let t = trim_str(joined.as_str());
        if !t.is_empty() {
            return String::from_str(t);
        }
    }
    String::new()
}

/// The transcript fields of a response's JSON text `json`: `None` exactly
/// when it does not parse.
pub fn transcript_payload(json: &[u8]) -> (r: Option<TranscriptPayload>)
    ensures
        r is Some <==> json_parses(json@),
        r matches Some(p) ==> {
            &&& p.text.deep_view() == json_str_at(json@, "/result/text"@)
            &&& p.utterances.deep_view() == json_str_items_at(
                json@,
                "/result/utterances"@,
                "text"@,
            )
        },
{
    if !json_valid(json) {
        return None;
    }
    let text = json_str_lookup(json, "/result/text");
    let utterances = json_str_items_lookup(json, "/result/utterances", "text");
    Some(TranscriptPayload { text, utterances })
}

/// A server's full response whose gzip body decompresses to the JSON text
/// `json` reads back as its last-packet flag and the transcript of `json`.
pub proof fn lemma_server_transcript(seq: i32, body: Seq<u8>, json: Seq<u8>, is_last: bool)
    requires
        body.len() > 0,
        body.len() <= u32::MAX,
        json.len() > 0,
        json_parses(json),
        gunzip_bytes(body) == Some(json),
    ensures
        spec_parse_frame(spec_server_response(seq, body, is_last)) matches Ok(f) && f.is_last
            == is_last && frame_transcript(f) == json_transcript(json),
{
    lemma_server_response_roundtrip(seq, body, json, is_last);
}

/// Decodes one server message into its last-packet flag and its transcript
/// (empty when the frame carries no JSON payload); a frame that does not
/// parse yields the [`parse_frame`] error.
pub fn transcript_of_frame(msg: &[u8]) -> (r: Result<(bool, String), FrameError>)
    ensures
        match r {
            Ok((is_last, t)) => spec_parse_frame(msg@) matches Ok(f) && is_last == f.is_last
                && t@ == frame_transcript(f),
            Err(e) => spec_parse_frame(msg@) == Err::<ServerFrameView, FrameFault>(e@),
        },
{
    let frame = parse_frame(msg)?;
    let text = match &frame.json {
        Some(json) => match transcript_payload(json.as_slice()) {
            Some(p) => extract_text(&p),
            None => String::new(),
        },
        None => String::new(),
    };
    Ok((frame.is_last, text))
}

// ---------------------------------------------------------------------------
// Streaming session bookkeeping
// ---------------------------------------------------------------------------

/// Little-endian bytes of one 16-bit sample.
pub open spec fn le16(x: i16) -> Seq<u8> {
    seq![((x as u16) % 0x100) as u8, ((x as u16) / 0x100) as u8]
}

/// The s16le PCM bytes of a run of samples.
pub open spec fn pcm_bytes(samples: Seq<i16>) -> Seq<u8>
    decreases samples.len(),
{
    if samples.len() == 0 {
        Seq::empty()
    } else {
        pcm_bytes(samples.drop_last()) + le16(samples.last())
    }
}

/// The `i`-th full segment of `data`.
pub open spec fn segment(data: Seq<u8>, i: int) -> Seq<u8> {
    data.subrange(i * SEGMENT_BYTES, (i + 1) * SEGMENT_BYTES)
}

/// Segments `0..n` of `data`, one after another.
pub open spec fn segments_joined(data: Seq<u8>, n: nat) -> Seq<u8>
    decreases n,
{
    if n == 0 {
        Seq::empty()
    } else {
        segments_joined(data, (n - 1) as nat) + segment(data, n - 1)
    }
}

proof fn lemma_segments_prefix(data: Seq<u8>, n: nat)
    requires
        n * SEGMENT_BYTES <= data.len(),
    ensures
        segments_joined(data, n) == data.take(n * SEGMENT_BYTES),
    decreases n,
{
    if n > 0 {
        let m = (n - 1) as nat;
        assert(m * SEGMENT_BYTES == n * SEGMENT_BYTES - SEGMENT_BYTES);
        lemma_segments_prefix(data, m);
        assert(data.take(m * SEGMENT_BYTES) + segment(data, m as int) =~= data.take(
            n * SEGMENT_BYTES,
        ));
    } else {
        assert(data.take(0) =~= Seq::<u8>::empty());
    }
}

/// No audio is lost or reordered: the packets cut from `data` carry its
/// segments in order, and together with what stays pending they are `data`.
pub proof fn lemma_segments_cover(data: Seq<u8>, n: nat)
    requires
        n * SEGMENT_BYTES <= data.len(),
    ensures
        segments_joined(data, n) + data.skip(n * SEGMENT_BYTES) == data,
{
    lemma_segments_prefix(data, n);
    assert(data.take(n * SEGMENT_BYTES) + data.skip(n * SEGMENT_BYTES) =~= data);
}

/// Why a streaming session ended without a final transcript.
#[derive(Debug)]
pub enum StreamError {
    /// A frame could not be built.
    Frame(FrameError),
    /// The sequence number space is exhausted.
    SequenceExhausted,
    /// The server closed the socket before the final result.
    ClosedEarly,
}

impl StreamError {
    /// The error's text.
    pub fn message(&self) -> (s: String)
        ensures
            s@ == match *self {
                StreamError::Frame(f) => spec_fault_message(f@),
                StreamError::SequenceExhausted => "ASR sequence numbers exhausted"@,
                StreamError::ClosedEarly => "ASR socket closed before the final result"@,
            },
    {
        match self {
            StreamError::Frame(f) => f.message(),
            StreamError::SequenceExhausted => String::from_str("ASR sequence numbers exhausted"),
            StreamError::ClosedEarly => String::from_str("ASR socket closed before the final result"),
        }
    }
}

/// The client side of one streaming recognition: PCM bytes waiting to fill
/// a segment, the next sequence number, the latest non-empty transcript,
/// whether the last packet has been sent and whether the final transcript
/// has been delivered.
pub struct AsrStream {
    seq: i32,
    pcm: Vec<u8>,
    last_text: String,
    finished: bool,
    done: bool,
}

impl AsrStream {
    #[verifier::type_invariant]
    spec fn inv(self) -> bool {
        &&& self.pcm@.len() < SEGMENT_BYTES
        &&& 2 <= self.seq
    }

    /// The next sequence number to send.
    pub closed spec fn next_seq(self) -> int {
        self.seq as int
    }

    /// PCM bytes received but not yet sent.
    pub closed spec fn pending(self) -> Seq<u8> {
        self.pcm@
    }

    /// The latest non-empty transcript.
    pub closed spec fn latest(self) -> Seq<char> {
        self.last_text@
    }

    /// Whether the last audio packet has been sent.
    pub closed spec fn is_finished(self) -> bool {
        self.finished
    }

    /// Whether the final transcript has been delivered; nothing follows it.
    pub closed spec fn is_done(self) -> bool {
        self.done
    }

    /// Starts a session: the session-configuration frame (sequence 1) for the
    /// serialized request JSON, and a stream whose next packet is number 2.
    pub fn open(request_json: &[u8]) -> (res: Result<(AsrStream, Vec<u8>), FrameError>)
        ensures
            res is Ok,
            match res {
                Ok((s, frame)) => {
                    &&& frame@ == spec_full_request(1, gzip_bytes(request_json@))
                    &&& s.next_seq() == 2
                    &&& s.pending() == Seq::<u8>::empty()
                    &&& s.latest() == Seq::<char>::empty()
                    &&& !s.is_finished()
                    &&& !s.is_done()
                },
                Err(e) => e@ == FrameFault::Compression,
            },
    {
        let frame = full_request(1, request_json)?;
        Ok(
            (
                AsrStream {
                    seq: 2,
                    pcm: Vec::new(),
                    last_text: String::new(),
                    finished: false,
                    done: false,
                },
                frame,
            ),
        )
    }

    /// Queues s16le PCM for `samples` and returns the audio packets for every
    /// complete 100 ms segment, numbered consecutively from the next sequence
    /// number; the rest stays pending. It fails only when the sequence numbers
    /// would run past `i32::MAX`, and then changes nothing.
    pub fn push_audio(&mut self, samples: &[i16]) -> (res: Result<Vec<Vec<u8>>, StreamError>)
        ensures
            ({
                let data = old(self).pending() + pcm_bytes(samples@);
                let n = data.len() as int / (SEGMENT_BYTES as int);
                &&& (res is Ok <==> old(self).next_seq() + n <= i32::MAX)
                &&& match res {
                    Ok(frames) => {
                        &&& frames@.len() == n
                        &&& forall|i: int|
                            0 <= i < n ==> (#[trigger] frames@[i])@ == spec_audio_request(
                                (old(self).next_seq() + i) as i32,
                                gzip_bytes(segment(data, i)),
                                false,
                            )
                        &&& final(self).pending() == data.skip(n * SEGMENT_BYTES)
                        &&& final(self).pending().len() < SEGMENT_BYTES
                        &&& final(self).next_seq() == old(self).next_seq() + n
                        &&& final(self).latest() == old(self).latest()
                        &&& final(self).is_finished() == old(self).is_finished()
                        &&& final(self).is_done() == old(self).is_done()
                    },
                    Err(StreamError::SequenceExhausted) => old(self).next_seq() + n > i32::MAX
                        && *final(self) == *old(self),
                    Err(StreamError::Frame(_)) => false,
                    Err(StreamError::ClosedEarly) => false,
                }
            }),
    {
        proof {
            use_type_invariant(&*self);
        }
        let mut data: Vec<u8> = Vec::new();
        let mut k: usize = 0;
        while k < self.pcm.len()
            invariant
                k <= self.pcm@.len(),
                data@ == self.pcm@.take(k as int),
            decreases self.pcm@.len() - k,
        {
            data.push(self.pcm[k]);
            k = k + 1;
            assert(data@ =~= self.pcm@.take(k as int));
        }
        assert(self.pcm@.take(self.pcm@.len() as int) =~= self.pcm@);
        let mut j: usize = 0;
        while j < samples.len()
            invariant
                j <= samples@.len(),
                data@ == self.pcm@ + pcm_bytes(samples@.take(j as int)),
            decreases samples@.len() - j,
        {
            let u = #[verifier::truncate] (samples[j] as u16);
            data.push((u % 0x100) as u8);
            data.push((u / 0x100) as u8);
            assert(samples@.take(j + 1).drop_last() =~= samples@.take(j as int));
            j = j + 1;
            assert(data@ =~= self.pcm@ + pcm_bytes(samples@.take(j as int)));
        }
        assert(samples@.take(samples@.len() as int) =~= samples@);
        let ghost all = data@;
        let n = data.len() / SEGMENT_BYTES;
        if self.seq as u64 + n as u64 > i32::MAX as u64 {
            return Err(StreamError::SequenceExhausted);
        }
        assert(n * SEGMENT_BYTES <= all.len());
        let dlen = data.len();
        let mut frames: Vec<Vec<u8>> = Vec::new();
        let mut i: usize = 0;
        while i < n
            invariant
                data@ == all,
                dlen == all.len(),
                n * SEGMENT_BYTES <= all.len(),
                n == all.len() as int / (SEGMENT_BYTES as int),
                i <= n,
                frames@.len() == i,
                2 <= self.seq,
                self.seq as int + n <= i32::MAX,
                forall|t: int|
                    0 <= t < i ==> (#[trigger] frames@[t])@ == spec_audio_request(
                        (self.seq + t) as i32,
                        gzip_bytes(segment(all, t)),
                        false,
                    ),
            decreases n - i,
        {
            assert((i + 1) * SEGMENT_BYTES <= n * SEGMENT_BYTES) by (nonlinear_arith)
                requires
                    i < n,
            ;
            let seg = slice_subrange(data.as_slice(), i * SEGMENT_BYTES, (i + 1) * SEGMENT_BYTES);
            let seq_i = self.seq + i as i32;
            let f = match audio_request(seq_i, seg, false) {
                Ok(f) => f,
                Err(e) => return Err(StreamError::Frame(e)),
            };
            frames.push(f);
            i = i + 1;
        }
        let rest = slice_to_vec(slice_subrange(data.as_slice(), n * SEGMENT_BYTES, data.len()));
        let new_seq = self.seq + n as i32;
        self.pcm = rest;
        self.seq = new_seq;
        Ok(frames)
    }

    /// Ends the audio: the last packet carries whatever PCM is pending, with
    /// the negated sequence number; afterwards the session only waits for the
    /// final transcript.
    pub fn finish(&mut self) -> (res: Result<Vec<u8>, FrameError>)
        ensures
            res is Ok,
            match res {
                Ok(frame) => {
                    &&& frame@ == spec_audio_request(
                        old(self).next_seq() as i32,
                        gzip_bytes(old(self).pending()),
                        true,
                    )
                    &&& final(self).is_finished()
                    &&& final(self).pending() == Seq::<u8>::empty()
                    &&& final(self).next_seq() == old(self).next_seq()
                    &&& final(self).latest() == old(self).latest()
                    &&& final(self).is_done() == old(self).is_done()
                },
                Err(e) => e@ == FrameFault::Compression,
            },
    {
        proof {
            use_type_invariant(&*self);
        }
        let frame = audio_request(self.seq, self.pcm.as_slice(), true)?;
        self.pcm = Vec::new();
        self.finished = true;
        Ok(frame)
    }

    /// Whether the last audio packet has been sent (no more audio is taken).
    pub fn finished(&self) -> (b: bool)
        ensures
            b == self.is_finished(),
    {
        self.finished
    }

    /// How long to wait for the next server message, in seconds.
    pub fn read_timeout_secs(&self) -> (t: u64)
        ensures
            t == if self.is_finished() {
                FINAL_TIMEOUT_SECS
            } else {
                IDLE_TIMEOUT_SECS
            },
    {
        if self.finished {
            FINAL_TIMEOUT_SECS
        } else {
            IDLE_TIMEOUT_SECS
        }
    }

    /// Handles the transcript of one server response. A non-empty transcript
    /// becomes the latest one. The last response yields the final transcript
    /// (the latest one, which may stem from an earlier response) and ends the
    /// session; any other non-empty transcript is reported as a partial. Once
    /// the final transcript has been delivered, responses yield nothing and
    /// change nothing.
    pub fn on_response(&mut self, is_last: bool, text: String) -> (ev: Option<VolcEvent>)
        ensures
            old(self).is_done() ==> ev is None && *final(self) == *old(self),
            !old(self).is_done() ==> {
                &&& final(self).latest() == if text@.len() > 0 {
                    text@
                } else {
                    old(self).latest()
                }
                &&& final(self).next_seq() == old(self).next_seq()
                &&& final(self).pending() == old(self).pending()
                &&& final(self).is_finished() == old(self).is_finished()
                &&& final(self).is_done() == is_last
                &&& match ev {
                    Some(VolcEvent::Final(t)) => is_last && t@ == final(self).latest(),
                    Some(VolcEvent::Partial(t)) => !is_last && text@.len() > 0 && t@ == text@,
                    None => !is_last && text@.len() == 0,
                    _ => false,
                }
            },
    {
        proof {
            use_type_invariant(&*self);
        }
        if self.done {
            return None;
        }
        let nonempty = !text.as_str().is_empty();
        if nonempty {
            self.last_text = text.clone();
        }
        if is_last {
            self.done = true;
            Some(VolcEvent::Final(self.last_text.clone()))
        } else if nonempty {
            Some(VolcEvent::Partial(text))
        } else {
            None
        }
    }

    /// The socket closed: after the last packet this delivers the latest
    /// transcript as the final one and ends the session; before it, the
    /// session failed. When the final transcript was already delivered,
    /// nothing more is reported.
    pub fn on_closed(&mut self) -> (res: Result<Option<VolcEvent>, StreamError>)
        ensures
            final(self).latest() == old(self).latest(),
            final(self).next_seq() == old(self).next_seq(),
            final(self).pending() == old(self).pending(),
            final(self).is_finished() == old(self).is_finished(),
            match res {
                Ok(None) => old(self).is_done() && final(self).is_done(),
                Ok(Some(VolcEvent::Final(t))) => {
                    &&& !old(self).is_done()
                    &&& old(self).is_finished()
                    &&& t@ == old(self).latest()
                    &&& final(self).is_done()
                },
                Err(StreamError::ClosedEarly) => {
                    &&& !old(self).is_done()
                    &&& !old(self).is_finished()
                    &&& !final(self).is_done()
                },
                _ => false,
            },
    {
        proof {
            use_type_invariant(&*self);
        }
        if self.done {
            Ok(None)
        } else if self.finished {
            self.done = true;
            Ok(Some(VolcEvent::Final(self.last_text.clone())))
        } else {
            Err(StreamError::ClosedEarly)
        }
    }
}

} // verus!
