//! The daemon's utterance lifecycle: UI states and the decisions the event
//! loop takes between hotkey, audio, ASR and typing events.
use vstd::prelude::*;
use vstd::string::{StrSliceExecFns, StringExecFns};
use crate::text::{is_ws, lemma_trim_shape, lowercase, str_eq, to_lowercase, trim, trim_str};

verus! {

#[verifier::external_type_specification]
#[verifier::external_body]
pub struct ExInstant(std::time::Instant);

/// `Instant::clone` (called by the derived `Clone` of [`UiState`]):
/// `Instant` is `Copy`, so the clone is the same instant.
pub assume_specification[ <std::time::Instant as Clone>::clone ](i: &std::time::Instant) -> (r:
    std::time::Instant)
    ensures
        r == *i,
;

/// What the tray shows.
#[derive(Clone, Debug)]
pub enum UiState {
    Idle,
    Recording { started_at: std::time::Instant },
    Transcribing { started_at: std::time::Instant },
    Done { text: String },
    Error { msg: String },
}

/// Commands accepted by the tray.
#[derive(Clone)]
pub enum TrayCmd {
    UpdateState(UiState),
    Quit,
}

/// Recordings shorter than this many samples are not worth transcribing.
pub const MIN_CHUNK_SAMPLES: usize = 8000;

/// Which speech recognizer to use.
#[derive(Clone, Copy, Debug, PartialEq, Eq, Structural)]
pub enum AsrProvider {
    /// VolcEngine when its key is configured, else local whisper.
    Auto,
    Volc,
    Whisper,
}

/// The provider named by `VT_ASR_PROVIDER` (case-insensitive): `volc`,
/// `volcengine` or `pi-voice-input` select VolcEngine, `whisper` or `local`
/// the local server, anything else (or nothing) automatic choice.
pub open spec fn spec_asr_provider(value: Seq<char>) -> AsrProvider {
    let l = lowercase(value);
    if l == "volc"@ || l == "volcengine"@ || l == "pi-voice-input"@ {
        AsrProvider::Volc
    } else if l == "whisper"@ || l == "local"@ {
        AsrProvider::Whisper
    } else {
        AsrProvider::Auto
    }
}

pub fn asr_provider(value: &str) -> (p: AsrProvider)
    ensures
        p == spec_asr_provider(value@),
{
    let l = to_lowercase(value);
    let l = l.as_str();
    if str_eq(l, "volc") || str_eq(l, "volcengine") || str_eq(l, "pi-voice-input") {
        AsrProvider::Volc
    } else if str_eq(l, "whisper") || str_eq(l, "local") {
        AsrProvider::Whisper
    } else {
        AsrProvider::Auto
    }
}

/// Whether to stream to VolcEngine: when selected, or automatically when its
/// key is configured.
pub fn use_volc(provider: AsrProvider, volc_available: bool) -> (b: bool)
    ensures
        b == match provider {
            AsrProvider::Volc => true,
            AsrProvider::Whisper => false,
            AsrProvider::Auto => volc_available,
        },
{
    match provider {
        AsrProvider::Volc => true,
        AsrProvider::Whisper => false,
        AsrProvider::Auto => volc_available,
    }
}

/// How a finished streaming utterance is resolved.
#[derive(Debug)]
pub enum VolcResolution {
    /// Type the final transcript (the typing step goes to the trimmed text),
    /// then report it done and correct it.
    TypeFinal(String),
    /// The final transcript is blank: keep the partials already typed as the
    /// result, report them done and correct them.
    KeepTyped(String),
    /// Nothing was recognized or typed.
    Idle,
    /// Streaming failed: transcribe the buffered recording with whisper.
    WhisperFallback,
    /// Streaming failed and the recording is too short to retry.
    Fail(String),
}

/// Whether `r` resolves the streaming result `res` (final text or failure
/// message), given what is already typed and how many samples are buffered:
/// a non-blank final is typed; a blank one keeps the typed partials (or
/// nothing); a failure falls back to whisper when there is enough audio and
/// is reported otherwise.
pub open spec fn resolves_as(
    res: Result<String, String>,
    typed: Seq<char>,
    buffered_samples: usize,
    r: VolcResolution,
) -> bool {
    match res {
        Ok(text) => if trim(text@).len() > 0 {
            r matches VolcResolution::TypeFinal(t) && t@ == text@
        } else if typed.len() > 0 {
            r matches VolcResolution::KeepTyped(t) && t@ == typed
        } else {
            r is Idle
        },
        Err(msg) => if buffered_samples >= MIN_CHUNK_SAMPLES {
            r is WhisperFallback
        } else {
            r matches VolcResolution::Fail(m) && m@ == msg@
        },
    }
}

/// The resolution of a streaming result `res` (final text or failure
/// message), given what is already typed and how many samples are buffered.
pub fn resolution_of(res: Result<String, String>, typed: &str, buffered_samples: usize) -> (r:
    VolcResolution)
    ensures
        resolves_as(res, typed@, buffered_samples, r),
{
    match res {
        Ok(text) => {
            if !trim_str(text.as_str()).is_empty() {
                VolcResolution::TypeFinal(text)
            } else if !typed.is_empty() {
                VolcResolution::KeepTyped(String::from_str(typed))
            } else {
                VolcResolution::Idle
            }
        },
        Err(msg) => {
            if buffered_samples >= MIN_CHUNK_SAMPLES {
                VolcResolution::WhisperFallback
            } else {
                VolcResolution::Fail(msg)
            }
        },
    }
}

/// The text to type for a whole-recording transcript: the trimmed text, or
/// nothing when it is blank.
pub fn final_transcript(text: &str) -> (t: Option<String>)
    ensures
        match t {
            Some(s) => {
                &&& trim(text@).len() > 0
                &&& s@ == trim(text@)
                &&& !is_ws(s@[0]) && !is_ws(s@.last())
            },
            None => trim(text@).len() == 0,
        },
{
    proof {
        lemma_trim_shape(text@);
    }
    let s = trim_str(text);
    if s.is_empty() {
        None
    } else {
        Some(String::from_str(s))
    }
}

/// Whether a typed result goes through the transcript corrector: it is
/// enabled and the text is not blank.
pub fn wants_correction(enabled: bool, typed_text: &str) -> (b: bool)
    ensures
        b == (enabled && trim(typed_text@).len() > 0),
{
    enabled && !trim_str(typed_text).is_empty()
}

/// Replacing a typed result with its correction.
#[derive(Debug)]
pub struct CorrectionEdit {
    pub backspaces: usize,
    pub retype: String,
}

/// The edit that swaps the typed result for the corrected one: only when the
/// correction differs and no newer utterance started since the correction
/// was requested (its backspaces would destroy the new text); every typed
/// character is deleted and the correction typed.
pub fn correction_edit(typed_text: &str, fixed: &str, requested_in: u64, current_utterance: u64) -> (e:
    Option<CorrectionEdit>)
    ensures
        match e {
            Some(edit) => {
                &&& fixed@ != typed_text@
                &&& requested_in == current_utterance
                &&& edit.backspaces == typed_text@.len()
                &&& edit.retype@ == fixed@
            },
            None => fixed@ == typed_text@ || requested_in != current_utterance,
        },
{
    if str_eq(fixed, typed_text) || requested_in != current_utterance {
        None
    } else {
        Some(CorrectionEdit { backspaces: typed_text.unicode_len(), retype: String::from_str(fixed) })
    }
}

// ---------------------------------------------------------------------------
// The utterance lifecycle
// ---------------------------------------------------------------------------

/// Where the VolcEngine stream of the current utterance stands.
#[derive(Clone, Copy, Debug, PartialEq, Eq, Structural)]
pub enum StreamPhase {
    /// No stream: the recording goes to local whisper after release.
    Off,
    /// Streaming while the key is held.
    Live,
    /// The key was released and the last packet sent: waiting for the final
    /// transcript.
    AwaitingFinal,
}

/// What to do about a hotkey press.
#[derive(Debug, PartialEq, Eq, Structural)]
pub enum PressPlan {
    /// Already recording: nothing.
    Ignore,
    /// Start an utterance: new utterance number, empty buffer, nothing typed,
    /// show recording, open a stream when `open_stream`, start the audio.
    Start { open_stream: bool },
}

/// What to do about a hotkey release (after the audio is stopped and the
/// queued chunks are drained into the buffer).
#[derive(Debug, PartialEq, Eq, Structural)]
pub enum ReleasePlan {
    /// Not recording: nothing.
    Ignore,
    /// Streaming: show transcribing, send the last packet, wait for the final.
    AwaitFinal,
    /// Local path with enough audio: show transcribing and transcribe the
    /// buffer with whisper; then clear the buffer.
    Transcribe,
    /// Local path with too little audio: show idle; clear the buffer.
    Idle,
}

/// A streaming event, without its text.
#[derive(Clone, Copy, Debug, PartialEq, Eq, Structural)]
pub enum StreamSignal {
    Ready,
    Partial,
    Final,
    Failed,
    /// The event channel closed (the worker is gone).
    Disconnected,
}

/// What to do about a streaming event.
#[derive(Debug, PartialEq, Eq, Structural)]
pub enum StreamPlan {
    /// Nothing.
    Ignore,
    /// Type the partial transcript live.
    TypePartial,
    /// Resolve the utterance with the event's final text.
    ResolveFinal,
    /// Resolve the utterance with what is already typed.
    ResolveTyped,
    /// Resolve the utterance as failed with the event's message.
    ResolveFailed,
    /// Drop the stream but keep recording; the release falls back to whisper.
    DropStream,
}

/// The event loop's view of the current utterance: whether the key is held
/// (audio running), where its stream stands, and how many samples of the
/// recording are buffered.
pub struct Session {
    recording: bool,
    stream: StreamPhase,
    buffered: usize,
}

impl Session {
    #[verifier::type_invariant]
    spec fn inv(self) -> bool {
        self.recording ==> self.stream != StreamPhase::AwaitingFinal
    }

    pub closed spec fn is_recording(self) -> bool {
        self.recording
    }

    pub closed spec fn phase(self) -> StreamPhase {
        self.stream
    }

    /// Samples in the recording buffer.
    pub closed spec fn samples(self) -> nat {
        self.buffered as nat
    }

    /// Idle: not recording, no stream, nothing buffered.
    pub fn new() -> (s: Session)
        ensures
            !s.is_recording(),
            s.phase() == StreamPhase::Off,
            s.samples() == 0,
    {
        Session { recording: false, stream: StreamPhase::Off, buffered: 0 }
    }

    /// Whether the key is held and audio is being recorded.
    pub fn recording(&self) -> (b: bool)
        ensures
            b == self.is_recording(),
    {
        self.recording
    }

    /// Where the stream stands.
    pub fn stream_phase(&self) -> (p: StreamPhase)
        ensures
            p == self.phase(),
    {
        self.stream
    }

    /// How many samples are buffered.
    pub fn buffered(&self) -> (n: usize)
        ensures
            n == self.samples(),
    {
        self.buffered
    }

    /// Whether audio chunks are kept (and streamed, when a stream is live).
    pub fn keeps_audio(&self) -> (b: bool)
        ensures
            b == self.is_recording(),
    {
        self.recording
    }

    /// A chunk of `n` samples arrived: while recording it is kept (returns
    /// `true`) and the buffer grows by `n`; otherwise it is dropped.
    pub fn keep_audio(&mut self, n: usize) -> (kept: bool)
        requires
            old(self).samples() + n <= usize::MAX,
        ensures
            kept == old(self).is_recording(),
            final(self).samples() == old(self).samples() + if kept {
                n as int
            } else {
                0
            },
            final(self).is_recording() == old(self).is_recording(),
            final(self).phase() == old(self).phase(),
    {
        proof {
            use_type_invariant(&*self);
        }
        if self.recording {
            self.buffered = self.buffered + n;
            true
        } else {
            false
        }
    }

    /// A press starts an utterance unless one is being recorded: the buffer
    /// is emptied and the stream of a previous utterance still waiting for
    /// its final is abandoned.
    pub fn press(&mut self, use_volc: bool) -> (plan: PressPlan)
        ensures
            old(self).is_recording() ==> plan == PressPlan::Ignore && *final(self) == *old(self),
            !old(self).is_recording() ==> plan == (PressPlan::Start { open_stream: use_volc })
                && !final(self).is_recording() && final(self).phase() == StreamPhase::Off
                && final(self).samples() == 0,
    {
        if self.recording {
            PressPlan::Ignore
        } else {
            self.stream = StreamPhase::Off;
            self.buffered = 0;
            PressPlan::Start { open_stream: use_volc }
        }
    }

    /// How starting went: with the audio running the utterance records
    /// (streaming when the stream opened); without audio the stream is
    /// dropped and the error shown.
    pub fn started(&mut self, stream_opened: bool, audio_started: bool)
        requires
            !old(self).is_recording(),
        ensures
            final(self).is_recording() == audio_started,
            final(self).phase() == if audio_started && stream_opened {
                StreamPhase::Live
            } else {
                StreamPhase::Off
            },
            final(self).samples() == old(self).samples(),
    {
        self.stream = if audio_started && stream_opened {
            StreamPhase::Live
        } else {
            StreamPhase::Off
        };
        self.recording = audio_started;
    }

    /// A release ends the recording (after the queued chunks were kept): a
    /// live stream then waits for its final transcript and keeps the buffer
    /// for a fallback; otherwise the buffer is transcribed locally when long
    /// enough, and emptied.
    pub fn release(&mut self) -> (plan: ReleasePlan)
        ensures
            !old(self).is_recording() ==> plan == ReleasePlan::Ignore && *final(self) == *old(self),
            old(self).is_recording() ==> {
                &&& !final(self).is_recording()
                &&& plan == if old(self).phase() == StreamPhase::Live {
                    ReleasePlan::AwaitFinal
                } else if old(self).samples() >= MIN_CHUNK_SAMPLES {
                    ReleasePlan::Transcribe
                } else {
                    ReleasePlan::Idle
                }
                &&& final(self).phase() == if old(self).phase() == StreamPhase::Live {
                    StreamPhase::AwaitingFinal
                } else {
                    StreamPhase::Off
                }
                &&& final(self).samples() == if old(self).phase() == StreamPhase::Live {
                    old(self).samples()
                } else {
                    0
                }
            },
    {
        proof {
            use_type_invariant(&*self);
        }
        if !self.recording {
            return ReleasePlan::Ignore;
        }
        self.recording = false;
        match self.stream {
            StreamPhase::Live => {
                self.stream = StreamPhase::AwaitingFinal;
                ReleasePlan::AwaitFinal
            },
            _ => {
                let plan = if self.buffered >= MIN_CHUNK_SAMPLES {
                    ReleasePlan::Transcribe
                } else {
                    ReleasePlan::Idle
                };
                self.buffered = 0;
                plan
            },
        }
    }

    /// Handles an event of the current stream (`nonempty`: the event's text
    /// is not empty). A final, a failure after release, or the worker
    /// vanishing while the final is awaited call for resolving the utterance
    /// (see [`Session::resolve`]); a failure while recording only drops the
    /// stream.
    pub fn stream_event(&mut self, signal: StreamSignal, nonempty: bool) -> (plan: StreamPlan)
        requires
            old(self).phase() != StreamPhase::Off,
        ensures
            final(self).is_recording() == old(self).is_recording(),
            final(self).samples() == old(self).samples(),
            plan == match signal {
                StreamSignal::Ready => StreamPlan::Ignore,
                StreamSignal::Partial => if nonempty {
                    StreamPlan::TypePartial
                } else {
                    StreamPlan::Ignore
                },
                StreamSignal::Final => StreamPlan::ResolveFinal,
                StreamSignal::Failed => if old(self).is_recording() {
                    StreamPlan::DropStream
                } else {
                    StreamPlan::ResolveFailed
                },
                StreamSignal::Disconnected => if old(self).phase() == StreamPhase::AwaitingFinal {
                    StreamPlan::ResolveTyped
                } else {
                    StreamPlan::Ignore
                },
            },
            final(self).phase() == match plan {
                StreamPlan::ResolveFinal | StreamPlan::ResolveTyped | StreamPlan::ResolveFailed
                | StreamPlan::DropStream => StreamPhase::Off,
                _ => old(self).phase(),
            },
    {
        proof {
            use_type_invariant(&*self);
        }
        match signal {
            StreamSignal::Ready => StreamPlan::Ignore,
            StreamSignal::Partial => {
                if nonempty {
                    StreamPlan::TypePartial
                } else {
                    StreamPlan::Ignore
                }
            },
            StreamSignal::Final => {
                self.stream = StreamPhase::Off;
                StreamPlan::ResolveFinal
            },
            StreamSignal::Failed => {
                self.stream = StreamPhase::Off;
                if self.recording {
                    StreamPlan::DropStream
                } else {
                    StreamPlan::ResolveFailed
                }
            },
            StreamSignal::Disconnected => {
                if self.stream == StreamPhase::AwaitingFinal {
                    self.stream = StreamPhase::Off;
                    StreamPlan::ResolveTyped
                } else {
                    StreamPlan::Ignore
                }
            },
        }
    }

    /// A quiet tick: when the final transcript is overdue the utterance is
    /// to be resolved as timed out (returns `true`) and the stream ends.
    pub fn tick(&mut self, final_overdue: bool) -> (timed_out: bool)
        ensures
            timed_out == (old(self).phase() == StreamPhase::AwaitingFinal && final_overdue),
            final(self).is_recording() == old(self).is_recording(),
            final(self).samples() == old(self).samples(),
            final(self).phase() == if timed_out {
                StreamPhase::Off
            } else {
                old(self).phase()
            },
    {
        if self.stream == StreamPhase::AwaitingFinal && final_overdue {
            self.stream = StreamPhase::Off;
            true
        } else {
            false
        }
    }

    /// Resolves the streaming utterance with `res` (given the text already
    /// typed): the resolution [`resolution_of`] decides from the buffered
    /// samples. On every branch the stream is over afterwards (no session
    /// and no wait for a final transcript) and the buffer is empty (a
    /// whisper fallback takes the samples).
    pub fn resolve_volc(&mut self, res: Result<String, String>, typed: &str) -> (r: VolcResolution)
        ensures
            resolves_as(res, typed@, old(self).samples() as usize, r),
            final(self).phase() == StreamPhase::Off,
            final(self).samples() == 0,
            final(self).is_recording() == old(self).is_recording(),
    {
        proof {
            use_type_invariant(&*self);
        }
        let r = resolution_of(res, typed, self.buffered);
        self.stream = StreamPhase::Off;
        self.buffered = 0;
        r
    }
}

/// The message an overdue final transcript resolves with.
pub fn final_timeout_message() -> (s: String)
    ensures
        s@ == "volc streaming timed out waiting for the final transcript"@,
{
    String::from_str("volc streaming timed out waiting for the final transcript")
}

} // verus!
