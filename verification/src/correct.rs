//! Post-ASR transcript correction through the VolcEngine Ark chat API: its
//! configuration and the handling of the model's answer.
use vstd::prelude::*;
use vstd::string::{StrSliceExecFns, StringExecFns};
use crate::text::{contains, lowercase, str_contains, str_eq, to_lowercase, trim, trim_str};
use crate::json::{json_compact, json_compact_text, json_parses, json_str_at, json_str_lookup, json_valid};
use crate::volc::{opt_chars, opt_text};

verus! {

/// The Ark model used when `VT_CORRECT_MODEL` is not set (a fast
/// non-thinking model).
pub open spec fn default_model() -> Seq<char> {
    "doubao-seed-2-1-turbo-260628"@
}

/// Corrector settings.
pub struct CorrectorConfig {
    pub enabled: bool,
    pub api_key: String,
    pub model: String,
}

/// Whether a `VT_CORRECT` value (already lowercased) switches correction off.
pub open spec fn is_off_switch(l: Seq<char>) -> bool {
    l == "0"@ || l == "false"@ || l == "no"@ || l == "off"@
}

/// The settings for `VT_ARK_API_KEY`, `VT_CORRECT` and `VT_CORRECT_MODEL`:
/// the key is trimmed; correction is on when the key is not blank and
/// `VT_CORRECT` is not `0`/`false`/`no`/`off` (any case); the model defaults
/// to the turbo model.
pub fn corrector_config(
    api_key: &Option<String>,
    correct_flag: &Option<String>,
    model: Option<String>,
) -> (c: CorrectorConfig)
    ensures
        c.api_key@ == trim(opt_text(*api_key)),
        c.enabled == (trim(opt_text(*api_key)).len() > 0 && !is_off_switch(
            lowercase(opt_text(*correct_flag)),
        )),
        c.model@ == match model {
            Some(m) => m@,
            None => default_model(),
        },
{
    let key = match api_key {
        Some(k) => String::from_str(trim_str(k.as_str())),
        None => String::new(),
    };
    let flag = match correct_flag {
        Some(f) => to_lowercase(f.as_str()),
        None => to_lowercase(""),
    };
    proof {
        reveal_strlit("");
        assert(opt_text(*correct_flag) == (match correct_flag {
            Some(f) => f@,
            None => ""@,
        }));
    }
    let f = flag.as_str();
    let off = str_eq(f, "0") || str_eq(f, "false") || str_eq(f, "no") || str_eq(f, "off");
    let enabled = !key.as_str().is_empty() && !off;
    let model = match model {
        Some(m) => m,
        None => String::from_str("doubao-seed-2-1-turbo-260628"),
    };
    CorrectorConfig { enabled, api_key: key, model }
}

impl CorrectorConfig {
    /// Whether correction is on.
    pub fn enabled(&self) -> (b: bool)
        ensures
            b == self.enabled,
    {
        self.enabled
    }

    /// Whether `raw` needs a request: correction is on and the text is not
    /// blank (otherwise the text is returned as it is).
    pub fn needs_request(&self, raw: &str) -> (b: bool)
        ensures
            b == (self.enabled && trim(raw@).len() > 0),
    {
        self.enabled && !trim_str(raw).is_empty()
    }

    /// Doubao "seed" models (and 1.6 models) think by default: the request
    /// switches thinking off for them.
    pub fn disables_thinking(&self) -> (b: bool)
        ensures
            b == (contains(self.model@, "seed"@) || contains(self.model@, "1.6"@)),
    {
        str_contains(self.model.as_str(), "seed") || str_contains(self.model.as_str(), "1.6")
    }
}

/// Whether to resend without the thinking switch: it was sent and the API
/// rejected the request with 400 or 404.
pub fn retry_without_thinking(thinking_off: bool, status: u16) -> (b: bool)
    ensures
        b == (thinking_off && (status == 400 || status == 404)),
{
    thinking_off && (status == 400 || status == 404)
}

/// Why a correction produced no text.
#[derive(Debug)]
pub enum CorrectError {
    /// The response body is not JSON.
    Unparsable,
    /// The API answered with an unsuccessful status: the status as the HTTP
    /// client shows it, and the answer's JSON written compactly.
    Failed { status: String, body: String },
    /// The answer's content was missing or blank.
    Empty,
}

impl CorrectError {
    /// The error's text.
    pub fn message(&self) -> (s: String)
        ensures
            s@ == match *self {
                CorrectError::Unparsable => "failed to parse Ark correction response"@,
                CorrectError::Failed { status, body } => "Ark correction failed ("@ + status@
                    + "): "@ + body@,
                CorrectError::Empty => "Ark correction returned empty content"@,
            },
    {
        match self {
            CorrectError::Unparsable => String::from_str("failed to parse Ark correction response"),
            CorrectError::Failed { status, body } => {
                let mut s = String::from_str("Ark correction failed (");
                s.append(status.as_str());
                s.append("): ");
                s.append(body.as_str());
                s
            },
            CorrectError::Empty => String::from_str("Ark correction returned empty content"),
        }
    }
}

/// The corrected text an Ark chat answer carries: its trimmed
/// `/choices/0/message/content` (empty when that is not a string).
pub open spec fn ark_content(body: Seq<u8>) -> Seq<char> {
    trim(opt_chars(json_str_at(body, "/choices/0/message/content"@)))
}

/// The corrected text from an Ark answer with HTTP status `status` (whether
/// it is a success, and its text) and response body `body`: the body must
/// be JSON, the status successful and the content not blank.
pub fn ark_reply(success: bool, status: &str, body: &[u8]) -> (r: Result<String, CorrectError>)
    ensures
        match r {
            Ok(t) => json_parses(body@) && success && ark_content(body@).len() > 0 && t@
                == ark_content(body@),
            Err(CorrectError::Unparsable) => !json_parses(body@),
            Err(CorrectError::Failed { status: s, body: b }) => json_parses(body@) && !success
                && s@ == status@ && b@ == json_compact(body@),
            Err(CorrectError::Empty) => json_parses(body@) && success && ark_content(body@).len()
                == 0,
        },
{
    if !json_valid(body) {
        return Err(CorrectError::Unparsable);
    }
    if !success {
        return Err(
            CorrectError::Failed { status: String::from_str(status), body: json_compact_text(body) },
        );
    }
    let content = json_str_lookup(body, "/choices/0/message/content");
    let t = match &content {
        Some(c) => trim_str(c.as_str()),
        None => {
            proof {
                reveal_strlit("");
            }
            ""
        },
    };
    if t.is_empty() {
        Err(CorrectError::Empty)
    } else {
        Ok(String::from_str(t))
    }
}

} // verus!
