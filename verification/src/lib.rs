//! Hold-to-talk voice typing: the verified core.
//!
//! The library holds the decisions and data transformations of the voice
//! typing daemon: the VolcEngine streaming-ASR wire protocol, the typing
//! planner that turns streaming transcripts into keystrokes, transcript
//! cleanup, hotkey bookkeeping and the tray-icon pixel formats.
pub mod asr;
pub mod audio;
pub mod correct;
pub mod hotkey;
pub mod icons;
pub mod json;
pub mod overlay;
pub mod scope;
pub mod session;
pub mod statusbar;
pub mod text;
pub mod typewriter;
pub mod typing;
pub mod volc;
pub mod volc_frame;
pub mod wav;
