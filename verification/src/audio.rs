//! Choice of the microphone among the input devices.
use vstd::prelude::*;
use crate::text::{contains, str_contains};

verus! {

/// Whether an input device is preferred over the system default: PipeWire,
/// an ALSA card (`CARD=`) or anything named a microphone.
pub fn is_preferred_input(name: &str) -> (b: bool)
    ensures
        b == (contains(name@, "pipewire"@) || contains(name@, "CARD="@) || contains(name@, "Mic"@)),
{
    str_contains(name, "pipewire") || str_contains(name, "CARD=") || str_contains(name, "Mic")
}

} // verus!
