# voice-type

Hold-to-talk voice typing for Linux: hold Alt, speak, and the transcript is
typed live at the cursor while streaming speech recognition runs; on release
the final transcript completes the utterance and an optional LLM pass
corrects it.

The project is a Verus crate. `src/` is the verified library: the daemon's
decisions and data transformations, with contracts proved by Verus. The
outside crates it calls (serde_json, flate2, hound) stand behind small
trusted wrappers whose contracts are stated, not proved.

- `volc_frame`, `volc`: the VolcEngine streaming-ASR binary framing (client
  frames, server frame parsing), 100 ms audio segmentation, sequence numbers,
  partial and final transcripts, credentials and the config file's fields.
- `json`: whether a text is JSON, and the strings at JSON pointers of it.
- `typing`: the plan that moves the on-screen text to the newest transcript
  (append, or backspace to the longest common prefix and retype).
- `session`: the utterance lifecycle (press, release, stream events, final
  timeout) and how a finished stream is resolved.
- `asr`, `wav`, `correct`, `typewriter`, `audio`: transcript cleanup and the
  WAV upload, the corrector's settings and answer handling, the typing tools'
  command lines, microphone choice.
- `hotkey`: device selection, press/release edges and the keymap entries that
  remap the hotkey to F13 and restore it.
- `icons`, `overlay`, `statusbar`, `scope`: pixel formats, the bitmap font,
  line/circle/disc/rectangle rasterizers and the oscilloscope ring index.

`app/` is the program around it: evdev, cpal, websockets, HTTP clients, file
reading, the tray and process spawning, plus the floating-point audio and icon
shading. The macOS backends, the Wayland overlay window and the status bar's
animation are not part of this Linux build.
`tests/` exercises the library on concrete values.
