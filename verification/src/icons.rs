//! Tray icon pixel formats and the per-state appearance of the tray.
//!
//! Icons are RGBA8 buffers (`[R, G, B, A]` per pixel, row-major, top-down)
//! rendered into a [`Canvas`]; the tray host wants ARGB32 in network byte
//! order.
use vstd::prelude::*;
use vstd::string::StringExecFns;
use crate::session::UiState;

verus! {

/// Native pixmap size shipped to the tray host.
pub const ICON_SIZE: u32 = 64;

/// Raw RGBA8 icon: bytes are `[R, G, B, A]` per pixel, row-major, top-down.
#[derive(Clone)]
pub struct IconData {
    pub width: i32,
    pub height: i32,
    pub rgba: Vec<u8>,
}

/// Where byte `j` of the ARGB output comes from in the RGBA input.
pub open spec fn argb_source(j: int) -> int {
    j - j % 4 + if j % 4 == 0 {
        3
    } else {
        j % 4 - 1
    }
}

/// Where byte `j` of the RGBA output comes from in the ARGB input.
pub open spec fn rgba_source(j: int) -> int {
    j - j % 4 + if j % 4 == 3 {
        0
    } else {
        j % 4 + 1
    }
}

/// RGBA bytes reordered to `[A, R, G, B]` per pixel.
pub open spec fn argb_of(rgba: Seq<u8>) -> Seq<u8> {
    Seq::new(rgba.len(), |j: int| rgba[argb_source(j)])
}

/// ARGB bytes reordered to `[R, G, B, A]` per pixel.
pub open spec fn rgba_of(argb: Seq<u8>) -> Seq<u8> {
    Seq::new(argb.len(), |j: int| argb[rgba_source(j)])
}

/// The reorder loses nothing: every pixel keeps its four channels, and
/// reordering back restores the RGBA buffer.
pub proof fn lemma_argb_roundtrip(rgba: Seq<u8>)
    requires
        rgba.len() % 4 == 0,
    ensures
        rgba_of(argb_of(rgba)) == rgba,
        argb_of(rgba).len() == rgba.len(),
{
    let a = argb_of(rgba);
    assert forall|j: int| 0 <= j < rgba.len() implies #[trigger] rgba_of(a)[j] == rgba[j] by {
        let s = rgba_source(j);
        assert(0 <= s < rgba.len());
        assert(argb_source(s) == j);
    }
    assert(rgba_of(a) =~= rgba);
}

impl IconData {
    /// Reorder to ARGB32 in network byte order (big-endian `[A, R, G, B]`).
    pub fn to_argb32_be(&self) -> (out: Vec<u8>)
        requires
            self.rgba@.len() % 4 == 0,
        ensures
            out@ == argb_of(self.rgba@),
    {
        let n = self.rgba.len();
        let mut out: Vec<u8> = Vec::new();
        let mut i: usize = 0;
        while i < n
            invariant
                n == self.rgba@.len(),
                n % 4 == 0,
                i % 4 == 0,
                i <= n,
                out@ == argb_of(self.rgba@).take(i as int),
            decreases n - i,
        {
            out.push(self.rgba[i + 3]);
            out.push(self.rgba[i]);
            out.push(self.rgba[i + 1]);
            out.push(self.rgba[i + 2]);
            i = i + 4;
            assert(out@ =~= argb_of(self.rgba@).take(i as int));
        }
        assert(argb_of(self.rgba@).take(n as int) =~= argb_of(self.rgba@));
        out
    }
}

/// The pixels flattened into RGBA bytes.
pub open spec fn flatten(pixels: Seq<[u8; 4]>) -> Seq<u8> {
    Seq::new(pixels.len() * 4, |j: int| pixels[j / 4]@[j % 4])
}

/// An `ICON_SIZE` x `ICON_SIZE` RGBA canvas, row-major.
pub struct Canvas {
    size: u32,
    pixels: Vec<[u8; 4]>,
}

impl Canvas {
    #[verifier::type_invariant]
    spec fn inv(self) -> bool {
        &&& self.size == ICON_SIZE
        &&& self.pixels@.len() == ICON_SIZE * ICON_SIZE
    }

    /// The pixels, row-major.
    pub closed spec fn pixels(self) -> Seq<[u8; 4]> {
        self.pixels@
    }

    /// A fully transparent canvas.
    pub fn new() -> (c: Canvas)
        ensures
            c.pixels().len() == ICON_SIZE * ICON_SIZE,
            forall|i: int| 0 <= i < c.pixels().len() ==> #[trigger] c.pixels()[i] == [0u8, 0u8, 0u8, 0u8],
    {
        let mut pixels: Vec<[u8; 4]> = Vec::new();
        let mut i: usize = 0;
        while i < (ICON_SIZE * ICON_SIZE) as usize
            invariant
                i <= ICON_SIZE * ICON_SIZE,
                pixels@.len() == i,
                forall|k: int| 0 <= k < i ==> #[trigger] pixels@[k] == [0u8, 0u8, 0u8, 0u8],
            decreases ICON_SIZE * ICON_SIZE - i,
        {
            pixels.push([0u8, 0u8, 0u8, 0u8]);
            i = i + 1;
        }
        Canvas { size: ICON_SIZE, pixels }
    }

    /// Side length in pixels.
    pub fn size(&self) -> (s: u32)
        ensures
            s == ICON_SIZE,
    {
        proof {
            use_type_invariant(self);
        }
        self.size
    }

    /// The index of pixel (`x`, `y`), or `None` outside the canvas.
    pub fn pixel_index(&self, x: i32, y: i32) -> (i: Option<usize>)
        ensures
            match i {
                Some(k) => 0 <= x < ICON_SIZE && 0 <= y < ICON_SIZE && k == y * ICON_SIZE + x
                    && k < self.pixels().len(),
                None => !(0 <= x < ICON_SIZE && 0 <= y < ICON_SIZE),
            },
    {
        proof {
            use_type_invariant(self);
        }
        if x < 0 || y < 0 || (x as u32) >= self.size || (y as u32) >= self.size {
            None
        } else {
            Some((y as u32 * self.size + x as u32) as usize)
        }
    }

    /// The pixel at index `i`.
    pub fn pixel(&self, i: usize) -> (p: [u8; 4])
        requires
            i < self.pixels().len(),
        ensures
            p == self.pixels()[i as int],
    {
        self.pixels[i]
    }

    /// Replaces the pixel at index `i`.
    pub fn set_pixel(&mut self, i: usize, p: [u8; 4])
        requires
            i < old(self).pixels().len(),
        ensures
            final(self).pixels() == old(self).pixels().update(i as int, p),
    {
        proof {
            use_type_invariant(&*self);
        }
        self.pixels[i] = p;
    }

    /// The finished icon: the pixels as RGBA bytes, `ICON_SIZE` square.
    pub fn finish(self) -> (icon: IconData)
        ensures
            icon.width == ICON_SIZE,
            icon.height == ICON_SIZE,
            icon.rgba@ == flatten(self.pixels()),
    {
        proof {
            use_type_invariant(&self);
        }
        let n = self.pixels.len();
        let mut rgba: Vec<u8> = Vec::new();
        let mut i: usize = 0;
        while i < n
            invariant
                n == self.pixels@.len(),
                n == ICON_SIZE * ICON_SIZE,
                i <= n,
                rgba@ == flatten(self.pixels@).take(i * 4),
            decreases n - i,
        {
            let p = self.pixels[i];
            rgba.push(p[0]);
            rgba.push(p[1]);
            rgba.push(p[2]);
            rgba.push(p[3]);
            i = i + 1;
            assert(rgba@ =~= flatten(self.pixels@).take(i * 4));
        }
        assert(flatten(self.pixels@).take(n * 4) =~= flatten(self.pixels@));
        IconData { width: self.size as i32, height: self.size as i32, rgba }
    }
}

// ---------------------------------------------------------------------------
// Per-state appearance
// ---------------------------------------------------------------------------

/// The glyph drawn on the badge.
#[derive(Clone, Copy, Debug, PartialEq, Eq, Structural)]
pub enum StateGlyph {
    Microphone,
    Dots,
    Check,
    Cross,
}

/// Idle and recording show the microphone, transcribing three dots, done a
/// check mark, an error a cross.
pub fn state_glyph(state: &UiState) -> (g: StateGlyph)
    ensures
        g == match state {
            UiState::Idle | UiState::Recording { .. } => StateGlyph::Microphone,
            UiState::Transcribing { .. } => StateGlyph::Dots,
            UiState::Done { .. } => StateGlyph::Check,
            UiState::Error { .. } => StateGlyph::Cross,
        },
{
    match state {
        UiState::Idle | UiState::Recording { .. } => StateGlyph::Microphone,
        UiState::Transcribing { .. } => StateGlyph::Dots,
        UiState::Done { .. } => StateGlyph::Check,
        UiState::Error { .. } => StateGlyph::Cross,
    }
}

/// The badge's vertical gradient stops (top, bottom) as RGB: slate when
/// idle, vivid red recording, amber transcribing, green done, deep red on
/// error.
pub open spec fn spec_badge_colors(state: UiState) -> ([u8; 3], [u8; 3]) {
    match state {
        UiState::Idle => ([158u8, 166u8, 181u8], [93u8, 101u8, 119u8]),
        UiState::Recording { .. } => ([247u8, 94u8, 80u8], [205u8, 32u8, 32u8]),
        UiState::Transcribing { .. } => ([255u8, 200u8, 92u8], [236u8, 137u8, 12u8]),
        UiState::Done { .. } => ([88u8, 199u8, 142u8], [28u8, 141u8, 88u8]),
        UiState::Error { .. } => ([235u8, 64u8, 52u8], [148u8, 16u8, 16u8]),
    }
}

pub fn badge_colors(state: &UiState) -> (c: ([u8; 3], [u8; 3]))
    ensures
        c == spec_badge_colors(*state),
{
    match state {
        UiState::Idle => ([158u8, 166u8, 181u8], [93u8, 101u8, 119u8]),
        UiState::Recording { .. } => ([247u8, 94u8, 80u8], [205u8, 32u8, 32u8]),
        UiState::Transcribing { .. } => ([255u8, 200u8, 92u8], [236u8, 137u8, 12u8]),
        UiState::Done { .. } => ([88u8, 199u8, 142u8], [28u8, 141u8, 88u8]),
        UiState::Error { .. } => ([235u8, 64u8, 52u8], [148u8, 16u8, 16u8]),
    }
}

/// Which of the five states `s` is, numbered in the order they are listed.
pub open spec fn state_kind(s: UiState) -> int {
    match s {
        UiState::Idle => 0,
        UiState::Recording { .. } => 1,
        UiState::Transcribing { .. } => 2,
        UiState::Done { .. } => 3,
        UiState::Error { .. } => 4,
    }
}

/// Every state shows its own badge: two states of different kinds never
/// share a gradient, so states that share a glyph (idle and recording both
/// show the microphone) are still told apart by colour.
pub proof fn lemma_badge_colors_distinct(a: UiState, b: UiState)
    requires
        state_kind(a) != state_kind(b),
    ensures
        spec_badge_colors(a) != spec_badge_colors(b),
{
    let (ta, _) = spec_badge_colors(a);
    let (tb, _) = spec_badge_colors(b);
    if spec_badge_colors(a) == spec_badge_colors(b) {
        assert(ta@ == tb@);
        assert(ta@[0] == tb@[0] && ta@[1] == tb@[1] && ta@[2] == tb@[2]);
    }
}

/// The icon name each state is installed under in the private icon theme.
pub fn state_icon_name(state: &UiState) -> (n: &'static str)
    ensures
        n@ == match state {
            UiState::Idle => "voice-type-idle"@,
            UiState::Recording { .. } => "voice-type-recording"@,
            UiState::Transcribing { .. } => "voice-type-transcribing"@,
            UiState::Done { .. } => "voice-type-done"@,
            UiState::Error { .. } => "voice-type-error"@,
        },
{
    match state {
        UiState::Idle => "voice-type-idle",
        UiState::Recording { .. } => "voice-type-recording",
        UiState::Transcribing { .. } => "voice-type-transcribing",
        UiState::Done { .. } => "voice-type-done",
        UiState::Error { .. } => "voice-type-error",
    }
}

/// The tray tooltip (title, description) for a state: a hint when idle, the
/// transcript when done, the message on error.
pub fn tool_tip(state: &UiState) -> (t: (String, String))
    ensures
        (t.0@, t.1@) == match *state {
            UiState::Idle => ("Idle"@, "Press hotkey to start recording"@),
            UiState::Recording { .. } => ("Recording"@, "Speak now..."@),
            UiState::Transcribing { .. } => ("Transcribing"@, "Processing audio..."@),
            UiState::Done { text } => ("Done"@, text@),
            UiState::Error { msg } => ("Error"@, msg@),
        },
{
    match state {
        UiState::Idle => (String::from_str("Idle"), String::from_str("Press hotkey to start recording")),
        UiState::Recording { .. } => (String::from_str("Recording"), String::from_str("Speak now...")),
        UiState::Transcribing { .. } => (
            String::from_str("Transcribing"),
            String::from_str("Processing audio..."),
        ),
        UiState::Done { text } => (String::from_str("Done"), text.clone()),
        UiState::Error { msg } => (String::from_str("Error"), msg.clone()),
    }
}

/// The status line of the tray menu.
pub fn status_text(state: &UiState) -> (s: String)
    ensures
        s@ == match *state {
            UiState::Idle => "Voice Type - Idle"@,
            UiState::Recording { .. } => "Recording..."@,
            UiState::Transcribing { .. } => "Transcribing..."@,
            UiState::Done { text } => "Done: "@ + text@,
            UiState::Error { msg } => "Error: "@ + msg@,
        },
{
    match state {
        UiState::Idle => String::from_str("Voice Type - Idle"),
        UiState::Recording { .. } => String::from_str("Recording..."),
        UiState::Transcribing { .. } => String::from_str("Transcribing..."),
        UiState::Done { text } => {
            let mut s = String::from_str("Done: ");
            s.append(text.as_str());
            s
        },
        UiState::Error { msg } => {
            let mut s = String::from_str("Error: ");
            s.append(msg.as_str());
            s
        },
    }
}

/// The menu-bar title on macOS: an emoji per state.
pub fn status_emoji(state: &UiState) -> (e: &'static str)
    ensures
        e@ == match state {
            UiState::Idle => "\u{1F3A4}"@,
            UiState::Recording { .. } => "\u{1F534}"@,
            UiState::Transcribing { .. } => "\u{23F3}"@,
            UiState::Done { .. } => "\u{2705}"@,
            UiState::Error { .. } => "\u{274C}"@,
        },
{
    match state {
        UiState::Idle => "\u{1F3A4}",
        UiState::Recording { .. } => "\u{1F534}",
        UiState::Transcribing { .. } => "\u{23F3}",
        UiState::Done { .. } => "\u{2705}",
        UiState::Error { .. } => "\u{274C}",
    }
}

} // verus!
