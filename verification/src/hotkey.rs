//! Push-to-talk hotkey bookkeeping: which keyboards to watch, press/release
//! edge detection, and the keymap entries that remap the hotkey's scancode
//! to F13 and restore it afterwards.
use vstd::prelude::*;
use vstd::slice::{slice_subrange, slice_to_vec};
use crate::volc_frame::{be32, be32_at, lemma_be32_roundtrip};

verus! {

/// Evdev key code of the right Alt key.
pub const KEY_RIGHTALT: u16 = 100;

/// Evdev key code of the left Alt key.
pub const KEY_LEFTALT: u16 = 56;

/// Evdev key code of F13, the inert keycode the hotkey is remapped to.
pub const KEY_F13: u16 = 183;

/// Edges of the push-to-talk key.
#[derive(Clone, Copy, Debug, PartialEq, Eq, Structural)]
pub enum HotkeyEvent {
    Pressed,
    Released,
}

// ---------------------------------------------------------------------------
// Press/release edges
// ---------------------------------------------------------------------------

/// The next pressed state and the event for one key event `value`
/// (1 = down, 0 = up, 2 = auto-repeat): a down while released is a press,
/// an up while pressed is a release, anything else changes nothing.
pub open spec fn spec_transition(pressed: bool, value: i32) -> (bool, Option<HotkeyEvent>) {
    if value == 1 && !pressed {
        (true, Some(HotkeyEvent::Pressed))
    } else if value == 0 && pressed {
        (false, Some(HotkeyEvent::Released))
    } else {
        (pressed, None)
    }
}

pub fn hotkey_transition(pressed: bool, value: i32) -> (res: (bool, Option<HotkeyEvent>))
    ensures
        res == spec_transition(pressed, value),
{
    if value == 1 && !pressed {
        (true, Some(HotkeyEvent::Pressed))
    } else if value == 0 && pressed {
        (false, Some(HotkeyEvent::Released))
    } else {
        (pressed, None)
    }
}

/// The final pressed state after a run of key events.
pub open spec fn run_state(start: bool, values: Seq<i32>) -> bool
    decreases values.len(),
{
    if values.len() == 0 {
        start
    } else {
        spec_transition(run_state(start, values.drop_last()), values.last()).0
    }
}

/// The events emitted over a run of key events.
pub open spec fn run_events(start: bool, values: Seq<i32>) -> Seq<HotkeyEvent>
    decreases values.len(),
{
    if values.len() == 0 {
        Seq::empty()
    } else {
        let prev = run_events(start, values.drop_last());
        match spec_transition(run_state(start, values.drop_last()), values.last()).1 {
            Some(e) => prev.push(e),
            None => prev,
        }
    }
}

/// The event that flips a pressed state `p`.
pub open spec fn flip_event(p: bool) -> HotkeyEvent {
    if p {
        HotkeyEvent::Released
    } else {
        HotkeyEvent::Pressed
    }
}

/// Whatever the key reports, the emitted events alternate: starting from a
/// released key the first event is a press, every press is followed by a
/// release and vice versa, and the last event matches the final state.
pub proof fn lemma_events_alternate(start: bool, values: Seq<i32>)
    ensures
        forall|i: int|
            0 <= i < run_events(start, values).len() ==> #[trigger] run_events(start, values)[i]
                == flip_event(if i % 2 == 0 {
                start
            } else {
                !start
            }),
        run_state(start, values) == (if run_events(start, values).len() % 2 == 0 {
            start
        } else {
            !start
        }),
    decreases values.len(),
{
    if values.len() > 0 {
        lemma_events_alternate(start, values.drop_last());
    }
}

/// Whether a key code is the hotkey: the remapped F13 or, on devices that
/// refused the remap, the original key.
pub fn is_hotkey_code(code: u16, target: u16) -> (b: bool)
    ensures
        b == (code == KEY_F13 || code == target),
{
    code == KEY_F13 || code == target
}

// ---------------------------------------------------------------------------
// Device selection
// ---------------------------------------------------------------------------

/// What the listener needs to know about one input device.
#[derive(Debug, Clone, Copy)]
pub struct DeviceCaps {
    /// Reports at least one key.
    pub has_keys: bool,
    /// Reports at least one relative axis (a mouse).
    pub has_relative: bool,
    /// Supports the right Alt key.
    pub right_alt: bool,
    /// Supports the left Alt key.
    pub left_alt: bool,
}

/// A keyboard: has keys and no relative axes.
pub open spec fn spec_is_keyboard(d: DeviceCaps) -> bool {
    d.has_keys && !d.has_relative
}

pub fn is_keyboard_device(d: &DeviceCaps) -> (b: bool)
    ensures
        b == spec_is_keyboard(*d),
{
    d.has_keys && !d.has_relative
}

/// Whether a keyboard qualifies for `key` (right Alt, left Alt, or any
/// keyboard at all for the fallback `0`).
pub open spec fn qualifies(d: DeviceCaps, key: u16) -> bool {
    spec_is_keyboard(d) && (if key == KEY_RIGHTALT {
        d.right_alt
    } else if key == KEY_LEFTALT {
        d.left_alt
    } else {
        true
    })
}

/// Indices (in order) of the devices among the first `n` that qualify.
pub open spec fn qualifying(devs: Seq<DeviceCaps>, key: u16, n: int) -> Seq<usize>
    decreases n,
{
    if n <= 0 {
        Seq::empty()
    } else if qualifies(devs[n - 1], key) {
        qualifying(devs, key, n - 1).push((n - 1) as usize)
    } else {
        qualifying(devs, key, n - 1)
    }
}

/// The hotkey and the devices to watch: the keyboards with a right Alt key;
/// else those with a left Alt key; else every keyboard, listening for right
/// Alt; `None` when there is no keyboard.
pub open spec fn spec_choose_devices(devs: Seq<DeviceCaps>) -> Option<(u16, Seq<usize>)> {
    let n = devs.len() as int;
    if qualifying(devs, KEY_RIGHTALT, n).len() > 0 {
        Some((KEY_RIGHTALT, qualifying(devs, KEY_RIGHTALT, n)))
    } else if qualifying(devs, KEY_LEFTALT, n).len() > 0 {
        Some((KEY_LEFTALT, qualifying(devs, KEY_LEFTALT, n)))
    } else if qualifying(devs, 0, n).len() > 0 {
        Some((KEY_RIGHTALT, qualifying(devs, 0, n)))
    } else {
        None
    }
}

/// The indices `qualifying` lists among the first `n` devices are exactly
/// those of the qualifying devices, in increasing order.
proof fn lemma_qualifying_exact(devs: Seq<DeviceCaps>, key: u16, n: int)
    requires
        0 <= n <= devs.len(),
        devs.len() <= usize::MAX,
    ensures
        forall|i: int| 0 <= i < n ==> (qualifying(devs, key, n).contains(i as usize) <==> qualifies(devs[i], key)),
        forall|j: int| 0 <= j < qualifying(devs, key, n).len() ==> (#[trigger] qualifying(devs, key, n)[j]) < n,
        forall|a: int, b: int|
            0 <= a < b < qualifying(devs, key, n).len() ==> qualifying(devs, key, n)[a]
                < qualifying(devs, key, n)[b],
    decreases n,
{
    if n > 0 {
        lemma_qualifying_exact(devs, key, n - 1);
        let p = qualifying(devs, key, n - 1);
        let q = qualifying(devs, key, n);
        assert forall|i: int| 0 <= i < n implies (q.contains(i as usize) <==> qualifies(devs[i], key)) by {
            if qualifies(devs[n - 1], key) {
                assert(q == p.push((n - 1) as usize));
                if i < n - 1 {
                    if q.contains(i as usize) {
                        let j = choose|j: int| 0 <= j < q.len() && q[j] == i as usize;
                        if j < p.len() {
                            assert(p[j] == q[j]);
                        }
                    }
                    if p.contains(i as usize) {
                        let j = choose|j: int| 0 <= j < p.len() && p[j] == i as usize;
                        assert(q[j] == p[j]);
                    }
                } else {
                    assert(q[q.len() - 1] == (n - 1) as usize);
                }
            } else {
                if i == n - 1 && q.contains(i as usize) {
                    let j = choose|j: int| 0 <= j < q.len() && q[j] == i as usize;
                    assert(q[j] < n - 1);
                }
            }
        }
    }
}

/// Which keyboards are watched, stated over the devices' capabilities: every
/// keyboard (keys, no relative axes) with a right Alt key when there is one,
/// listening for right Alt; else every keyboard with a left Alt key,
/// listening for left Alt; else every keyboard, listening for right Alt;
/// nothing without a keyboard. The indices come in increasing order.
pub proof fn lemma_choose_devices_watches_all(devs: Seq<DeviceCaps>)
    requires
        devs.len() <= usize::MAX,
    ensures
        ({
            let kb = |d: DeviceCaps| d.has_keys && !d.has_relative;
            let any_right = exists|i: int| 0 <= i < devs.len() && kb(devs[i]) && devs[i].right_alt;
            let any_left = exists|i: int| 0 <= i < devs.len() && kb(devs[i]) && devs[i].left_alt;
            let any_kb = exists|i: int| 0 <= i < devs.len() && kb(devs[i]);
            match spec_choose_devices(devs) {
                Some((k, idx)) => {
                    &&& any_kb
                    &&& k == if !any_right && any_left {
                        KEY_LEFTALT
                    } else {
                        KEY_RIGHTALT
                    }
                    &&& forall|i: int|
                        0 <= i < devs.len() ==> (idx.contains(i as usize) <==> (kb(devs[i]) && if any_right {
                            devs[i].right_alt
                        } else if any_left {
                            devs[i].left_alt
                        } else {
                            true
                        }))
                    &&& forall|j: int| 0 <= j < idx.len() ==> (#[trigger] idx[j]) < devs.len()
                    &&& forall|a: int, b: int| 0 <= a < b < idx.len() ==> idx[a] < idx[b]
                },
                None => !any_kb,
            }
        }),
{
    let n = devs.len() as int;
    lemma_qualifying_exact(devs, KEY_RIGHTALT, n);
    lemma_qualifying_exact(devs, KEY_LEFTALT, n);
    lemma_qualifying_exact(devs, 0, n);
    let kb = |d: DeviceCaps| d.has_keys && !d.has_relative;
    let r = qualifying(devs, KEY_RIGHTALT, n);
    let l = qualifying(devs, KEY_LEFTALT, n);
    let a = qualifying(devs, 0, n);
    let any_right = exists|i: int| 0 <= i < devs.len() && kb(devs[i]) && devs[i].right_alt;
    let any_left = exists|i: int| 0 <= i < devs.len() && kb(devs[i]) && devs[i].left_alt;
    let any_kb = exists|i: int| 0 <= i < devs.len() && kb(devs[i]);
    if any_right {
        let i = choose|i: int| 0 <= i < devs.len() && kb(devs[i]) && devs[i].right_alt;
        assert(qualifies(devs[i], KEY_RIGHTALT));
        assert(r.contains(i as usize));
    } else {
        if r.len() > 0 {
            assert(r.contains(r[0]));
            assert(qualifies(devs[r[0] as int], KEY_RIGHTALT));
        }
    }
    if any_left {
        let i = choose|i: int| 0 <= i < devs.len() && kb(devs[i]) && devs[i].left_alt;
        assert(qualifies(devs[i], KEY_LEFTALT));
        assert(l.contains(i as usize));
    } else {
        if l.len() > 0 {
            assert(l.contains(l[0]));
            assert(qualifies(devs[l[0] as int], KEY_LEFTALT));
        }
    }
    if any_kb {
        let i = choose|i: int| 0 <= i < devs.len() && kb(devs[i]);
        assert(qualifies(devs[i], 0));
        assert(a.contains(i as usize));
    } else {
        if a.len() > 0 {
            assert(a.contains(a[0]));
            assert(qualifies(devs[a[0] as int], 0));
        }
    }
}

fn collect_qualifying(devs: &Vec<DeviceCaps>, key: u16) -> (v: Vec<usize>)
    ensures
        v@ == qualifying(devs@, key, devs@.len() as int),
{
    let mut v: Vec<usize> = Vec::new();
    let mut i: usize = 0;
    while i < devs.len()
        invariant
            i <= devs@.len(),
            v@ == qualifying(devs@, key, i as int),
        decreases devs@.len() - i,
    {
        let d = devs[i];
        let ok = is_keyboard_device(&d) && (if key == KEY_RIGHTALT {
            d.right_alt
        } else if key == KEY_LEFTALT {
            d.left_alt
        } else {
            true
        });
        if ok {
            v.push(i);
        }
        i = i + 1;
    }
    v
}

pub fn choose_hotkey_devices(devs: &Vec<DeviceCaps>) -> (res: Option<(u16, Vec<usize>)>)
    ensures
        match res {
            Some((k, v)) => spec_choose_devices(devs@) == Some((k, v@)),
            None => spec_choose_devices(devs@) is None,
        },
{
    let r = collect_qualifying(devs, KEY_RIGHTALT);
    if r.len() > 0 {
        return Some((KEY_RIGHTALT, r));
    }
    let l = collect_qualifying(devs, KEY_LEFTALT);
    if l.len() > 0 {
        return Some((KEY_LEFTALT, l));
    }
    let all = collect_qualifying(devs, 0);
    if all.len() > 0 {
        return Some((KEY_RIGHTALT, all));
    }
    None
}

// ---------------------------------------------------------------------------
// Keymap entries
// ---------------------------------------------------------------------------

/// Little-endian bytes of a 32-bit word.
pub open spec fn le32(x: u32) -> Seq<u8> {
    seq![
        (x % 0x100) as u8,
        ((x / 0x100) % 0x100) as u8,
        ((x / 0x1_0000) % 0x100) as u8,
        (x / 0x100_0000) as u8,
    ]
}

/// The 32-bit word stored little-endian at `b[at..at + 4]`.
pub open spec fn le32_at(b: Seq<u8>, at: int) -> u32 {
    (b[at] as int + b[at + 1] as int * 0x100 + b[at + 2] as int * 0x1_0000 + b[at + 3] as int
        * 0x100_0000) as u32
}

/// The bytes of a 32-bit word in the machine's byte order (`little_endian`
/// says which one it is).
pub open spec fn word_bytes(x: u32, little_endian: bool) -> Seq<u8> {
    if little_endian {
        le32(x)
    } else {
        be32(x)
    }
}

/// The 32-bit word stored at `b[at..at + 4]` in the machine's byte order.
pub open spec fn word_at(b: Seq<u8>, at: int, little_endian: bool) -> u32 {
    if little_endian {
        le32_at(b, at)
    } else {
        be32_at(b, at)
    }
}

proof fn lemma_word_roundtrip(x: u32, little_endian: bool)
    ensures
        word_bytes(x, little_endian).len() == 4,
        word_at(word_bytes(x, little_endian), 0, little_endian) == x,
{
    lemma_be32_roundtrip(x);
    let b = le32(x);
    assert(b[0] as int == x % 0x100);
    assert(b[1] as int == (x / 0x100) % 0x100);
    assert(b[2] as int == (x / 0x1_0000) % 0x100);
    assert(b[3] as int == x / 0x100_0000);
    assert(x % 0x100 + ((x / 0x100) % 0x100) * 0x100 + ((x / 0x1_0000) % 0x100) * 0x1_0000 + (x
        / 0x100_0000) * 0x100_0000 == x) by (nonlinear_arith);
}

/// The bytes of `x` in the machine's byte order.
fn word_to_bytes(x: u32, little_endian: bool) -> (b: [u8; 4])
    ensures
        b@ == word_bytes(x, little_endian),
{
    let b0 = (x % 0x100) as u8;
    let b1 = ((x / 0x100) % 0x100) as u8;
    let b2 = ((x / 0x1_0000) % 0x100) as u8;
    let b3 = (x / 0x100_0000) as u8;
    let b = if little_endian {
        [b0, b1, b2, b3]
    } else {
        [b3, b2, b1, b0]
    };
    assert(b@ =~= word_bytes(x, little_endian));
    b
}

/// The word stored at `b[at..at + 4]` in the machine's byte order.
fn word_from_bytes(b: &[u8], at: usize, little_endian: bool) -> (x: u32)
    requires
        at + 4 <= b@.len(),
    ensures
        x == word_at(b@, at as int, little_endian),
{
    let n = b.len();
    assert(at + 4 <= n);
    let (lo, m1, m2, hi) = if little_endian {
        (b[at] as u64, b[at + 1] as u64, b[at + 2] as u64, b[at + 3] as u64)
    } else {
        (b[at + 3] as u64, b[at + 2] as u64, b[at + 1] as u64, b[at] as u64)
    };
    let v: u64 = lo + m1 * 0x100 + m2 * 0x1_0000 + hi * 0x100_0000;
    v as u32
}

/// A serialized `struct input_keymap_entry { u8 flags; u8 len; u16 index;
/// u32 keycode; u8 scancode[32]; }` selecting by scancode (flags and index
/// zero), with the keycode's bytes `keycode_bytes`.
pub open spec fn spec_keymap_entry(keycode_bytes: Seq<u8>, scancode: Seq<u8>) -> Seq<u8> {
    seq![0u8, scancode.len() as u8, 0u8, 0u8] + keycode_bytes + scancode + Seq::new(
        (32 - scancode.len()) as nat,
        |i: int| 0u8,
    )
}

/// Serializes the keymap entry that maps `scancode` to `keycode`, the
/// keycode in the machine's byte order (the kernel reads the struct in it).
pub fn keymap_entry_bytes(keycode: u32, scancode: &[u8], little_endian: bool) -> (e: [u8; 40])
    requires
        scancode@.len() <= 32,
    ensures
        e@ == spec_keymap_entry(word_bytes(keycode, little_endian), scancode@),
{
    let mut e = [0u8; 40];
    e[1] = scancode.len() as u8;
    let k = word_to_bytes(keycode, little_endian);
    e[4] = k[0];
    e[5] = k[1];
    e[6] = k[2];
    e[7] = k[3];
    let mut i: usize = 0;
    while i < scancode.len()
        invariant
            i <= scancode@.len() <= 32,
            e@.len() == 40,
            e@[1] == scancode@.len() as u8,
            e@[0] == 0 && e@[2] == 0 && e@[3] == 0,
            e@.subrange(4, 8) == k@,
            forall|t: int| 0 <= t < i ==> e@[8 + t] == scancode@[t],
            forall|t: int| 8 + i <= t < 40 ==> e@[t] == 0,
        decreases scancode@.len() - i,
    {
        e[8 + i] = scancode[i];
        i = i + 1;
        assert(e@.subrange(4, 8) =~= k@);
    }
    assert(e@ =~= spec_keymap_entry(k@, scancode@));
    e
}

/// A scancode to map back to its original keycode.
#[derive(Debug)]
pub struct ScancodeRestore {
    pub keycode: u32,
    pub scancode: Vec<u8>,
}

/// The keycode and scancode a serialized keymap entry restores.
pub fn decode_keymap_entry(entry: &[u8; 40], little_endian: bool) -> (r: ScancodeRestore)
    requires
        entry@[1] <= 32,
    ensures
        r.keycode == word_at(entry@, 4, little_endian),
        r.scancode@ == entry@.subrange(8, 8 + entry@[1] as int),
{
    let keycode = word_from_bytes(entry.as_slice(), 4, little_endian);
    let len = entry[1] as usize;
    let sc = slice_subrange(entry.as_slice(), 8, 8 + len);
    ScancodeRestore { keycode, scancode: slice_to_vec(sc) }
}

/// What undoing the hotkey remap writes back: for each recorded entry, the
/// original keycode of its scancode, in recording order.
pub fn shutdown(entries: &Vec<[u8; 40]>, little_endian: bool) -> (plan: Vec<ScancodeRestore>)
    requires
        forall|i: int| 0 <= i < entries@.len() ==> (#[trigger] entries@[i])@[1] <= 32,
    ensures
        plan@.len() == entries@.len(),
        forall|i: int|
            0 <= i < entries@.len() ==> {
                let e = (#[trigger] entries@[i])@;
                &&& plan@[i].scancode@ == e.subrange(8, 8 + e[1] as int)
                &&& plan@[i].keycode == word_at(e, 4, little_endian)
            },
{
    let mut plan: Vec<ScancodeRestore> = Vec::new();
    let mut i: usize = 0;
    while i < entries.len()
        invariant
            i <= entries@.len(),
            plan@.len() == i,
            forall|j: int| 0 <= j < entries@.len() ==> (#[trigger] entries@[j])@[1] <= 32,
            forall|j: int|
                0 <= j < i ==> {
                    let e = (#[trigger] entries@[j])@;
                    &&& plan@[j].scancode@ == e.subrange(8, 8 + e[1] as int)
                    &&& plan@[j].keycode == word_at(e, 4, little_endian)
                },
        decreases entries@.len() - i,
    {
        let r = decode_keymap_entry(&entries[i], little_endian);
        plan.push(r);
        i = i + 1;
    }
    plan
}

/// Restoring undoes the remap exactly: an entry recorded for `keycode` and
/// `scancode` decodes, in the same byte order, to that keycode and that
/// scancode.
pub proof fn lemma_entry_roundtrip(keycode: u32, scancode: Seq<u8>, little_endian: bool)
    requires
        scancode.len() <= 32,
    ensures
        ({
            let e = spec_keymap_entry(word_bytes(keycode, little_endian), scancode);
            &&& e.len() == 40
            &&& e[1] <= 32
            &&& word_at(e, 4, little_endian) == keycode
            &&& e.subrange(8, 8 + e[1] as int) == scancode
        }),
{
    lemma_word_roundtrip(keycode, little_endian);
    let k = word_bytes(keycode, little_endian);
    let e = spec_keymap_entry(k, scancode);
    assert(e.subrange(8, 8 + scancode.len() as int) =~= scancode);
    assert(e[4] == k[0] && e[5] == k[1] && e[6] == k[2] && e[7] == k[3]);
}

} // verus!
