use voice_type::audio::is_preferred_input;
use voice_type::hotkey::{
    choose_hotkey_devices, decode_keymap_entry, hotkey_transition, is_hotkey_code, keymap_entry_bytes,
    shutdown, DeviceCaps, HotkeyEvent, KEY_F13, KEY_LEFTALT, KEY_RIGHTALT,
};
use voice_type::typewriter::{backspace, type_text_auto, ToolAvailability, TypeError};

fn caps(has_keys: bool, has_relative: bool, right_alt: bool, left_alt: bool) -> DeviceCaps {
    DeviceCaps { has_keys, has_relative, right_alt, left_alt }
}

#[test]
fn hotkey_edges_alternate() {
    let mut pressed = false;
    let mut events = Vec::new();
    for v in [1, 2, 1, 0, 0, 1, 0] {
        let (p, e) = hotkey_transition(pressed, v);
        pressed = p;
        events.extend(e);
    }
    assert_eq!(
        events,
        vec![HotkeyEvent::Pressed, HotkeyEvent::Released, HotkeyEvent::Pressed, HotkeyEvent::Released]
    );
    assert!(!pressed);
    assert!(is_hotkey_code(KEY_F13, KEY_RIGHTALT));
    assert!(is_hotkey_code(KEY_RIGHTALT, KEY_RIGHTALT));
    assert!(!is_hotkey_code(KEY_LEFTALT, KEY_RIGHTALT));
}

#[test]
fn device_choice() {
    let devs = vec![
        caps(true, true, true, true),   // mouse with keys
        caps(true, false, false, true), // keyboard, left alt only
        caps(true, false, true, true),  // keyboard with right alt
    ];
    assert_eq!(choose_hotkey_devices(&devs), Some((KEY_RIGHTALT, vec![2])));
    let devs = vec![caps(true, false, false, true), caps(false, false, false, false)];
    assert_eq!(choose_hotkey_devices(&devs), Some((KEY_LEFTALT, vec![0])));
    let devs = vec![caps(true, false, false, false), caps(true, true, false, false)];
    assert_eq!(choose_hotkey_devices(&devs), Some((KEY_RIGHTALT, vec![0])));
    assert_eq!(choose_hotkey_devices(&vec![caps(false, false, true, true)]), None);
}

#[test]
fn keymap_entry_roundtrip() {
    let sc = [0x38u8, 0xe0];
    let e = keymap_entry_bytes(100, &sc, true);
    assert_eq!(e[0], 0);
    assert_eq!(e[1], 2);
    assert_eq!(&e[2..4], &[0, 0]);
    assert_eq!(&e[4..8], &100u32.to_le_bytes());
    assert_eq!(&e[8..10], &sc);
    assert!(e[10..].iter().all(|&b| b == 0));
    let r = decode_keymap_entry(&e, true);
    assert_eq!(r.keycode, 100);
    assert_eq!(r.scancode, sc);
    let plan = shutdown(&vec![e, keymap_entry_bytes(56, &[1, 2, 3], true)], true);
    assert_eq!(plan.len(), 2);
    assert_eq!(plan[0].keycode, 100);
    assert_eq!(plan[1].keycode, 56);
    assert_eq!(plan[1].scancode, vec![1, 2, 3]);
}

#[test]
fn keymap_entry_big_endian_and_native() {
    let e = keymap_entry_bytes(0x0102_0304, &[9], false);
    assert_eq!(&e[4..8], &[1, 2, 3, 4]);
    assert_eq!(decode_keymap_entry(&e, false).keycode, 0x0102_0304);
    // Read in the other order the bytes come out swapped.
    assert_eq!(decode_keymap_entry(&e, true).keycode, 0x0403_0201);
    // The machine's own order matches `to_ne_bytes`.
    let native_little = u32::from_ne_bytes([1, 0, 0, 0]) == 1;
    let n = keymap_entry_bytes(183, &[0x64], native_little);
    assert_eq!(&n[4..8], &183u32.to_ne_bytes());
}

fn tools(wtype: bool, ydotool: bool, xdotool: bool) -> ToolAvailability {
    ToolAvailability { wtype, ydotool, xdotool }
}

#[test]
fn typing_commands() {
    assert_eq!(type_text_auto("hi", tools(true, true, true)).unwrap(), vec!["wtype", "hi"]);
    assert_eq!(
        type_text_auto("hi", tools(false, true, true)).unwrap(),
        vec!["ydotool", "type", "--", "hi"]
    );
    assert_eq!(
        type_text_auto("hi", tools(false, false, true)).unwrap(),
        vec!["xdotool", "type", "--clearmodifiers", "--", "hi"]
    );
    assert!(matches!(type_text_auto(" ", tools(true, true, true)), Err(TypeError::EmptyText)));
    assert!(matches!(type_text_auto("x", tools(false, false, false)), Err(TypeError::NoTool)));
}

#[test]
fn backspace_commands() {
    assert_eq!(backspace(0, tools(false, false, false)).unwrap(), None);
    assert_eq!(
        backspace(2, tools(true, false, false)).unwrap().unwrap(),
        vec!["wtype", "-d", "20", "-k", "BackSpace", "-k", "BackSpace"]
    );
    assert_eq!(
        backspace(12, tools(false, true, true)).unwrap().unwrap(),
        vec!["ydotool", "key", "--repeat", "12", "14:1", "14:0"]
    );
    assert_eq!(
        backspace(3, tools(false, false, true)).unwrap().unwrap(),
        vec!["xdotool", "key", "--repeat", "3", "--clearmodifiers", "BackSpace"]
    );
    assert!(matches!(backspace(1, tools(false, false, false)), Err(TypeError::NoTool)));
    assert_eq!(
        backspace(1, tools(false, false, false)).unwrap_err().message(),
        "No typing tool found. Install one of: wtype, ydotool, or xdotool"
    );
    assert_eq!(
        type_text_auto("  ", tools(true, true, true)).unwrap_err().message(),
        "No text to type (transcription empty)"
    );
}

#[test]
fn preferred_microphones() {
    assert!(is_preferred_input("pipewire"));
    assert!(is_preferred_input("sysdefault:CARD=PCH"));
    assert!(is_preferred_input("USB Mic"));
    assert!(!is_preferred_input("default"));
    assert!(!is_preferred_input("mic"));
}
