use typeless::hotkey::{KeyMessage, PushToTalk, WM_KEYDOWN, WM_KEYUP, WM_SYSKEYDOWN, WM_SYSKEYUP};

fn msg(msg: u32, vk_code: u32, flags: u32) -> KeyMessage {
    KeyMessage { code: 0, msg, vk_code, flags }
}

#[test]
fn press_repeat_release() {
    let mut k = PushToTalk::new();
    assert!(!k.down());
    assert_eq!(k.on_key(msg(WM_KEYDOWN, 0xA3, 0)), Some(true));
    assert_eq!(k.on_key(msg(WM_KEYDOWN, 0xA3, 0)), None);
    assert_eq!(k.on_key(msg(WM_SYSKEYDOWN, 0xA3, 0)), None);
    assert!(k.down());
    assert_eq!(k.on_key(msg(WM_KEYUP, 0xA3, 0)), Some(false));
    assert_eq!(k.on_key(msg(WM_SYSKEYUP, 0xA3, 0)), None);
    assert!(!k.down());
}

#[test]
fn right_ctrl_by_extended_flag() {
    let mut k = PushToTalk::new();
    assert_eq!(k.on_key(msg(WM_KEYDOWN, 0x11, 0)), None);
    assert_eq!(k.on_key(msg(WM_KEYDOWN, 0x11, 1)), Some(true));
    assert_eq!(k.on_key(msg(WM_KEYUP, 0x11, 1)), Some(false));
}

#[test]
fn other_keys_and_codes_are_ignored() {
    let mut k = PushToTalk::new();
    assert_eq!(k.on_key(msg(WM_KEYDOWN, 0x41, 0)), None);
    assert_eq!(k.on_key(KeyMessage { code: -1, msg: WM_KEYDOWN, vk_code: 0xA3, flags: 0 }), None);
    assert_eq!(k.on_key(msg(0x0200, 0xA3, 0)), None);
    assert!(!k.down());
}

#[test]
fn reports_alternate() {
    let mut k = PushToTalk::new();
    let seq = [WM_KEYDOWN, WM_KEYDOWN, WM_KEYUP, WM_KEYUP, WM_SYSKEYDOWN, WM_KEYUP, WM_KEYDOWN];
    let reports: Vec<bool> = seq.iter().filter_map(|&m| k.on_key(msg(m, 0xA3, 0))).collect();
    assert_eq!(reports, vec![true, false, true, false, true]);
}
