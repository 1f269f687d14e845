use typeless::injector::{KeyStroke, TextInjector, VK_CONTROL, VK_V};

#[test]
fn paste_only_non_blank_text() {
    assert!(TextInjector::should_paste("halo"));
    assert!(TextInjector::should_paste("  x  "));
    assert!(!TextInjector::should_paste(""));
    assert!(!TextInjector::should_paste(" \t\n"));
}

#[test]
fn wide_text_agrees_with_encode_utf16() {
    for t in ["", "halo", "héllo", "😀 ok", "\u{10ffff}"] {
        let mut want: Vec<u16> = t.encode_utf16().collect();
        want.push(0);
        assert_eq!(TextInjector::wide_nul_terminated(t), want);
    }
}

#[test]
fn wide_text_length() {
    assert_eq!(TextInjector::nul_terminated_len(&[104, 105, 0, 7]), 2);
    assert_eq!(TextInjector::nul_terminated_len(&[104, 105]), 2);
    assert_eq!(TextInjector::nul_terminated_len(&[0]), 0);
    assert_eq!(TextInjector::nul_terminated_len(&[]), 0);
}

#[test]
fn ctrl_v_sequence() {
    assert_eq!(
        TextInjector::ctrl_v_keystrokes(),
        vec![
            KeyStroke { vk: VK_CONTROL, key_up: false },
            KeyStroke { vk: VK_V, key_up: false },
            KeyStroke { vk: VK_V, key_up: true },
            KeyStroke { vk: VK_CONTROL, key_up: true },
        ]
    );
}

#[test]
fn decode_agrees_with_from_utf16_lossy() {
    let cases: Vec<Vec<u16>> = vec![
        vec![],
        vec![104, 105],
        vec![0xD83D, 0xDE00, 33],
        vec![0xD83D],
        vec![0xDE00, 65],
        vec![0xD83D, 65, 0xDE00],
        vec![0xDBFF, 0xDFFF],
        vec![0xD800, 0xD800, 0xDC00],
    ];
    for c in cases {
        assert_eq!(TextInjector::decode_utf16(&c), String::from_utf16_lossy(&c));
    }
}

#[test]
fn clipboard_text_reads_back() {
    for t in ["", "halo dunia", "Größe 😀 ✓", "\u{10ffff}x"] {
        let mut wide = TextInjector::wide_nul_terminated(t);
        wide.extend_from_slice(&[7, 0, 9]);
        let n = TextInjector::nul_terminated_len(&wide);
        assert_eq!(TextInjector::decode_utf16(&wide[..n]), t);
    }
    // A NUL character cuts the text short.
    let wide = TextInjector::wide_nul_terminated("ab\0cd");
    let n = TextInjector::nul_terminated_len(&wide);
    assert_eq!(TextInjector::decode_utf16(&wide[..n]), "ab");
}

#[test]
fn clipboard_is_restored_only_from_text() {
    assert!(TextInjector::should_restore("dulu"));
    assert!(TextInjector::should_restore(" "));
    assert!(!TextInjector::should_restore(""));
}
