use typeless::cleaner::{replace_case_insensitive, try_replace_case_insensitive, TextCleaner};

#[test]
fn test_cleaner_rules() {
    let cleaner = TextCleaner::new();
    let res = cleaner.clean("halo , ini adalah pengujian voice typing .");
    assert_eq!(res, "Halo, ini adalah pengujian voice typing.");
}

#[test]
fn punctuation_spacing_example() {
    let cleaner = TextCleaner::new();
    assert_eq!(cleaner.clean("halo , apa kabar ?"), "Halo, apa kabar?");
    assert_eq!(cleaner.clean("satu ; dua : tiga !"), "Satu; dua: tiga!");
}

#[test]
fn blank_input_gives_empty_text() {
    let cleaner = TextCleaner::new();
    assert_eq!(cleaner.clean(""), "");
    assert_eq!(cleaner.clean("   \t\n "), "");
    assert_eq!(cleaner.clean("\u{3000}\u{a0}"), "");
}

#[test]
fn whitespace_runs_become_single_spaces() {
    let cleaner = TextCleaner::new();
    assert_eq!(cleaner.clean("  saya   mau\t\tmakan \n nasi  "), "Saya mau makan nasi");
    assert_eq!(cleaner.clean("a\u{2003}b"), "A b");
}

#[test]
fn double_space_before_punctuation_keeps_one_space() {
    let cleaner = TextCleaner::new();
    assert_eq!(cleaner.clean("halo  , dunia"), "Halo , dunia");
}

#[test]
fn first_character_is_upper_cased() {
    let cleaner = TextCleaner::new();
    assert_eq!(cleaner.clean("ßaya"), "SSaya");
    assert_eq!(cleaner.clean("élan"), "Élan");
    assert_eq!(cleaner.clean("123 abc"), "123 abc");
}

#[test]
fn dictionary_replaces_case_insensitively() {
    let mut cleaner = TextCleaner::new();
    cleaner.set_custom_dict(vec![("voice typing".to_string(), "VoiceType".to_string())]);
    assert_eq!(cleaner.clean("pakai VOICE Typing sekarang"), "Pakai VoiceType sekarang");
}

#[test]
fn longer_keys_are_applied_first() {
    let mut cleaner = TextCleaner::new();
    cleaner.set_custom_dict(vec![
        ("a".to_string(), "x".to_string()),
        ("ab".to_string(), "y".to_string()),
    ]);
    assert_eq!(cleaner.clean("ab a"), "Y x");
}

#[test]
fn dictionary_round_trip() {
    let mut cleaner = TextCleaner::new();
    assert!(cleaner.get_custom_dict().is_empty());
    let dict = vec![
        ("gpt".to_string(), "GPT".to_string()),
        ("tauri".to_string(), "Tauri".to_string()),
    ];
    cleaner.set_custom_dict(dict.clone());
    assert_eq!(cleaner.get_custom_dict(), dict);
    assert!(!cleaner.has_empty_key());
    cleaner.set_custom_dict(vec![(String::new(), "x".to_string())]);
    assert!(cleaner.has_empty_key());
}

#[test]
fn dictionary_from_json() {
    let mut cleaner = TextCleaner::new();
    cleaner.load_custom_dict_json("{\"gpt\": \"GPT\", \"ai\": \"AI\"}");
    let mut got = cleaner.get_custom_dict();
    got.sort();
    assert_eq!(
        got,
        vec![("ai".to_string(), "AI".to_string()), ("gpt".to_string(), "GPT".to_string())]
    );
    // Keys match inside words too ("ai" in "pakai").
    assert_eq!(cleaner.clean("pakai gpt dan ai"), "PakAI GPT dan AI");
    cleaner.load_custom_dict_json("not json");
    assert_eq!(cleaner.get_custom_dict().len(), 2);
    cleaner.load_custom_dict_json("[1, 2]");
    assert_eq!(cleaner.get_custom_dict().len(), 2);
}

#[test]
fn dictionary_json_encoding_reads_back() {
    let dict = vec![
        ("halo".to_string(), "Halo".to_string()),
        ("dunia".to_string(), "Dunia".to_string()),
    ];
    let text = TextCleaner::encode_custom_dict(&dict);
    let parsed: std::collections::HashMap<String, String> = serde_json::from_str(&text).unwrap();
    assert_eq!(parsed.len(), 2);
    assert_eq!(parsed["halo"], "Halo");
    let mut cleaner = TextCleaner::new();
    cleaner.load_custom_dict_json(&text);
    let mut got = cleaner.get_custom_dict();
    got.sort();
    let mut want = dict.clone();
    want.sort();
    assert_eq!(got, want);
}

#[test]
fn replace_case_insensitive_keeps_surrounding_case() {
    assert_eq!(replace_case_insensitive("Hello WORLD world", "world", "Bumi"), "Hello Bumi Bumi");
    assert_eq!(replace_case_insensitive("aaa", "aa", "b"), "ba");
    assert_eq!(replace_case_insensitive("abc", "xyz", "q"), "abc");
    assert_eq!(replace_case_insensitive("ÄPFEL äpfel", "äpfel", "apel"), "apel apel");
}

/// The replacement as the application states it, on byte offsets, with
/// `None` where a slice would fall between the bytes of a character.
fn byte_offset_replacement(text: &str, from: &str, to: &str) -> Option<String> {
    let lower_text = text.to_lowercase();
    let lower_from = from.to_lowercase();
    let mut result = String::new();
    let mut last_idx = 0;
    loop {
        let rest = lower_text.get(last_idx..)?;
        match rest.find(&lower_from) {
            Some(match_idx) => {
                let abs_idx = last_idx + match_idx;
                result.push_str(text.get(last_idx..abs_idx)?);
                result.push_str(to);
                last_idx = abs_idx + from.len();
            }
            None => break,
        }
    }
    result.push_str(text.get(last_idx..)?);
    Some(result)
}

#[test]
fn replace_case_insensitive_uses_byte_offsets_of_the_lowercase_text() {
    // 'İ' lowercases to two characters, one byte longer: positions shift.
    assert_eq!(replace_case_insensitive("İstanbul", "stan", "X"), "İsXul");
    // The Kelvin sign lowercases to a one-byte 'k'; a match before it is fine.
    assert_eq!(replace_case_insensitive("ab \u{212a}", "a", "X"), "Xb \u{212a}");
    // Here the position found falls inside the Kelvin sign: it would panic.
    assert_eq!(try_replace_case_insensitive("5 \u{212a}m", "m", "meter"), None);
    assert_eq!(byte_offset_replacement("5 \u{212a}m", "m", "meter"), None);
    // Here it falls past the end of the text.
    assert_eq!(try_replace_case_insensitive("\u{130}a", "a", "x"), None);
    assert_eq!(byte_offset_replacement("\u{130}a", "a", "x"), None);
}

#[test]
fn replace_case_insensitive_agrees_with_byte_offsets() {
    let texts = ["Hello World", "İstanbul İzmir", "ΣΟΦΟΣ σοφος", "Straße STRASSE", "a\u{212a}b\u{212a}", "ΩmegA \u{2126}", "ẞig", ""];
    let words = ["o", "is", "σοφ", "ss", "k", "a", "ω", "ig", "İ"];
    for t in texts {
        for w in words {
            let got = try_replace_case_insensitive(t, w, "_");
            assert_eq!(got, byte_offset_replacement(t, w, "_"), "{} / {}", t, w);
            if let Some(want) = got {
                assert_eq!(replace_case_insensitive(t, w, "_"), want);
            }
        }
    }
}

#[test]
fn cleaning_clean_ascii_text_gives_it_back() {
    let cleaner = TextCleaner::new();
    for text in ["Halo, apa kabar?", "Satu; dua: tiga!", "X", "", "123 go."] {
        assert_eq!(cleaner.clean(text), text);
    }
    let once = cleaner.clean("  halo ,   dunia  ini .");
    assert_eq!(once, "Halo, dunia ini.");
    assert_eq!(cleaner.clean(&once), once);
    // A lower-case first letter is the one thing that still changes.
    assert_eq!(cleaner.clean("halo"), "Halo");
}

#[test]
fn dictionaries_listing_the_same_entries_clean_alike() {
    let entries = vec![
        ("ai".to_string(), "AI".to_string()),
        ("gpt".to_string(), "GPT".to_string()),
        ("tauri".to_string(), "Tauri".to_string()),
    ];
    let mut reversed = entries.clone();
    reversed.reverse();
    let mut first = TextCleaner::new();
    first.set_custom_dict(entries);
    let mut second = TextCleaner::new();
    second.set_custom_dict(reversed);
    for text in ["pakai gpt dan ai di tauri", "GPT ai", "tidak ada"] {
        assert_eq!(first.clean(text), second.clean(text));
    }
    assert_eq!(first.clean("pakai gpt dan ai di tauri"), "PakAI GPT dan AI di Tauri");
}

#[test]
fn try_clean_tells_apart_text_that_a_replacement_cannot_slice() {
    let mut cleaner = TextCleaner::new();
    cleaner.set_custom_dict(vec![("a".to_string(), "x".to_string())]);
    assert_eq!(cleaner.try_clean("\u{130}a"), None);
    assert_eq!(cleaner.try_clean("  banana "), Some("Bxnxnx".to_string()));
    assert_eq!(cleaner.try_clean("   "), Some(String::new()));
    assert_eq!(cleaner.clean("banana"), "Bxnxnx");
    assert_eq!(TextCleaner::new().try_clean("\u{130}a"), Some("\u{130}a".to_string()));
}

#[test]
fn ascii_replacement_always_goes_through() {
    assert_eq!(
        try_replace_case_insensitive("Hello WORLD world", "world", "Bumi"),
        Some("Hello Bumi Bumi".to_string())
    );
    assert_eq!(try_replace_case_insensitive("aaa", "AA", "b"), Some("ba".to_string()));
    assert_eq!(try_replace_case_insensitive("abc", "xyz", "q"), Some("abc".to_string()));
}
