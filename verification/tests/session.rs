use typeless::session::{
    language_for_mode, menu_action, mic_item_id, overlay_position, rand_id, rand_id_from_nanos,
    should_deliver,
    worth_transcribing, HistoryItem, LanguageChoice, MenuAction, Session,
};

#[test]
fn menu_actions() {
    assert_eq!(menu_action("mic_0"), MenuAction::SelectMic(0));
    assert_eq!(menu_action("mic_12"), MenuAction::SelectMic(12));
    assert_eq!(menu_action("mic_+3"), MenuAction::SelectMic(3));
    assert_eq!(menu_action("mic_"), MenuAction::Ignore);
    assert_eq!(menu_action("mic_x"), MenuAction::Ignore);
    assert_eq!(menu_action("lang_auto"), MenuAction::SetLanguage(LanguageChoice::Auto));
    assert_eq!(menu_action("lang_id"), MenuAction::SetLanguage(LanguageChoice::Indonesian));
    assert_eq!(menu_action("lang_en"), MenuAction::SetLanguage(LanguageChoice::English));
    assert_eq!(menu_action("quit"), MenuAction::Quit);
    assert_eq!(menu_action("about"), MenuAction::Ignore);
    assert_eq!(menu_action("hk_f8"), MenuAction::Ignore);
}

#[test]
fn mic_items_select_their_microphone() {
    for i in [0usize, 1, 9, 10, 250] {
        assert_eq!(mic_item_id(i), format!("mic_{}", i));
        assert_eq!(menu_action(&mic_item_id(i)), MenuAction::SelectMic(i));
    }
}

#[test]
fn languages() {
    assert_eq!(LanguageChoice::Auto.mode(), "auto");
    assert_eq!(LanguageChoice::Indonesian.mode(), "id");
    assert_eq!(LanguageChoice::English.mode(), "en");
    assert_eq!(language_for_mode("id"), Some("id"));
    assert_eq!(language_for_mode("en"), Some("en"));
    assert_eq!(language_for_mode("auto"), None);
    assert_eq!(language_for_mode("jv"), None);
    for c in [LanguageChoice::Auto, LanguageChoice::Indonesian, LanguageChoice::English] {
        assert_eq!(typeless::asr::whisper_language(language_for_mode(c.mode())), c.mode());
    }
}

#[test]
fn session_state() {
    let mut s = Session::new();
    assert_eq!(s.language_mode(), "auto");
    assert_eq!(s.model_name(), "small");
    assert!(!s.is_recording());
    s.set_language_mode("id".to_string());
    s.set_model_name("tiny".to_string());
    s.set_recording(true);
    let st = s.status(true, "Mic".to_string());
    assert_eq!(st.model_name, "tiny");
    assert!(st.is_model_loaded);
    assert_eq!(st.language_mode, "id");
    assert!(st.is_recording);
    assert_eq!(st.active_mic, "Mic");
}

#[test]
fn history_newest_first() {
    let mut s = Session::new();
    s.record_transcript(HistoryItem::new_transcript("satu".to_string(), "id".to_string(), 100, 7));
    s.record_transcript(HistoryItem::new_transcript("dua".to_string(), "auto".to_string(), 105, 42));
    let h = s.history();
    assert_eq!(h.len(), 2);
    assert_eq!(h[0].text, "dua");
    assert_eq!(h[0].id, "105-42");
    assert_eq!(h[0].timestamp, 105);
    assert_eq!(h[1].text, "satu");
    assert_eq!(h[1].id, "100-7");
    assert_eq!(h[1].language, "id");
    s.clear_history();
    assert!(s.history().is_empty());
}

#[test]
fn short_recordings_are_skipped() {
    assert!(!worth_transcribing(0));
    assert!(!worth_transcribing(1600));
    assert!(worth_transcribing(1601));
}

#[test]
fn overlay_sits_above_the_taskbar() {
    assert_eq!(overlay_position(1920, 1080), (1636, 910));
    assert_eq!(overlay_position(0, 0), (-284, -170));
}

#[test]
fn id_suffixes() {
    assert!(rand_id() < 10000);
    assert_eq!(rand_id_from_nanos(123_456_789), 6789);
    assert_eq!(rand_id_from_nanos(42), 42);
}

#[test]
fn only_a_transcript_with_text_is_delivered() {
    assert!(should_deliver("Halo"));
    assert!(should_deliver(" "));
    assert!(!should_deliver(""));
}
