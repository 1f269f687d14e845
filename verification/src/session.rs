use vstd::prelude::*;

use crate::asr::language_arg;
use crate::chars::{chars_of, str_eq, string_of, sub_chars};
use crate::numbers::{decimal, decimal_string, law_decimal_parses_back, parse_usize, parsed_usize};

verus! {

/// One transcript kept in the history.
#[derive(Debug)]
pub struct HistoryItem {
    pub id: String,
    pub text: String,
    pub timestamp: u64,
    pub language: String,
}

/// The plain values of a history item: id, text, time, language.
pub type HistoryView = (Seq<char>, Seq<char>, u64, Seq<char>);

impl View for HistoryItem {
    type V = HistoryView;

    open spec fn view(&self) -> HistoryView {
        (self.id@, self.text@, self.timestamp, self.language@)
    }
}

/// The plain values of a list of history items.
pub open spec fn history_views(v: Seq<HistoryItem>) -> Seq<HistoryView> {
    v.map_values(|h: HistoryItem| h@)
}

/// The id of a transcript made at `now` (seconds since the Unix epoch),
/// with a short suffix that tells apart transcripts of the same second:
/// both numbers in decimal, joined by a hyphen.
pub open spec fn history_id(now: u64, suffix: u32) -> Seq<char> {
    decimal(now as nat) + "-"@ + decimal(suffix as nat)
}

impl HistoryItem {
    /// The history item for a transcript `text` in `language`, made at
    /// `now`, with the id suffix `suffix`.
    pub fn new_transcript(text: String, language: String, now: u64, suffix: u32) -> (r: HistoryItem)
        ensures
            r@ == (history_id(now, suffix), text@, now, language@),
    {
        let mut id = decimal_string(now);
        id.append("-");
        id.append(decimal_string(suffix as u64).as_str());
        HistoryItem { id, text, timestamp: now, language }
    }

    /// A copy of the item.
    pub fn copy(&self) -> (r: HistoryItem)
        ensures
            r@ == self@,
    {
        HistoryItem {
            id: self.id.clone(),
            text: self.text.clone(),
            timestamp: self.timestamp,
            language: self.language.clone(),
        }
    }
}

/// What the settings window shows of the application's state.
#[derive(Debug)]
pub struct AppStatus {
    pub model_name: String,
    pub is_model_loaded: bool,
    pub language_mode: String,
    pub is_recording: bool,
    pub active_mic: String,
}

/// The language settings that the tray menu offers.
#[derive(Clone, Copy, Debug, PartialEq, Eq, Structural)]
pub enum LanguageChoice {
    Auto,
    Indonesian,
    English,
}

/// The language mode that a choice stores.
pub open spec fn choice_mode(c: LanguageChoice) -> Seq<char> {
    match c {
        LanguageChoice::Auto => "auto"@,
        LanguageChoice::Indonesian => "id"@,
        LanguageChoice::English => "en"@,
    }
}

impl LanguageChoice {
    /// The language mode that the choice stores.
    pub fn mode(&self) -> (r: &'static str)
        ensures
            r@ == choice_mode(*self),
    {
        match self {
            LanguageChoice::Auto => "auto",
            LanguageChoice::Indonesian => "id",
            LanguageChoice::English => "en",
        }
    }
}

/// What a click on a tray menu item asks for.
#[derive(Clone, Copy, Debug, PartialEq, Eq, Structural)]
pub enum MenuAction {
    /// Switch to the microphone at this position of the list.
    SelectMic(usize),
    /// Set the language mode.
    SetLanguage(LanguageChoice),
    /// Leave the application.
    Quit,
    /// Nothing to do.
    Ignore,
}

/// The prefix of the ids of the microphone items.
pub open spec fn mic_prefix() -> Seq<char> {
    "mic_"@
}

/// What the menu item with id `id` asks for: an id of the form `mic_N`
/// selects microphone `N` (nothing, where `N` is not a number); the
/// language items set their language; `quit` quits; any other id does
/// nothing.
pub open spec fn menu_action_of(id: Seq<char>) -> MenuAction {
    if id.len() >= 4 && id.take(4) == mic_prefix() {
        match parsed_usize(id.skip(4)) {
            Some(i) => MenuAction::SelectMic(i),
            None => MenuAction::Ignore,
        }
    } else if id == "lang_auto"@ {
        MenuAction::SetLanguage(LanguageChoice::Auto)
    } else if id == "lang_id"@ {
        MenuAction::SetLanguage(LanguageChoice::Indonesian)
    } else if id == "lang_en"@ {
        MenuAction::SetLanguage(LanguageChoice::English)
    } else if id == "quit"@ {
        MenuAction::Quit
    } else {
        MenuAction::Ignore
    }
}

/// What the menu item with id `id` asks for (see [`menu_action_of`]).
pub fn menu_action(id: &str) -> (r: MenuAction)
    ensures
        r == menu_action_of(id@),
{
    proof {
        reveal_strlit("mic_");
    }
    let c = chars_of(id);
    if c.len() >= 4 && c[0] == 'm' && c[1] == 'i' && c[2] == 'c' && c[3] == '_' {
        assert(c@.take(4) =~= mic_prefix());
        let rest = sub_chars(&c, 4, c.len());
        assert(rest@ =~= id@.skip(4));
        let rest_str = string_of(&rest);
        return match parse_usize(rest_str.as_str()) {
            Some(i) => MenuAction::SelectMic(i),
            None => MenuAction::Ignore,
        };
    }
    assert(!(id@.len() >= 4 && id@.take(4) == mic_prefix())) by {
        if id@.len() >= 4 && id@.take(4) == mic_prefix() {
            assert(id@.take(4)[0] == 'm' && id@.take(4)[1] == 'i');
            assert(id@.take(4)[2] == 'c' && id@.take(4)[3] == '_');
        }
    }
    if str_eq(id, "lang_auto") {
        MenuAction::SetLanguage(LanguageChoice::Auto)
    } else if str_eq(id, "lang_id") {
        MenuAction::SetLanguage(LanguageChoice::Indonesian)
    } else if str_eq(id, "lang_en") {
        MenuAction::SetLanguage(LanguageChoice::English)
    } else if str_eq(id, "quit") {
        MenuAction::Quit
    } else {
        MenuAction::Ignore
    }
}

/// The id of the menu item of the microphone at position `index`.
pub fn mic_item_id(index: usize) -> (r: String)
    ensures
        r@ == mic_prefix() + decimal(index as nat),
{
    let mut r = String::from_str("mic_");
    r.append(decimal_string(index as u64).as_str());
    r
}

/// Law: the item made for the microphone at position `index` selects that
/// microphone.
pub proof fn law_mic_item_selects_mic(index: usize)
    ensures
        menu_action_of(mic_prefix() + decimal(index as nat)) == MenuAction::SelectMic(index),
{
    reveal_strlit("mic_");
    let id = mic_prefix() + decimal(index as nat);
    assert(id.take(4) =~= mic_prefix());
    assert(id.skip(4) =~= decimal(index as nat));
    law_decimal_parses_back(index);
}

/// The language to ask the recognizer for under a language mode: `"id"`
/// and `"en"` their own, anything else automatic detection (`None`).
pub open spec fn mode_language(mode: Seq<char>) -> Option<Seq<char>> {
    if mode == "id"@ {
        Some("id"@)
    } else if mode == "en"@ {
        Some("en"@)
    } else {
        None
    }
}

/// The language to ask the recognizer for under a language mode.
pub fn language_for_mode(mode: &str) -> (r: Option<&'static str>)
    ensures
        (match r {
            Some(l) => Some(l@),
            None => None,
        }) == mode_language(mode@),
{
    if str_eq(mode, "id") {
        Some("id")
    } else if str_eq(mode, "en") {
        Some("en")
    } else {
        None
    }
}

/// Law: the language that each tray menu choice sets is the language the
/// recognizer is then run with (automatic detection for "auto").
pub proof fn law_menu_language_reaches_recognizer(c: LanguageChoice)
    ensures
        language_arg(mode_language(choice_mode(c))) == choice_mode(c),
{
    reveal_strlit("auto");
    reveal_strlit("id");
    reveal_strlit("en");
}

/// The least number of samples worth transcribing (0.1 s at 16 kHz).
pub const MIN_TRANSCRIBE_SAMPLES: usize = 1600;

/// Whether a recording of `sample_count` samples is long enough to be
/// transcribed: more than 0.1 s.
pub fn worth_transcribing(sample_count: usize) -> (b: bool)
    ensures
        b == (sample_count > MIN_TRANSCRIBE_SAMPLES),
{
    sample_count > MIN_TRANSCRIBE_SAMPLES
}

/// Whether a cleaned transcript is delivered (shown as done, pasted and
/// kept in the history): only where it holds any text; otherwise nothing
/// was heard.
pub fn should_deliver(cleaned: &str) -> (b: bool)
    ensures
        b == (cleaned@.len() > 0),
{
    !cleaned.is_empty()
}

/// Where the floating overlay goes on a screen of `width` by `height`
/// pixels: 24 pixels from the right edge and 60 from the bottom (above the
/// taskbar), for an overlay of 260 by 110 pixels.
pub fn overlay_position(width: u32, height: u32) -> (r: (i32, i32))
    requires
        width as i32 - 284 >= i32::MIN,
        height as i32 - 170 >= i32::MIN,
    ensures
        r == ((width as i32 - 284) as i32, (height as i32 - 170) as i32),
{
    let overlay_width: i32 = 260;
    let overlay_height: i32 = 110;
    let x = (width as i32) - overlay_width - 24;
    let y = (height as i32) - overlay_height - 60;
    (x, y)
}

/// The system clock's time points.
#[verifier::external_type_specification]
#[verifier::external_body]
pub struct ExSystemTime(std::time::SystemTime);

/// Calls `SystemTime::now`. Nothing is claimed of the time it reads.
#[verifier::external_body]
fn clock_now() -> (t: std::time::SystemTime) {
    std::time::SystemTime::now()
}

/// Calls `SystemTime::duration_since(UNIX_EPOCH)`, with a zero duration
/// where the time stands before the epoch (the call's error). Nothing is
/// claimed of the duration.
#[verifier::external_body]
fn since_unix_epoch(t: &std::time::SystemTime) -> (d: std::time::Duration) {
    t.duration_since(std::time::UNIX_EPOCH).unwrap_or_default()
}

/// Calls `Duration::subsec_nanos`. Claimed, as its documentation says: the
/// fractional part of the duration in nanoseconds, below one billion.
#[verifier::external_body]
fn subsec_nanos(d: &std::time::Duration) -> (r: u32)
    ensures
        r < 1_000_000_000,
{
    d.subsec_nanos()
}

/// The id suffix taken from a clock reading of `nanos` nanoseconds past the
/// second.
pub fn rand_id_from_nanos(nanos: u32) -> (r: u32)
    ensures
        r == nanos % 10000,
{
    nanos % 10000
}

/// A short number, below 10000, taken from the clock, to tell apart
/// transcripts of the same second.
pub fn rand_id() -> (r: u32)
    ensures
        r < 10000,
{
    let now = clock_now();
    let elapsed = since_unix_epoch(&now);
    rand_id_from_nanos(subsec_nanos(&elapsed))
}

/// The state of a dictation session that the settings window reads and
/// changes: the language mode, the model's name, whether a recording is
/// under way, and the history of transcripts, newest first.
pub struct Session {
    language_mode: String,
    model_name: String,
    is_recording: bool,
    history: Vec<HistoryItem>,
}

impl Session {
    /// The language mode.
    pub closed spec fn language(&self) -> Seq<char> {
        self.language_mode@
    }

    /// The name of the model chosen.
    pub closed spec fn model(&self) -> Seq<char> {
        self.model_name@
    }

    /// Whether a recording is under way.
    pub closed spec fn recording(&self) -> bool {
        self.is_recording
    }

    /// The history, newest first.
    pub closed spec fn entries(&self) -> Seq<HistoryView> {
        history_views(self.history@)
    }

    /// A session at start: automatic language, the small model, no
    /// recording, no history.
    pub fn new() -> (r: Session)
        ensures
            r.language() == "auto"@,
            r.model() == "small"@,
            !r.recording(),
            r.entries() == Seq::<HistoryView>::empty(),
    {
        let r = Session {
            language_mode: String::from_str("auto"),
            model_name: String::from_str("small"),
            is_recording: false,
            history: Vec::new(),
        };
        assert(r.entries() =~= Seq::<HistoryView>::empty());
        r
    }

    /// Sets the language mode.
    pub fn set_language_mode(&mut self, mode: String)
        ensures
            final(self).language() == mode@,
            final(self).model() == old(self).model(),
            final(self).recording() == old(self).recording(),
            final(self).entries() == old(self).entries(),
    {
        self.language_mode = mode;
    }

    /// The language mode.
    pub fn language_mode(&self) -> (r: String)
        ensures
            r@ == self.language(),
    {
        self.language_mode.clone()
    }

    /// Sets the name of the model chosen.
    pub fn set_model_name(&mut self, name: String)
        ensures
            final(self).model() == name@,
            final(self).language() == old(self).language(),
            final(self).recording() == old(self).recording(),
            final(self).entries() == old(self).entries(),
    {
        self.model_name = name;
    }

    /// The name of the model chosen.
    pub fn model_name(&self) -> (r: String)
        ensures
            r@ == self.model(),
    {
        self.model_name.clone()
    }

    /// Records whether a recording is under way.
    pub fn set_recording(&mut self, on: bool)
        ensures
            final(self).recording() == on,
            final(self).language() == old(self).language(),
            final(self).model() == old(self).model(),
            final(self).entries() == old(self).entries(),
    {
        self.is_recording = on;
    }

    /// Whether a recording is under way.
    pub fn is_recording(&self) -> (r: bool)
        ensures
            r == self.recording(),
    {
        self.is_recording
    }

    /// Adds a transcript at the head of the history.
    pub fn record_transcript(&mut self, item: HistoryItem)
        ensures
            final(self).entries() == seq![item@] + old(self).entries(),
            final(self).language() == old(self).language(),
            final(self).model() == old(self).model(),
            final(self).recording() == old(self).recording(),
    {
        let ghost v = item@;
        self.history.insert(0, item);
        assert(self.entries() =~= seq![v] + old(self).entries());
    }

    /// Empties the history.
    pub fn clear_history(&mut self)
        ensures
            final(self).entries() == Seq::<HistoryView>::empty(),
            final(self).language() == old(self).language(),
            final(self).model() == old(self).model(),
            final(self).recording() == old(self).recording(),
    {
        self.history.clear();
        assert(self.entries() =~= Seq::<HistoryView>::empty());
    }

    /// The history, newest first.
    pub fn history(&self) -> (r: Vec<HistoryItem>)
        ensures
            history_views(r@) == self.entries(),
    {
        let mut r: Vec<HistoryItem> = Vec::new();
        let mut i: usize = 0;
        while i < self.history.len()
            invariant
                i <= self.history.len(),
                history_views(r@) == self.entries().take(i as int),
            decreases self.history.len() - i,
        {
            let item = self.history[i].copy();
            let ghost before = r@;
            r.push(item);
            assert(self.entries()[i as int] == self.history@[i as int]@);
            assert(history_views(r@) =~= history_views(before).push(item@));
            assert(history_views(r@) =~= self.entries().take(i + 1));
            i += 1;
        }
        assert(self.entries().take(self.history.len() as int) =~= self.entries());
        r
    }

    /// The status shown in the settings window, given whether the model is
    /// loaded and which microphone is in use.
    pub fn status(&self, is_model_loaded: bool, active_mic: String) -> (r: AppStatus)
        ensures
            r.model_name@ == self.model(),
            r.is_model_loaded == is_model_loaded,
            r.language_mode@ == self.language(),
            r.is_recording == self.recording(),
            r.active_mic@ == active_mic@,
    {
        AppStatus {
            model_name: self.model_name.clone(),
            is_model_loaded,
            language_mode: self.language_mode.clone(),
            is_recording: self.is_recording,
            active_mic,
        }
    }
}

} // verus!
