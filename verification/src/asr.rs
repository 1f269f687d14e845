use vstd::prelude::*;
use vstd::utf8::{decode_utf8, valid_utf8};

use crate::chars::{chars_of, str_eq, string_of};
use crate::numbers::{decimal, decimal_string};
use crate::text::{replace_all, replace_matching, trim, trim_chars};

verus! {

/// Where the ggml models of whisper.cpp are downloaded from.
pub open spec fn model_base_url() -> Seq<char> {
    "https://huggingface.co/ggerganov/whisper.cpp/resolve/main/"@
}

/// The sizes of speech recognition model that can be used.
#[derive(Clone, Copy, Debug, PartialEq, Eq, Structural)]
pub enum ModelSize {
    Tiny,
    Base,
    Small,
}

/// The file name of the model of size `m`.
pub open spec fn model_file_name(m: ModelSize) -> Seq<char> {
    match m {
        ModelSize::Tiny => "ggml-tiny.bin"@,
        ModelSize::Base => "ggml-base.bin"@,
        ModelSize::Small => "ggml-small.bin"@,
    }
}

/// The model size that a model name selects: `"tiny"` and `"small"` their
/// own, anything else the base model.
pub open spec fn model_for_name(name: Seq<char>) -> ModelSize {
    if name == "tiny"@ {
        ModelSize::Tiny
    } else if name == "small"@ {
        ModelSize::Small
    } else {
        ModelSize::Base
    }
}

impl ModelSize {
    /// Where the model is downloaded from.
    pub fn download_url(&self) -> (r: &'static str)
        ensures
            r@ == (match *self {
                ModelSize::Tiny => "https://huggingface.co/ggerganov/whisper.cpp/resolve/main/ggml-tiny.bin"@,
                ModelSize::Base => "https://huggingface.co/ggerganov/whisper.cpp/resolve/main/ggml-base.bin"@,
                ModelSize::Small => "https://huggingface.co/ggerganov/whisper.cpp/resolve/main/ggml-small.bin"@,
            }),
    {
        match self {
            ModelSize::Tiny => {
                "https://huggingface.co/ggerganov/whisper.cpp/resolve/main/ggml-tiny.bin"
            },
            ModelSize::Base => {
                "https://huggingface.co/ggerganov/whisper.cpp/resolve/main/ggml-base.bin"
            },
            ModelSize::Small => {
                "https://huggingface.co/ggerganov/whisper.cpp/resolve/main/ggml-small.bin"
            },
        }
    }

    /// The file name under which the model is stored.
    pub fn file_name(&self) -> (r: &'static str)
        ensures
            r@ == model_file_name(*self),
    {
        match self {
            ModelSize::Tiny => "ggml-tiny.bin",
            ModelSize::Base => "ggml-base.bin",
            ModelSize::Small => "ggml-small.bin",
        }
    }

    /// The least size in bytes that a complete download of the model has.
    pub fn min_bytes(&self) -> (r: u64)
        ensures
            r == (match *self {
                ModelSize::Tiny => 70_000_000u64,
                ModelSize::Base => 140_000_000u64,
                ModelSize::Small => 450_000_000u64,
            }),
    {
        match self {
            ModelSize::Tiny => 70_000_000,
            ModelSize::Base => 140_000_000,
            ModelSize::Small => 450_000_000,
        }
    }

    /// The model size that a model name selects: `"tiny"` and `"small"`
    /// their own, anything else the base model.
    pub fn from_name(name: &str) -> (r: ModelSize)
        ensures
            r == model_for_name(name@),
    {
        if str_eq(name, "tiny") {
            ModelSize::Tiny
        } else if str_eq(name, "small") {
            ModelSize::Small
        } else {
            ModelSize::Base
        }
    }
}

/// Law: the download URL of each model is the model repository's address
/// followed by the model's file name.
pub proof fn law_download_url_names_file(m: ModelSize)
    ensures
        (match m {
            ModelSize::Tiny => "https://huggingface.co/ggerganov/whisper.cpp/resolve/main/ggml-tiny.bin"@,
            ModelSize::Base => "https://huggingface.co/ggerganov/whisper.cpp/resolve/main/ggml-base.bin"@,
            ModelSize::Small => "https://huggingface.co/ggerganov/whisper.cpp/resolve/main/ggml-small.bin"@,
        }) == model_base_url() + model_file_name(m),
{
    reveal_strlit("https://huggingface.co/ggerganov/whisper.cpp/resolve/main/");
    reveal_strlit("ggml-tiny.bin");
    reveal_strlit("ggml-base.bin");
    reveal_strlit("ggml-small.bin");
    reveal_strlit("https://huggingface.co/ggerganov/whisper.cpp/resolve/main/ggml-tiny.bin");
    reveal_strlit("https://huggingface.co/ggerganov/whisper.cpp/resolve/main/ggml-base.bin");
    reveal_strlit("https://huggingface.co/ggerganov/whisper.cpp/resolve/main/ggml-small.bin");
    assert("https://huggingface.co/ggerganov/whisper.cpp/resolve/main/ggml-tiny.bin"@
        =~= model_base_url() + model_file_name(ModelSize::Tiny));
    assert("https://huggingface.co/ggerganov/whisper.cpp/resolve/main/ggml-base.bin"@
        =~= model_base_url() + model_file_name(ModelSize::Base));
    assert("https://huggingface.co/ggerganov/whisper.cpp/resolve/main/ggml-small.bin"@
        =~= model_base_url() + model_file_name(ModelSize::Small));
}

// ------------------------------------------------------------ the engine

/// Why a transcription cannot be made.
#[derive(Debug)]
pub enum TranscribeError {
    /// The whisper command-line program has not been located yet.
    CliNotReady,
    /// No model has been loaded yet.
    ModelNotLoaded,
    /// The program ran and failed; its error output.
    CliFailed(String),
}

impl TranscribeError {
    /// The message shown for the error.
    pub fn message(&self) -> (r: String)
        ensures
            r@ == (match self {
                TranscribeError::CliNotReady => "whisper-cli belum diinisialisasi."@,
                TranscribeError::ModelNotLoaded => "Model ggml belum dimuat."@,
                TranscribeError::CliFailed(e) => "whisper-cli error: "@ + e@,
            }),
    {
        match self {
            TranscribeError::CliNotReady => String::from_str("whisper-cli belum diinisialisasi."),
            TranscribeError::ModelNotLoaded => String::from_str("Model ggml belum dimuat."),
            TranscribeError::CliFailed(e) => {
                let mut m = String::from_str("whisper-cli error: ");
                m.append(e.as_str());
                m
            },
        }
    }
}

/// The speech recognition engine: where the whisper program and the model
/// file are, once they have been found, and the name of the model in use.
/// `P` is the type of a file path.
pub struct WhisperEngine<P> {
    cli_path: Option<P>,
    model_path: Option<P>,
    active_model: String,
}

impl<P> Default for WhisperEngine<P> {
    /// An engine with nothing loaded, named after the base model.
    fn default() -> (r: WhisperEngine<P>)
        ensures
            r.cli() is None,
            r.model() is None,
            r.active() == "base"@,
    {
        WhisperEngine::new()
    }
}

impl<P> WhisperEngine<P> {
    /// The path of the whisper program, once found.
    pub closed spec fn cli(&self) -> Option<P> {
        self.cli_path
    }

    /// The path of the model file, once loaded.
    pub closed spec fn model(&self) -> Option<P> {
        self.model_path
    }

    /// The name of the model in use.
    pub closed spec fn active(&self) -> Seq<char> {
        self.active_model@
    }

    /// An engine with nothing loaded, named after the base model.
    pub fn new() -> (r: WhisperEngine<P>)
        ensures
            r.cli() is None,
            r.model() is None,
            r.active() == "base"@,
    {
        WhisperEngine { cli_path: None, model_path: None, active_model: String::from_str("base") }
    }

    /// Whether both the program and the model are in place.
    pub fn is_loaded(&self) -> (r: bool)
        ensures
            r == (self.model() is Some && self.cli() is Some),
    {
        self.model_path.is_some() && self.cli_path.is_some()
    }

    /// Records that the program at `cli` and the model at `model`, named
    /// `name`, are ready.
    pub fn set_loaded(&mut self, cli: P, model: P, name: &str)
        ensures
            final(self).cli() == Some(cli),
            final(self).model() == Some(model),
            final(self).active() == name@,
    {
        self.cli_path = Some(cli);
        self.model_path = Some(model);
        self.active_model = String::from_str(name);
    }

    /// The name of the model in use.
    pub fn active_model(&self) -> (r: String)
        ensures
            r@ == self.active(),
    {
        self.active_model.clone()
    }

    /// What a transcription of `sample_count` samples starts from: nothing
    /// to do for no samples (the transcript is empty); else the program
    /// and the model, or the error that says which is missing.
    pub fn check_ready(&self, sample_count: usize) -> (r: Result<Option<(&P, &P)>, TranscribeError>)
        ensures
            sample_count == 0 ==> r matches Ok(None),
            sample_count > 0 && self.cli() is None ==> r matches Err(TranscribeError::CliNotReady),
            sample_count > 0 && self.cli() is Some && self.model() is None ==> r matches Err(
                TranscribeError::ModelNotLoaded,
            ),
            sample_count > 0 && self.cli() is Some && self.model() is Some ==> (r matches Ok(
                Some((c, m)),
            ) && *c == self.cli()->0 && *m == self.model()->0),
    {
        if sample_count == 0 {
            return Ok(None);
        }
        match &self.cli_path {
            None => Err(TranscribeError::CliNotReady),
            Some(c) => match &self.model_path {
                None => Err(TranscribeError::ModelNotLoaded),
                Some(m) => Ok(Some((c, m))),
            },
        }
    }
}

/// The language argument for a language choice: `"id"` and `"en"` their
/// own, anything else (and no choice) automatic detection.
pub open spec fn language_arg(language: Option<Seq<char>>) -> Seq<char> {
    match language {
        Some(l) => if l == "id"@ {
            "id"@
        } else if l == "en"@ {
            "en"@
        } else {
            "auto"@
        },
        None => "auto"@,
    }
}

/// The language argument for a language choice.
pub fn whisper_language(language: Option<&str>) -> (r: &'static str)
    ensures
        r@ == language_arg(match language {
            Some(l) => Some(l@),
            None => None,
        }),
{
    match language {
        Some(l) => if str_eq(l, "id") {
            "id"
        } else if str_eq(l, "en") {
            "en"
        } else {
            "auto"
        },
        None => "auto",
    }
}

/// The number of threads to run the recognizer on: the machine's
/// parallelism held between 4 and 8, or 4 where it is not known.
pub fn thread_count(available: Option<usize>) -> (r: usize)
    ensures
        r == (match available {
            Some(n) => if n < 4 {
                4
            } else if n > 8 {
                8
            } else {
                n
            },
            None => 4,
        }),
{
    match available {
        Some(n) => if n < 4 {
            4
        } else if n > 8 {
            8
        } else {
            n
        },
        None => 4,
    }
}

/// The prompt that steers the recognizer towards Indonesian dictation.
pub open spec fn whisper_prompt() -> Seq<char> {
    "Halo, ini adalah aplikasi voice typing bahasa Indonesia."@
}

/// The arguments of the whisper program after the model and the audio
/// file: the language, the number of threads, the prompt, and the switches
/// for plain text output and flash attention.
pub open spec fn option_args(language: Seq<char>, threads: nat) -> Seq<Seq<char>> {
    seq![
        "-l"@,
        language,
        "-t"@,
        decimal(threads),
        "--prompt"@,
        whisper_prompt(),
        "-nt"@,
        "-np"@,
        "--flash-attn"@,
    ]
}

/// Law: the options are the same for every language choice but for the
/// language itself, which stands second: whatever the language and the
/// number of threads, they are `-l`, the language, `-t`, the threads,
/// `--prompt`, the prompt, then always `-nt` (no timestamps in the
/// transcript), `-np` (no progress output) and `--flash-attn`.
pub proof fn law_options_differ_only_in_language(a: Seq<char>, b: Seq<char>, n: nat)
    ensures
        option_args(a, n).len() == 9,
        option_args(a, n)[1] == a,
        forall|i: int| 0 <= i < 9 && i != 1 ==> option_args(a, n)[i] == option_args(b, n)[i],
        option_args(a, n)[0] == "-l"@,
        option_args(a, n)[2] == "-t"@,
        option_args(a, n)[3] == decimal(n),
        option_args(a, n)[4] == "--prompt"@,
        option_args(a, n)[5] == "Halo, ini adalah aplikasi voice typing bahasa Indonesia."@,
        option_args(a, n)[6] == "-nt"@,
        option_args(a, n)[7] == "-np"@,
        option_args(a, n)[8] == "--flash-attn"@,
{
}

/// The plain values of a list of strings.
pub open spec fn string_views(v: Seq<String>) -> Seq<Seq<char>> {
    v.map_values(|s: String| s@)
}

/// The arguments of the whisper program after the model and the audio
/// file, for a language choice and the machine's parallelism.
pub fn whisper_options(language: Option<&str>, available_threads: Option<usize>) -> (r: Vec<String>)
    ensures
        string_views(r@) == option_args(
            language_arg(match language {
                Some(l) => Some(l@),
                None => None,
            }),
            thread_count_spec(available_threads) as nat,
        ),
{
    let lang = whisper_language(language);
    let threads = thread_count(available_threads);
    let mut r: Vec<String> = Vec::new();
    r.push(String::from_str("-l"));
    r.push(String::from_str(lang));
    r.push(String::from_str("-t"));
    r.push(decimal_string(threads as u64));
    r.push(String::from_str("--prompt"));
    r.push(String::from_str("Halo, ini adalah aplikasi voice typing bahasa Indonesia."));
    r.push(String::from_str("-nt"));
    r.push(String::from_str("-np"));
    r.push(String::from_str("--flash-attn"));
    assert(string_views(r@) =~= option_args(lang@, threads as nat));
    r
}

/// The number of threads for the machine's parallelism (see
/// [`thread_count`]).
pub open spec fn thread_count_spec(available: Option<usize>) -> usize {
    match available {
        Some(n) => if n < 4 {
            4
        } else if n > 8 {
            8
        } else {
            n
        },
        None => 4,
    }
}

/// `t` without any occurrence of `marker`.
pub open spec fn without_marker(t: Seq<char>, marker: Seq<char>) -> Seq<char> {
    replace_all(t, t, marker, Seq::empty())
}

/// The transcript in the recognizer's output `out`: trimmed, without the
/// markers it writes for what is not speech, and trimmed again.
pub open spec fn transcript_text(out: Seq<char>) -> Seq<char> {
    let t0 = trim(out);
    let t1 = without_marker(t0, "[BLANK_AUDIO]"@);
    let t2 = without_marker(t1, "[MUSIC]"@);
    let t3 = without_marker(t2, "(music)"@);
    let t4 = without_marker(t3, "[laughter]"@);
    let t5 = without_marker(t4, "[silence]"@);
    let t6 = without_marker(t5, "[applause]"@);
    trim(t6)
}

fn remove_marker(t: &Vec<char>, marker: &str) -> (r: Vec<char>)
    requires
        marker@.len() > 0,
    ensures
        r@ == without_marker(t@, marker@),
{
    let m = chars_of(marker);
    let empty: Vec<char> = Vec::new();
    assert(empty@ =~= Seq::<char>::empty());
    replace_matching(t, t, &m, &empty)
}

/// The transcript in the recognizer's output (see [`transcript_text`]).
pub fn clean_transcript(out: &str) -> (r: String)
    ensures
        r@ == transcript_text(out@),
{
    proof {
        reveal_strlit("[BLANK_AUDIO]");
        reveal_strlit("[MUSIC]");
        reveal_strlit("(music)");
        reveal_strlit("[laughter]");
        reveal_strlit("[silence]");
        reveal_strlit("[applause]");
    }
    let t = chars_of(out);
    let t0 = trim_chars(&t);
    let t1 = remove_marker(&t0, "[BLANK_AUDIO]");
    let t2 = remove_marker(&t1, "[MUSIC]");
    let t3 = remove_marker(&t2, "(music)");
    let t4 = remove_marker(&t3, "[laughter]");
    let t5 = remove_marker(&t4, "[silence]");
    let t6 = remove_marker(&t5, "[applause]");
    let t7 = trim_chars(&t6);
    string_of(&t7)
}

/// The outcome of a run of the recognizer: its error output as the error
/// where it failed, else the transcript in its output.
pub fn transcript_from_run(success: bool, stdout: &str, stderr: &str) -> (r: Result<String, TranscribeError>)
    ensures
        success ==> (r matches Ok(t) && t@ == transcript_text(stdout@)),
        !success ==> (r matches Err(TranscribeError::CliFailed(e)) && e@ == stderr@),
{
    if success {
        Ok(clean_transcript(stdout))
    } else {
        Err(TranscribeError::CliFailed(String::from_str(stderr)))
    }
}

/// What `String::from_utf8_lossy` gives for these bytes: their UTF-8
/// text, with each invalid sequence replaced by U+FFFD.
pub uninterp spec fn utf8_lossy(bytes: Seq<u8>) -> Seq<char>;

/// Calls `String::from_utf8_lossy` and takes the text it gives. Claimed:
/// the result is [`utf8_lossy`] of the bytes, and (as its documentation
/// says) bytes that are valid UTF-8 give the text that they encode.
#[verifier::external_body]
fn decode_lossy(bytes: &[u8]) -> (r: String)
    ensures
        r@ == utf8_lossy(bytes@),
        valid_utf8(bytes@) ==> r@ == decode_utf8(bytes@),
{
    String::from_utf8_lossy(bytes).into_owned()
}

/// The outcome of a run of the recognizer from the bytes it wrote: its
/// output and its error output are read as UTF-8 text (invalid sequences
/// become U+FFFD), then taken as [`transcript_from_run`] does.
pub fn transcript_from_output(success: bool, stdout: &[u8], stderr: &[u8]) -> (r: Result<
    String,
    TranscribeError,
>)
    ensures
        success ==> (r matches Ok(t) && t@ == transcript_text(utf8_lossy(stdout@))),
        !success ==> (r matches Err(TranscribeError::CliFailed(e)) && e@ == utf8_lossy(stderr@)),
        valid_utf8(stdout@) && success ==> (r matches Ok(t) && t@ == transcript_text(
            decode_utf8(stdout@),
        )),
        valid_utf8(stderr@) && !success ==> (r matches Err(TranscribeError::CliFailed(e)) && e@
            == decode_utf8(stderr@)),
{
    let out = decode_lossy(stdout);
    let err = decode_lossy(stderr);
    transcript_from_run(success, out.as_str(), err.as_str())
}

// ------------------------------------------------------------- downloads

/// The index of the first candidate that is usable, if any.
pub fn first_available(usable: &Vec<bool>) -> (r: Option<usize>)
    ensures
        r matches Some(i) ==> i < usable.len() && usable@[i as int] && forall|j: int|
            0 <= j < i ==> !usable@[j],
        r is None ==> forall|j: int| 0 <= j < usable.len() ==> !usable@[j],
{
    let mut i: usize = 0;
    while i < usable.len()
        invariant
            i <= usable.len(),
            forall|j: int| 0 <= j < i ==> !usable@[j],
        decreases usable.len() - i,
    {
        if usable[i] {
            return Some(i);
        }
        i += 1;
    }
    None
}

/// Whether a file already downloaded, of `len` bytes, is complete: it has
/// at least the least size expected.
pub fn existing_download_complete(len: u64, min_expected: u64) -> (r: bool)
    ensures
        r == (len >= min_expected),
{
    len >= min_expected
}

/// Whether an HTTP status code means success (the 2xx codes).
pub fn http_success(status: u16) -> (r: bool)
    ensures
        r == (200 <= status <= 299),
{
    200 <= status && status <= 299
}

/// A download that ended with fewer bytes than expected.
#[derive(Debug, Clone, Copy, PartialEq, Eq, Structural)]
pub struct DownloadTooSmall {
    pub downloaded: u64,
    pub min_expected: u64,
}

impl DownloadTooSmall {
    /// The message shown for the error.
    pub fn message(&self) -> (r: String)
        ensures
            r@ == "Ukuran unduhan terlalu kecil ("@ + decimal(self.downloaded as nat)
                + " bytes), minimal "@ + decimal(self.min_expected as nat) + " bytes"@,
    {
        let mut m = String::from_str("Ukuran unduhan terlalu kecil (");
        m.append(decimal_string(self.downloaded).as_str());
        m.append(" bytes), minimal ");
        m.append(decimal_string(self.min_expected).as_str());
        m.append(" bytes");
        m
    }
}

/// The count of bytes received in a download.
pub struct DownloadTally {
    downloaded: u64,
}

impl DownloadTally {
    /// The number of bytes received.
    pub closed spec fn total(&self) -> nat {
        self.downloaded as nat
    }

    /// A count at zero.
    pub fn new() -> (r: DownloadTally)
        ensures
            r.total() == 0,
    {
        DownloadTally { downloaded: 0 }
    }

    /// The number of bytes received.
    pub fn downloaded(&self) -> (r: u64)
        ensures
            r == self.total(),
    {
        self.downloaded
    }

    /// Counts a chunk of `len` bytes.
    pub fn add_chunk(&mut self, len: u64)
        requires
            old(self).total() + len <= u64::MAX,
        ensures
            final(self).total() == old(self).total() + len,
    {
        self.downloaded = self.downloaded + len;
    }

    /// The verdict on the finished download: the number of bytes where it
    /// has at least `min_expected`, else the error.
    pub fn finish(&self, min_expected: u64) -> (r: Result<u64, DownloadTooSmall>)
        ensures
            self.total() >= min_expected ==> r == Ok::<u64, DownloadTooSmall>(
                self.total() as u64,
            ),
            self.total() < min_expected ==> r == Err::<u64, DownloadTooSmall>(
                DownloadTooSmall { downloaded: self.total() as u64, min_expected },
            ),
    {
        if self.downloaded < min_expected {
            Err(DownloadTooSmall { downloaded: self.downloaded, min_expected })
        } else {
            Ok(self.downloaded)
        }
    }
}

} // verus!
