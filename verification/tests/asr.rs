use typeless::asr::{
    clean_transcript, existing_download_complete, first_available, http_success, thread_count,
    transcript_from_output, transcript_from_run, whisper_language, whisper_options, DownloadTally, ModelSize,
    TranscribeError, WhisperEngine,
};

#[test]
fn model_sizes() {
    assert_eq!(ModelSize::Tiny.file_name(), "ggml-tiny.bin");
    assert_eq!(ModelSize::Base.file_name(), "ggml-base.bin");
    assert_eq!(ModelSize::Small.file_name(), "ggml-small.bin");
    assert_eq!(ModelSize::Tiny.min_bytes(), 70_000_000);
    assert_eq!(ModelSize::Base.min_bytes(), 140_000_000);
    assert_eq!(ModelSize::Small.min_bytes(), 450_000_000);
    for m in [ModelSize::Tiny, ModelSize::Base, ModelSize::Small] {
        let url = m.download_url();
        assert_eq!(
            url,
            format!("https://huggingface.co/ggerganov/whisper.cpp/resolve/main/{}", m.file_name())
        );
    }
}

#[test]
fn model_names() {
    assert_eq!(ModelSize::from_name("tiny"), ModelSize::Tiny);
    assert_eq!(ModelSize::from_name("small"), ModelSize::Small);
    assert_eq!(ModelSize::from_name("base"), ModelSize::Base);
    assert_eq!(ModelSize::from_name("large"), ModelSize::Base);
    assert_eq!(ModelSize::from_name("Tiny"), ModelSize::Base);
}

#[test]
fn language_and_threads() {
    assert_eq!(whisper_language(Some("id")), "id");
    assert_eq!(whisper_language(Some("en")), "en");
    assert_eq!(whisper_language(Some("fr")), "auto");
    assert_eq!(whisper_language(None), "auto");
    assert_eq!(thread_count(Some(1)), 4);
    assert_eq!(thread_count(Some(6)), 6);
    assert_eq!(thread_count(Some(32)), 8);
    assert_eq!(thread_count(None), 4);
}

#[test]
fn options_for_the_program() {
    let args = whisper_options(Some("id"), Some(12));
    assert_eq!(
        args,
        vec![
            "-l", "id", "-t", "8", "--prompt",
            "Halo, ini adalah aplikasi voice typing bahasa Indonesia.", "-nt", "-np",
            "--flash-attn",
        ]
    );
    let args = whisper_options(None, None);
    assert_eq!(args[1], "auto");
    assert_eq!(args[3], "4");
}

#[test]
fn transcript_cleanup() {
    assert_eq!(clean_transcript("  Halo dunia \n"), "Halo dunia");
    assert_eq!(clean_transcript(" [BLANK_AUDIO] "), "");
    assert_eq!(clean_transcript("[MUSIC] Halo (music) [laughter]"), "Halo");
    assert_eq!(clean_transcript("a [silence] b [applause]"), "a  b");
    assert_eq!(clean_transcript("[BLANK_[BLANK_AUDIO]AUDIO]"), "[BLANK_AUDIO]");
}

#[test]
fn run_outcome() {
    match transcript_from_run(true, " [BLANK_AUDIO] Selamat pagi ", "") {
        Ok(t) => assert_eq!(t, "Selamat pagi"),
        Err(_) => panic!("expected a transcript"),
    }
    match transcript_from_run(false, "", "model not found") {
        Err(e) => assert_eq!(e.message(), "whisper-cli error: model not found"),
        Ok(_) => panic!("expected an error"),
    }
}

#[test]
fn engine_readiness() {
    let mut engine: WhisperEngine<String> = WhisperEngine::new();
    assert!(!engine.is_loaded());
    assert_eq!(engine.active_model(), "base");
    assert!(matches!(engine.check_ready(0), Ok(None)));
    match engine.check_ready(10) {
        Err(e) => {
            assert!(matches!(e, TranscribeError::CliNotReady));
            assert_eq!(e.message(), "whisper-cli belum diinisialisasi.");
        }
        Ok(_) => panic!("expected an error"),
    }
    engine.set_loaded("cli.exe".to_string(), "model.bin".to_string(), "tiny");
    assert!(engine.is_loaded());
    assert_eq!(engine.active_model(), "tiny");
    match engine.check_ready(10) {
        Ok(Some((c, m))) => {
            assert_eq!(c, "cli.exe");
            assert_eq!(m, "model.bin");
        }
        _ => panic!("expected the tools"),
    }
    assert_eq!(TranscribeError::ModelNotLoaded.message(), "Model ggml belum dimuat.");
}

#[test]
fn downloads() {
    assert!(existing_download_complete(100, 100));
    assert!(!existing_download_complete(99, 100));
    assert!(http_success(200));
    assert!(http_success(204));
    assert!(!http_success(199));
    assert!(!http_success(301));
    assert!(!http_success(404));
    let mut tally = DownloadTally::new();
    tally.add_chunk(600);
    tally.add_chunk(500);
    assert_eq!(tally.downloaded(), 1100);
    assert_eq!(tally.finish(1000), Ok(1100));
    let e = tally.finish(2000).unwrap_err();
    assert_eq!(e.downloaded, 1100);
    assert_eq!(e.message(), "Ukuran unduhan terlalu kecil (1100 bytes), minimal 2000 bytes");
}

#[test]
fn first_available_candidate() {
    assert_eq!(first_available(&vec![false, true, true]), Some(1));
    assert_eq!(first_available(&vec![false, false]), None);
    assert_eq!(first_available(&vec![]), None);
}

#[test]
fn default_engine_is_empty() {
    let engine: WhisperEngine<String> = WhisperEngine::default();
    assert!(!engine.is_loaded());
    assert_eq!(engine.active_model(), "base");
}

#[test]
fn transcript_from_output_reads_the_bytes_as_utf8() {
    match transcript_from_output(true, " [BLANK_AUDIO] Selamat pagi ".as_bytes(), b"") {
        Ok(t) => assert_eq!(t, "Selamat pagi"),
        Err(_) => panic!("expected a transcript"),
    }
    match transcript_from_output(true, b"caf\xc3\xa9 \xff", b"") {
        Ok(t) => assert_eq!(t, "caf\u{e9} \u{fffd}"),
        Err(_) => panic!("expected a transcript"),
    }
    match transcript_from_output(false, b"", b"bad \xff") {
        Err(e) => assert_eq!(e.message(), "whisper-cli error: bad \u{fffd}"),
        Ok(_) => panic!("expected an error"),
    }
}
