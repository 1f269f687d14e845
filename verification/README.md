# TypeLess

Offline push-to-talk dictation for Windows: hold the right Ctrl key, speak,
release; whisper.cpp transcribes the recording, the text is cleaned up and
pasted into the focused window.

- `src/` — the library, verified with Verus: text cleaning and the user
  dictionary (`cleaner`, `text`, `unicode`, `chars`), the recognizer's
  arguments, output and downloads (`asr`), the microphone capture buffer and
  device choice (`audio`), the push-to-talk key state (`hotkey`), the
  clipboard text format and the paste keystrokes (`injector`), the tray menu
  and session state (`session`), decimal numbers (`numbers`).
- `app/` — the desktop application around it: cpal audio, sample arithmetic
  and resampling, the whisper.cpp process, downloads, files, the Win32
  keyboard hook and clipboard, and the Tauri shell.
- `tests/` — tests of the library.
