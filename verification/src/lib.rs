//! TypeLess: offline push-to-talk dictation. Hold the right Ctrl key,
//! speak, let go: the recording is transcribed by whisper.cpp, cleaned up
//! and typed into the window that has the focus.
//!
//! This crate holds what the application decides and computes, with its
//! contracts: the text cleaner and its dictionary, the recognizer's
//! arguments and output, the capture buffer of the microphone, the
//! push-to-talk key state, the clipboard text format, the tray menu and
//! the session state.

use vstd::prelude::*;

pub mod chars;
pub mod unicode;
pub mod text;
pub mod cleaner;
pub mod numbers;
pub mod hotkey;
pub mod asr;
pub mod audio;
pub mod injector;
pub mod session;

verus! {
} // verus!
