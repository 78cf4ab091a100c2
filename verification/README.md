# VelociText

VelociText is an offline desktop tool that turns the speech in audio and video files
into text (sherpa-onnx recognizers with Silero speech detection) and reads text in
images and screenshots (PaddleOCR).

## Layout

- `src/` — the `velocitext` library, verified with Verus: the decisions and data
  handling of the application, each with its contract.
  - `export.rs` — splitting recognized segments into sentences with proportional
    times, and writing plain text, SRT and WebVTT.
  - `models.rs` — model kinds, which model to load, and which to fall back to.
  - `model_manager.rs`, `downloads.rs` — what makes a model installed, the model
    catalog, and which archive entries are extracted where.
  - `pipeline.rs` — speech-detector bookkeeping, the recognized-text filter and the
    gaps that are recognized again.
  - `lifecycle.rs`, `shell.rs` — loading and releasing models, starting recognitions,
    navigation, closing the window and crash recovery.
  - `history.rs`, `dictionary.rs`, `ffmpeg_output.rs`, `formats.rs`, `media.rs`,
    `config.rs`, `progress.rs`, `errors.rs`, `text.rs`, `paths.rs` — the rest.
- `tests/` — tests of the library.
- `app/` — the Tauri application around the library: commands, audio decoding,
  the recognizer and OCR engines, downloads and files.
