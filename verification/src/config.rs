//! The application's settings.
use vstd::prelude::*;

verus! {

/// The application's settings.
pub struct AppConfig {
    /// Where models are stored.
    pub model_path: String,
    /// The default recognition language.
    pub default_language: String,
    /// The default export format: `txt`, `srt` or `vtt`.
    pub export_format: String,
    /// Whether speech detection splits the audio.
    pub use_vad: bool,
    /// An FFmpeg executable to use instead of the one on the search path.
    pub ffmpeg_path: Option<String>,
    /// The speech model to load.
    pub active_model: String,
    /// Whether the sidebar is collapsed.
    pub sidebar_collapsed: bool,
    /// The OCR model to use.
    pub active_ocr_model: String,
}

/// The speech model loaded when the settings name none.
pub fn default_active_model() -> (r: String)
    ensures
        r@ == "sense-voice-small"@,
{
    "sense-voice-small".to_owned()
}

/// The OCR model used when the settings name none.
pub fn default_active_ocr_model() -> (r: String)
    ensures
        r@ == "ppocr-v5"@,
{
    "ppocr-v5".to_owned()
}

impl AppConfig {
    /// The default settings for models stored under `model_path`: Chinese, plain-text
    /// export, speech detection on, FFmpeg from the search path, the default models,
    /// the sidebar open.
    pub fn with_model_path(model_path: String) -> (r: AppConfig)
        ensures
            r.model_path@ == model_path@,
            r.default_language@ == "zh"@,
            r.export_format@ == "txt"@,
            r.use_vad,
            r.ffmpeg_path is None,
            r.active_model@ == "sense-voice-small"@,
            !r.sidebar_collapsed,
            r.active_ocr_model@ == "ppocr-v5"@,
    {
        AppConfig {
            model_path,
            default_language: "zh".to_owned(),
            export_format: "txt".to_owned(),
            use_vad: true,
            ffmpeg_path: None,
            active_model: default_active_model(),
            sidebar_collapsed: false,
            active_ocr_model: default_active_ocr_model(),
        }
    }
}

} // verus!
