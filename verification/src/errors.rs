//! The library's error type.
use vstd::prelude::*;
use crate::text::{push_str_chars, string_of, extend_chars, chars_of};

verus! {

/// Errors of transcription, model management, export and OCR.
///
/// `Io` and `Serde` carry the message of the underlying error.
pub enum AppError {
    AudioExtraction(String),
    ModelLoad(String),
    Transcription(String),
    Export(String),
    Io(String),
    FfmpegNotFound,
    UnsupportedFormat(String),
    ModelNotDownloaded(String),
    ModelDownload(String),
    Serde(String),
    Ocr(String),
}

/// Result with the library's error type.
pub type AppResult<T> = Result<T, AppError>;

/// The text a user sees for an error: a fixed prefix per kind, then the detail.
pub open spec fn error_message(e: AppError) -> Seq<char> {
    match e {
        AppError::AudioExtraction(d) => "音频提取失败: "@ + d@,
        AppError::ModelLoad(d) => "模型加载失败: "@ + d@,
        AppError::Transcription(d) => "转录失败: "@ + d@,
        AppError::Export(d) => "导出失败: "@ + d@,
        AppError::Io(d) => "IO 错误: "@ + d@,
        AppError::FfmpegNotFound => "FFmpeg 未找到，请安装 FFmpeg 并确保其在 PATH 中"@,
        AppError::UnsupportedFormat(d) => "不支持的格式: "@ + d@,
        AppError::ModelNotDownloaded(d) => "模型未下载: "@ + d@,
        AppError::ModelDownload(d) => "模型下载失败: "@ + d@,
        AppError::Serde(d) => "序列化错误: "@ + d@,
        AppError::Ocr(d) => "OCR 错误: "@ + d@,
    }
}

fn prefixed(prefix: &str, detail: &String) -> (r: String)
    ensures
        r@ == prefix@ + detail@,
{
    let mut out: Vec<char> = Vec::new();
    push_str_chars(&mut out, prefix);
    let d = chars_of(detail.as_str());
    extend_chars(&mut out, &d);
    string_of(&out)
}

impl AppError {
    /// The message of this error, as its `Display` would print it.
    pub fn message(&self) -> (r: String)
        ensures
            r@ == error_message(*self),
    {
        match self {
            AppError::AudioExtraction(d) => prefixed("音频提取失败: ", d),
            AppError::ModelLoad(d) => prefixed("模型加载失败: ", d),
            AppError::Transcription(d) => prefixed("转录失败: ", d),
            AppError::Export(d) => prefixed("导出失败: ", d),
            AppError::Io(d) => prefixed("IO 错误: ", d),
            AppError::FfmpegNotFound => {
                let s = "FFmpeg 未找到，请安装 FFmpeg 并确保其在 PATH 中";
                let cs = chars_of(s);
                string_of(&cs)
            },
            AppError::UnsupportedFormat(d) => prefixed("不支持的格式: ", d),
            AppError::ModelNotDownloaded(d) => prefixed("模型未下载: ", d),
            AppError::ModelDownload(d) => prefixed("模型下载失败: ", d),
            AppError::Serde(d) => prefixed("序列化错误: ", d),
            AppError::Ocr(d) => prefixed("OCR 错误: ", d),
        }
    }
}

} // verus!
