//! Decisions of model management: which model a name selects, which models to
//! try after a crash, whether a downloaded file can be kept, and which archive
//! entries are extracted, and where.
use vstd::prelude::*;
use crate::dictionary::{is_json_token_list, spec_is_json_token_list};
use crate::model_manager::InstallKind;
use crate::models::strs_view;
use crate::paths::{has_verbatim_prefix, last_segment, only_trailing_marks, ordinary_path};
use crate::text::{chars_of, find_first, occurs_at, str_eq, string_of, sub_chars};

verus! {

/// A model that can be downloaded by name.
#[derive(PartialEq, Eq, Structural, Clone, Copy, Debug)]
pub enum DownloadTarget {
    SenseVoiceSmall,
    Paraformer,
    SileroVad,
    Qwen3Asr,
}

/// The download target a model name selects.
pub open spec fn spec_download_target(name: Seq<char>) -> Option<DownloadTarget> {
    if name == "sense-voice-small"@ {
        Some(DownloadTarget::SenseVoiceSmall)
    } else if name == "paraformer"@ {
        Some(DownloadTarget::Paraformer)
    } else if name == "silero-vad"@ {
        Some(DownloadTarget::SileroVad)
    } else if name == "qwen3-asr"@ {
        Some(DownloadTarget::Qwen3Asr)
    } else {
        None
    }
}

/// The download target a model name selects; `None` for an unknown model.
pub fn download_target(name: &str) -> (r: Option<DownloadTarget>)
    ensures
        r == spec_download_target(name@),
{
    if str_eq(name, "sense-voice-small") {
        Some(DownloadTarget::SenseVoiceSmall)
    } else if str_eq(name, "paraformer") {
        Some(DownloadTarget::Paraformer)
    } else if str_eq(name, "silero-vad") {
        Some(DownloadTarget::SileroVad)
    } else if str_eq(name, "qwen3-asr") {
        Some(DownloadTarget::Qwen3Asr)
    } else {
        None
    }
}

/// How the directory of a speech model that can be made active is checked.
pub open spec fn spec_active_model_kind(name: Seq<char>) -> Option<InstallKind> {
    if name == "sense-voice-small"@ {
        Some(InstallKind::SingleModel)
    } else if name == "paraformer"@ {
        Some(InstallKind::Paraformer)
    } else if name == "qwen3-asr"@ {
        Some(InstallKind::Qwen3Asr)
    } else {
        None
    }
}

/// The installation check for a speech model that can be made active; `None` when
/// the name is not such a model.
pub fn active_model_kind(name: &str) -> (r: Option<InstallKind>)
    ensures
        r == spec_active_model_kind(name@),
{
    if str_eq(name, "sense-voice-small") {
        Some(InstallKind::SingleModel)
    } else if str_eq(name, "paraformer") {
        Some(InstallKind::Paraformer)
    } else if str_eq(name, "qwen3-asr") {
        Some(InstallKind::Qwen3Asr)
    } else {
        None
    }
}

/// The models tried, in order, after the named model crashed the application while
/// loading: the others, SenseVoice first, never the crashed one.
pub open spec fn spec_crash_fallbacks(crashed: Seq<char>) -> Seq<Seq<char>> {
    if crashed == "sense-voice-small"@ {
        seq!["paraformer"@, "qwen3-asr"@, "qwen3-asr-1.7b"@]
    } else if crashed == "paraformer"@ {
        seq!["sense-voice-small"@, "qwen3-asr"@, "qwen3-asr-1.7b"@]
    } else if crashed == "qwen3-asr"@ {
        seq!["sense-voice-small"@, "paraformer"@, "qwen3-asr-1.7b"@]
    } else if crashed == "qwen3-asr-1.7b"@ {
        seq!["sense-voice-small"@, "paraformer"@, "qwen3-asr"@]
    } else {
        seq!["sense-voice-small"@, "paraformer"@, "qwen3-asr"@, "qwen3-asr-1.7b"@]
    }
}

/// The models to try after the named model crashed the application while loading.
pub fn crash_fallbacks(crashed: &str) -> (r: Vec<&'static str>)
    ensures
        strs_view(r@) == spec_crash_fallbacks(crashed@),
{
    let r: Vec<&'static str> = if str_eq(crashed, "sense-voice-small") {
        vec!["paraformer", "qwen3-asr", "qwen3-asr-1.7b"]
    } else if str_eq(crashed, "paraformer") {
        vec!["sense-voice-small", "qwen3-asr", "qwen3-asr-1.7b"]
    } else if str_eq(crashed, "qwen3-asr") {
        vec!["sense-voice-small", "paraformer", "qwen3-asr-1.7b"]
    } else if str_eq(crashed, "qwen3-asr-1.7b") {
        vec!["sense-voice-small", "paraformer", "qwen3-asr"]
    } else {
        vec!["sense-voice-small", "paraformer", "qwen3-asr", "qwen3-asr-1.7b"]
    };
    assert(strs_view(r@) =~= spec_crash_fallbacks(crashed@));
    r
}

/// After a crash, the fallback search never retries the model that crashed, and it
/// starts with SenseVoice unless SenseVoice is the one that crashed.
pub proof fn lemma_crash_fallbacks_skip_crashed(crashed: Seq<char>)
    ensures
        crashed != "sense-voice-small"@ ==> spec_crash_fallbacks(crashed)[0] == "sense-voice-small"@,
        !spec_crash_fallbacks(crashed).contains(crashed),
{
    crate::models::lemma_dir_names_distinct();
    reveal_strlit("qwen3-asr");
    reveal_strlit("qwen3-asr-1.7b");
    assert("qwen3-asr"@.len() != "qwen3-asr-1.7b"@.len());
    let list = spec_crash_fallbacks(crashed);
    assert forall|i: int| 0 <= i < list.len() implies list[i] != crashed by {}
}

/// How a fallback model's directory is checked: Paraformer and the Qwen3-ASR models
/// by their own files, anything else as a single-file model.
pub open spec fn spec_fallback_kind(name: Seq<char>) -> InstallKind {
    if name == "paraformer"@ {
        InstallKind::Paraformer
    } else if name == "qwen3-asr"@ || name == "qwen3-asr-1.7b"@ {
        InstallKind::Qwen3Asr
    } else {
        InstallKind::SingleModel
    }
}

/// The installation check used for a fallback model.
pub fn fallback_kind(name: &str) -> (r: InstallKind)
    ensures
        r == spec_fallback_kind(name@),
{
    if str_eq(name, "paraformer") {
        InstallKind::Paraformer
    } else if str_eq(name, "qwen3-asr") || str_eq(name, "qwen3-asr-1.7b") {
        InstallKind::Qwen3Asr
    } else {
        InstallKind::SingleModel
    }
}

/// The OCR models that can be made active.
pub open spec fn ocr_models() -> Seq<Seq<char>> {
    seq!["ppocr-v4"@, "ppocr-v5"@, "ppocr-v6"@]
}

/// Whether `name` is an OCR model that can be made active.
pub fn is_valid_ocr_model(name: &str) -> (r: bool)
    ensures
        r == ocr_models().contains(name@),
{
    let r = str_eq(name, "ppocr-v4") || str_eq(name, "ppocr-v5") || str_eq(name, "ppocr-v6");
    proof {
        if r {
            if name@ == "ppocr-v4"@ {
                assert(ocr_models()[0] == name@);
            } else if name@ == "ppocr-v5"@ {
                assert(ocr_models()[1] == name@);
            } else {
                assert(ocr_models()[2] == name@);
            }
        } else {
            assert forall|i: int| 0 <= i < ocr_models().len() implies ocr_models()[i] != name@ by {}
        }
    }
    r
}

/// A file already on disk is kept instead of downloaded again when it exists and
/// holds more than half of its expected size in MiB (files of expected size 0 are
/// always fetched).
pub open spec fn spec_keep_existing(exists: bool, existing_len: u64, expected_mb: u64) -> bool {
    exists && expected_mb > 0 && existing_len > expected_mb * 1024 * 1024 / 2
}

/// Whether a file already on disk is kept instead of downloaded again.
pub fn keep_existing_file(exists: bool, existing_len: u64, expected_mb: u64) -> (r: bool)
    requires
        expected_mb * 1024 * 1024 <= u64::MAX,
    ensures
        r == spec_keep_existing(exists, existing_len, expected_mb),
{
    exists && expected_mb > 0 && existing_len > expected_mb * 1024 * 1024 / 2
}

/// An installed Paraformer model is kept instead of downloaded again when its tokens
/// file could be read and is not a JSON list, and its model file holds more than 50 MB.
pub open spec fn spec_keep_paraformer(tokens: Option<Seq<char>>, model_size: Option<u64>) -> bool {
    &&& tokens matches Some(c) && !spec_is_json_token_list(c)
    &&& model_size matches Some(n) && n > 50_000_000
}

/// Whether an installed Paraformer model is kept, given the text of its tokens file
/// (`None` when it could not be read) and the size of its model file (`None` when it
/// is missing).
pub fn keep_paraformer_install(tokens: Option<&str>, model_size: Option<u64>) -> (r: bool)
    ensures
        r == spec_keep_paraformer(
            match tokens {
                Some(c) => Some(c@),
                None => None,
            },
            model_size,
        ),
{
    let tokens_ok = match tokens {
        Some(c) => !is_json_token_list(c),
        None => false,
    };
    let size_ok = match model_size {
        Some(n) => n > 50_000_000,
        None => false,
    };
    tokens_ok && size_ok
}

/// Whether an HTTP status is a success (2xx).
pub fn http_status_ok(status: u16) -> (r: bool)
    ensures
        r == (200 <= status < 300),
{
    200 <= status && status < 300
}

// ---------------------------------------------------------------------------
// Archive entries
// ---------------------------------------------------------------------------

/// `f` can be the file name of `path`: it is not empty, outside a verbatim prefix it
/// holds no `/`, and only separators and current-directory marks follow it at the end
/// of `path`.
pub open spec fn is_file_name_of(path: Seq<char>, f: Seq<char>) -> bool {
    &&& f.len() > 0
    &&& !has_verbatim_prefix(path) ==> !f.contains('/')
    &&& exists|p: Seq<char>, q: Seq<char>| path == p + f + q && only_trailing_marks(q)
}

/// `Path::file_name`, as text.
///
/// Claims: a found name is not empty, and only separators and `.` come after it;
/// outside a verbatim prefix it holds no `/`; on an ordinary path it is the last component.
/// On other paths, which component it is depends on the platform's separators and
/// prefixes, and is left unsaid.
#[verifier::external_body]
fn path_file_name(path: &str) -> (r: Option<String>)
    ensures
        r matches Some(f) ==> is_file_name_of(path@, f@),
        ordinary_path(path@) ==> r is Some,
        r matches Some(f) ==> (ordinary_path(path@) ==> f@ == last_segment(path@)),
{
    std::path::Path::new(path).file_name().map(|n| n.to_string_lossy().to_string())
}

/// The files extracted from the Paraformer archive.
pub open spec fn spec_paraformer_wanted(file_name: Seq<char>) -> bool {
    file_name == "model.int8.onnx"@ || file_name == "tokens.txt"@
}

/// Where an entry of the Paraformer archive with this file name is extracted: under its
/// file name when it is one of the wanted files, nowhere otherwise.
pub open spec fn spec_paraformer_target(file_name: Option<Seq<char>>) -> Option<Seq<char>> {
    match file_name {
        Some(f) => if spec_paraformer_wanted(f) { Some(f) } else { None },
        None => None,
    }
}

/// The file name under which an entry of the Paraformer archive is extracted, or `None`
/// when it is not extracted.
pub fn paraformer_entry_target(entry_name: &str) -> (r: Option<String>)
    ensures
        exists|file_name: Option<Seq<char>>|
            (file_name matches Some(f) ==> is_file_name_of(entry_name@, f))
            && match r {
                Some(t) => #[trigger] spec_paraformer_target(file_name) == Some(t@),
                None => spec_paraformer_target(file_name) is None,
            },
        ordinary_path(entry_name@) ==> match r {
            Some(t) => spec_paraformer_target(Some(last_segment(entry_name@))) == Some(t@),
            None => spec_paraformer_target(Some(last_segment(entry_name@))) is None,
        },
{
    let file_name = path_file_name(entry_name);
    let ghost fname = match &file_name {
        Some(f) => Some(f@),
        None => None::<Seq<char>>,
    };
    match file_name {
        Some(f) => if str_eq(f.as_str(), "model.int8.onnx") || str_eq(f.as_str(), "tokens.txt") {
            assert(spec_paraformer_target(fname) == Some(f@));
            Some(f)
        } else {
            assert(spec_paraformer_target(fname) is None);
            None
        },
        None => {
            assert(spec_paraformer_target(fname) is None);
            None
        },
    }
}

/// The model files extracted from the Qwen3-ASR archive.
pub open spec fn qwen3_model_files() -> Seq<Seq<char>> {
    seq!["conv_frontend.onnx"@, "encoder.int8.onnx"@, "encoder.onnx"@, "decoder.int8.onnx"@, "decoder.onnx"@]
}

/// An entry of the tokenizer directory: its name holds `tokenizer/` or `tokenizer\`.
pub open spec fn spec_is_tokenizer_entry(name: Seq<char>) -> bool {
    (exists|i: int| occurs_at(name, "tokenizer/"@, i)) || (exists|i: int| occurs_at(name, "tokenizer\\"@, i))
}

/// Where an entry of the Qwen3-ASR archive is extracted, relative to the model
/// directory: tokenizer entries keep their path from the first `tokenizer` on, the
/// model files go by their file name, and other entries are not extracted.
pub open spec fn spec_qwen3_target(name: Seq<char>, file_name: Option<Seq<char>>) -> Option<Seq<char>> {
    if spec_is_tokenizer_entry(name) {
        let i = choose|i: int| occurs_at(name, "tokenizer"@, i) && forall|j: int| 0 <= j < i ==> !occurs_at(name, "tokenizer"@, j);
        Some(name.subrange(i, name.len() as int))
    } else {
        match file_name {
            Some(f) => if qwen3_model_files().contains(f) { Some(f) } else { None },
            None => None,
        }
    }
}

/// Where an entry of the Qwen3-ASR archive is extracted, relative to the model
/// directory; `None` when it is not extracted.
pub fn qwen3_entry_target(entry_name: &str) -> (r: Option<String>)
    ensures
        exists|file_name: Option<Seq<char>>|
            (file_name matches Some(f) ==> is_file_name_of(entry_name@, f))
            && match r {
                Some(t) => spec_qwen3_target(entry_name@, file_name) == Some(t@),
                None => spec_qwen3_target(entry_name@, file_name) is None,
            },
        ordinary_path(entry_name@) ==> match r {
            Some(t) => spec_qwen3_target(entry_name@, Some(last_segment(entry_name@))) == Some(t@),
            None => spec_qwen3_target(entry_name@, Some(last_segment(entry_name@))) is None,
        },
{
    let name = chars_of(entry_name);
    let file_name = path_file_name(entry_name);
    let ghost fname = match &file_name {
        Some(f) => Some(f@),
        None => None::<Seq<char>>,
    };
    let slash = chars_of("tokenizer/");
    let back = chars_of("tokenizer\\");
    let tok = chars_of("tokenizer");
    let a = find_first(&name, &slash);
    let b = find_first(&name, &back);
    if a.is_some() || b.is_some() {
        proof {
            reveal_strlit("tokenizer/");
            reveal_strlit("tokenizer\\");
            reveal_strlit("tokenizer");
        }
        match find_first(&name, &tok) {
            Some(i) => {
                let rel = sub_chars(&name, i, name.len());
                let out = string_of(&rel);
                proof {
                    assert(spec_is_tokenizer_entry(entry_name@)) by {
                        if a.is_some() {
                            assert(occurs_at(name@, "tokenizer/"@, a->0 as int));
                        } else {
                            assert(occurs_at(name@, "tokenizer\\"@, b->0 as int));
                        }
                    }
                    let c = choose|c: int| occurs_at(entry_name@, "tokenizer"@, c) && forall|j: int| 0 <= j < c ==> !occurs_at(entry_name@, "tokenizer"@, j);
                    assert(c == i) by {
                        if c < i {
                            assert(!occurs_at(name@, tok@, c));
                        } else if c > i {
                            assert(!occurs_at(entry_name@, "tokenizer"@, i as int));
                        }
                    }
                    assert(spec_qwen3_target(entry_name@, fname) == Some(out@));
                    assert(fname matches Some(f) ==> is_file_name_of(entry_name@, f));
                }
                return Some(out);
            },
            None => {
                proof {
                    let j = if a.is_some() { a->0 as int } else { b->0 as int };
                    assert(name@.subrange(j, j + 9) =~= tok@);
                    assert(occurs_at(name@, tok@, j));
                }
                return None;
            },
        }
    }
    assert(!spec_is_tokenizer_entry(entry_name@));
    match file_name {
        Some(f) => {
            let list: Vec<&str> = vec![
                "conv_frontend.onnx",
                "encoder.int8.onnx",
                "encoder.onnx",
                "decoder.int8.onnx",
                "decoder.onnx",
            ];
            assert(strs_view(list@) =~= qwen3_model_files());
            if crate::formats::name_in(&list, f.as_str()) {
                assert(spec_qwen3_target(entry_name@, fname) == Some(f@));
                Some(f)
            } else {
                assert(spec_qwen3_target(entry_name@, fname) is None);
                None
            }
        },
        None => {
            assert(spec_qwen3_target(entry_name@, fname) is None);
            None
        },
    }
}

} // verus!
