//! Speech-model kinds, languages, and the rules that pick a model to load.
use vstd::prelude::*;
use crate::text::str_eq;
use crate::errors::AppError;
use crate::paths::{exists_answer, joins_to, joined_answer, path_join, plain_file_name, probe_file, probe_path};
use crate::text::{push_str_chars, string_of};

verus! {

/// The kinds of offline speech recognizers.
#[derive(PartialEq, Eq, Structural, Clone, Copy, Debug)]
pub enum ModelType {
    /// SenseVoice (multilingual).
    SenseVoice,
    /// Paraformer (Mandarin).
    Paraformer,
    /// Zipformer with CTC.
    ZipformerCtc,
    /// Transducer (encoder, decoder, joiner).
    Transducer,
}

/// The directory that holds a model of the given kind.
pub open spec fn spec_dir_name(t: ModelType) -> Seq<char> {
    match t {
        ModelType::SenseVoice => "sense-voice-small"@,
        ModelType::Paraformer => "paraformer"@,
        ModelType::ZipformerCtc => "zipformer-ctc"@,
        ModelType::Transducer => "transducer"@,
    }
}

/// The name shown to users for a model kind.
pub open spec fn spec_display_name(t: ModelType) -> Seq<char> {
    match t {
        ModelType::SenseVoice => "SenseVoice-Small"@,
        ModelType::Paraformer => "Paraformer"@,
        ModelType::ZipformerCtc => "Zipformer CTC"@,
        ModelType::Transducer => "Transducer"@,
    }
}

/// The model files looked for, in order of preference.
pub open spec fn spec_file_candidates(t: ModelType) -> Seq<Seq<char>> {
    match t {
        ModelType::SenseVoice => seq!["model.onnx"@, "model.int8.onnx"@, "model_q8.onnx"@],
        ModelType::Paraformer => seq!["model.onnx"@, "model.int8.onnx"@],
        ModelType::ZipformerCtc => seq!["model.onnx"@, "model.int8.onnx"@],
        ModelType::Transducer => seq!["encoder.onnx"@, "decoder.onnx"@, "joiner.onnx"@],
    }
}

/// All model kinds, in the order in which they are scanned.
pub open spec fn all_model_types() -> Seq<ModelType> {
    seq![ModelType::SenseVoice, ModelType::Paraformer, ModelType::ZipformerCtc, ModelType::Transducer]
}

/// The model kind stored under a directory name, if any.
pub open spec fn spec_from_dir_name(name: Seq<char>) -> Option<ModelType> {
    if name == "sense-voice-small"@ {
        Some(ModelType::SenseVoice)
    } else if name == "paraformer"@ {
        Some(ModelType::Paraformer)
    } else if name == "zipformer-ctc"@ {
        Some(ModelType::ZipformerCtc)
    } else if name == "transducer"@ {
        Some(ModelType::Transducer)
    } else {
        None
    }
}

/// The views of a list of strings.
pub open spec fn strings_view(v: Seq<String>) -> Seq<Seq<char>> {
    v.map_values(|s: String| s@)
}

/// The views of a list of string slices.
pub open spec fn strs_view(v: Seq<&str>) -> Seq<Seq<char>> {
    v.map_values(|s: &str| s@)
}

impl ModelType {
    /// The directory name of this model kind.
    pub fn dir_name(&self) -> (r: &'static str)
        ensures
            r@ == spec_dir_name(*self),
    {
        match self {
            ModelType::SenseVoice => "sense-voice-small",
            ModelType::Paraformer => "paraformer",
            ModelType::ZipformerCtc => "zipformer-ctc",
            ModelType::Transducer => "transducer",
        }
    }

    /// The model file names to look for, in order.
    pub fn model_file_candidates(&self) -> (r: Vec<&'static str>)
        ensures
            strs_view(r@) == spec_file_candidates(*self),
    {
        let mut v: Vec<&'static str> = Vec::new();
        match self {
            ModelType::SenseVoice => {
                v.push("model.onnx");
                v.push("model.int8.onnx");
                v.push("model_q8.onnx");
            },
            ModelType::Paraformer | ModelType::ZipformerCtc => {
                v.push("model.onnx");
                v.push("model.int8.onnx");
            },
            ModelType::Transducer => {
                v.push("encoder.onnx");
                v.push("decoder.onnx");
                v.push("joiner.onnx");
            },
        }
        assert(strs_view(v@) =~= spec_file_candidates(*self));
        v
    }

    /// The name shown to users.
    pub fn display_name(&self) -> (r: &'static str)
        ensures
            r@ == spec_display_name(*self),
    {
        match self {
            ModelType::SenseVoice => "SenseVoice-Small",
            ModelType::Paraformer => "Paraformer",
            ModelType::ZipformerCtc => "Zipformer CTC",
            ModelType::Transducer => "Transducer",
        }
    }

    /// The model kind whose directory has the given name.
    pub fn from_dir_name(name: &str) -> (r: Option<ModelType>)
        ensures
            r == spec_from_dir_name(name@),
    {
        if str_eq(name, "sense-voice-small") {
            Some(ModelType::SenseVoice)
        } else if str_eq(name, "paraformer") {
            Some(ModelType::Paraformer)
        } else if str_eq(name, "zipformer-ctc") {
            Some(ModelType::ZipformerCtc)
        } else if str_eq(name, "transducer") {
            Some(ModelType::Transducer)
        } else {
            None
        }
    }
}

/// Whether `name` is one of `names`.
pub fn contains_name(names: &Vec<String>, name: &str) -> (r: bool)
    ensures
        r == strings_view(names@).contains(name@),
{
    let mut k: usize = 0;
    while k < names.len()
        invariant
            k <= names@.len(),
            forall|q: int| 0 <= q < k ==> names@[q]@ != name@,
        decreases names.len() - k,
    {
        if str_eq(names[k].as_str(), name) {
            assert(strings_view(names@)[k as int] == name@);
            return true;
        }
        k = k + 1;
    }
    assert forall|q: int| 0 <= q < strings_view(names@).len() implies strings_view(names@)[q] != name@ by {
        assert(strings_view(names@)[q] == names@[q]@);
    }
    false
}

// ---------------------------------------------------------------------------
// Available model directories
// ---------------------------------------------------------------------------

/// The directory names of the model kinds whose flag is set, among the first `k`
/// kinds, in scanning order.
pub open spec fn names_flagged(flags: Seq<bool>, k: int) -> Seq<Seq<char>>
    decreases k,
{
    if k <= 0 {
        Seq::empty()
    } else if flags[k - 1] {
        names_flagged(flags, k - 1).push(spec_dir_name(all_model_types()[k - 1]))
    } else {
        names_flagged(flags, k - 1)
    }
}

/// The directory names of the flagged model kinds, in scanning order.
pub open spec fn spec_available_names(flags: Seq<bool>) -> Seq<Seq<char>> {
    names_flagged(flags, 4)
}

/// The directory names of the model kinds whose directory holds a model file.
pub fn available_names(flags: &Vec<bool>) -> (r: Vec<String>)
    requires
        flags@.len() == 4,
    ensures
        strings_view(r@) == spec_available_names(flags@),
{
    let mut types: Vec<ModelType> = Vec::new();
    types.push(ModelType::SenseVoice);
    types.push(ModelType::Paraformer);
    types.push(ModelType::ZipformerCtc);
    types.push(ModelType::Transducer);
    assert(types@ =~= all_model_types());
    let mut r: Vec<String> = Vec::new();
    let mut k: usize = 0;
    while k < 4
        invariant
            k <= 4,
            flags@.len() == 4,
            types@ == all_model_types(),
            strings_view(r@) == names_flagged(flags@, k as int),
        decreases 4 - k,
    {
        if flags[k] {
            let name = types[k].dir_name().to_owned();
            let ghost before = strings_view(r@);
            r.push(name);
            assert(strings_view(r@) =~= before.push(name@));
        }
        k = k + 1;
    }
    r
}

proof fn lemma_model_names_plain()
    ensures
        forall|t: ModelType| plain_file_name(#[trigger] spec_dir_name(t)),
        forall|t: ModelType, k: int|
            0 <= k < spec_file_candidates(t).len() ==> plain_file_name(#[trigger] spec_file_candidates(t)[k]),
{
    reveal_strlit("sense-voice-small");
    reveal_strlit("paraformer");
    reveal_strlit("zipformer-ctc");
    reveal_strlit("transducer");
    reveal_strlit("model.onnx");
    reveal_strlit("model.int8.onnx");
    reveal_strlit("model_q8.onnx");
    reveal_strlit("encoder.onnx");
    reveal_strlit("decoder.onnx");
    reveal_strlit("joiner.onnx");
    assert forall|t: ModelType| plain_file_name(#[trigger] spec_dir_name(t)) by {
        match t {
            ModelType::SenseVoice => {},
            ModelType::Paraformer => {},
            ModelType::ZipformerCtc => {},
            ModelType::Transducer => {},
        }
    }
    assert forall|t: ModelType, k: int|
        0 <= k < spec_file_candidates(t).len() implies plain_file_name(#[trigger] spec_file_candidates(t)[k]) by {
        match t {
            ModelType::SenseVoice => {},
            ModelType::Paraformer => {},
            ModelType::ZipformerCtc => {},
            ModelType::Transducer => {},
        }
    }
}

/// `cands` are the answers, in order, of asking the disk for the files `names` in the
/// directory `d`, stopping at the first that is there: every answer before the last is
/// "missing", and all names were asked unless the last answer is "there".
pub open spec fn first_hit_probe(d: Seq<char>, names: Seq<Seq<char>>, cands: Seq<bool>) -> bool {
    &&& cands.len() <= names.len()
    &&& forall|k: int| 0 <= k < cands.len() ==> #[trigger] joined_answer(d, names[k], cands[k])
    &&& forall|k: int| 0 <= k < cands.len() - 1 ==> !#[trigger] cands[k]
    &&& !(cands.len() > 0 && cands.last()) ==> cands.len() == names.len()
}

/// One way the check of a model kind's directory can go: `d` joins `base` and the
/// kind's directory name, `present` is the disk's answer for `d`, and when `d` is there
/// the candidate model files are asked for in order; the answer is whether one was found.
pub open spec fn dir_probe(base: Seq<char>, t: ModelType, d: Seq<char>, present: bool, cands: Seq<bool>, r: bool) -> bool {
    &&& joins_to(base, spec_dir_name(t), d)
    &&& exists_answer(d, present)
    &&& present ==> first_hit_probe(d, spec_file_candidates(t), cands)
    &&& r == (present && cands.len() > 0 && cands.last())
}

/// What the check of a model kind's directory under `base` may answer.
pub open spec fn model_dir_answer(base: Seq<char>, t: ModelType, r: bool) -> bool {
    exists|d: Seq<char>, present: bool, cands: Seq<bool>| #[trigger] dir_probe(base, t, d, present, cands, r)
}

/// Whether the directory of a model kind under `base` holds one of its model files.
fn has_model_files(base: &str, t: ModelType) -> (r: bool)
    ensures
        model_dir_answer(base@, t, r),
{
    proof {
        lemma_model_names_plain();
    }
    let dir = path_join(base, t.dir_name());
    let present = probe_path(dir.as_str());
    if !present {
        assert(dir_probe(base@, t, dir@, present, Seq::<bool>::empty(), false));
        return false;
    }
    let cands = t.model_file_candidates();
    let ghost names = spec_file_candidates(t);
    let mut seen: Vec<bool> = Vec::new();
    let mut k: usize = 0;
    while k < cands.len()
        invariant
            k <= cands@.len(),
            strs_view(cands@) == names,
            names == spec_file_candidates(t),
            seen@.len() == k,
            present,
            exists_answer(dir@, present),
            joins_to(base@, spec_dir_name(t), dir@),
            forall|j: int| 0 <= j < k ==> #[trigger] joined_answer(dir@, names[j], seen@[j]),
            forall|j: int| 0 <= j < k ==> !seen@[j],
            forall|t: ModelType, k: int|
                0 <= k < spec_file_candidates(t).len() ==> plain_file_name(#[trigger] spec_file_candidates(t)[k]),
        decreases cands.len() - k,
    {
        assert(names[k as int] == cands@[k as int]@);
        let b = probe_file(dir.as_str(), cands[k]);
        seen.push(b);
        assert(seen@[k as int] == b);
        if b {
            assert(seen@.last() == b);
            assert(first_hit_probe(dir@, names, seen@));
            assert(dir_probe(base@, t, dir@, present, seen@, true));
            return true;
        }
        k = k + 1;
    }
    assert(first_hit_probe(dir@, names, seen@));
    assert(dir_probe(base@, t, dir@, present, seen@, false));
    false
}

/// One way scanning `base` for models can go: `top` is the disk's answer for `base`;
/// when it is there, each model kind's directory is checked in scanning order,
/// otherwise none is; the result lists the kinds whose check said yes.
pub open spec fn available_probe(base: Seq<char>, top: bool, flags: Seq<bool>, names: Seq<Seq<char>>) -> bool {
    &&& exists_answer(base, top)
    &&& flags.len() == 4
    &&& top ==> model_dir_answer(base, ModelType::SenseVoice, flags[0])
    &&& top ==> model_dir_answer(base, ModelType::Paraformer, flags[1])
    &&& top ==> model_dir_answer(base, ModelType::ZipformerCtc, flags[2])
    &&& top ==> model_dir_answer(base, ModelType::Transducer, flags[3])
    &&& !top ==> flags == seq![false, false, false, false]
    &&& names == spec_available_names(flags)
}

/// Creates recognizers for the supported model kinds.
pub struct RecognizerFactory;

impl RecognizerFactory {
    /// The directory names, in scanning order, of the model kinds whose directory under
    /// `base_models_dir` holds one of their model files. Which ones do depends on the disk.
    pub fn list_available(base_models_dir: &str) -> (r: Vec<String>)
        ensures
            exists|top: bool, flags: Seq<bool>| #[trigger] available_probe(base_models_dir@, top, flags, strings_view(r@)),
    {
        let mut flags: Vec<bool> = Vec::new();
        let top = probe_path(base_models_dir);
        if top {
            let a = has_model_files(base_models_dir, ModelType::SenseVoice);
            let b = has_model_files(base_models_dir, ModelType::Paraformer);
            let c = has_model_files(base_models_dir, ModelType::ZipformerCtc);
            let d = has_model_files(base_models_dir, ModelType::Transducer);
            flags.push(a);
            flags.push(b);
            flags.push(c);
            flags.push(d);
            assert(flags@ =~= seq![a, b, c, d]);
        } else {
            flags.push(false);
            flags.push(false);
            flags.push(false);
            flags.push(false);
            assert(flags@ =~= seq![false, false, false, false]);
        }
        let r = available_names(&flags);
        assert(available_probe(base_models_dir@, top, flags@, strings_view(r@)));
        r
    }
}

/// What looking for a model's files in `dir` may answer, given the disk's answers
/// (`flags`, one per model file candidate asked for, in order, and `tokens` for
/// `tokens.txt`): the first candidate present is the model file, and `tokens.txt` must
/// be present beside it; each missing piece is a model-loading error naming `dir`.
pub open spec fn located(dir: Seq<char>, t: ModelType, flags: Seq<bool>, tokens: bool, r: Result<(String, String), AppError>) -> bool {
    let cands = spec_file_candidates(t);
    let found = flags.len() > 0 && flags.last();
    &&& flags.len() <= cands.len()
    &&& forall|k: int| 0 <= k < flags.len() ==> #[trigger] joined_answer(dir, cands[k], flags[k])
    &&& forall|k: int| 0 <= k < flags.len() - 1 ==> !#[trigger] flags[k]
    &&& found ==> joined_answer(dir, "tokens.txt"@, tokens)
    &&& found ==> match r {
        Ok((m, tk)) => tokens && joins_to(dir, cands[flags.len() - 1], m@) && exists_answer(m@, true)
            && joins_to(dir, "tokens.txt"@, tk@) && exists_answer(tk@, true),
        Err(e) => !tokens && (e matches AppError::ModelLoad(msg) && msg@ == "tokens.txt not found in: "@ + dir),
    }
    &&& !found ==> flags.len() == cands.len() && (r matches Err(AppError::ModelLoad(msg))
        && msg@ == spec_display_name(t) + " model file not found in: "@ + dir)
}

/// Finds the files of a model of kind `t` in `dir`: the first of its model file
/// candidates that exists, and `tokens.txt`. Which exist depends on the disk.
pub fn locate_model_files(dir: &str, t: &ModelType) -> (r: Result<(String, String), AppError>)
    ensures
        exists|flags: Seq<bool>, tokens: bool| #[trigger] located(dir@, *t, flags, tokens, r),
{
    proof {
        lemma_model_names_plain();
        reveal_strlit("tokens.txt");
        assert(plain_file_name("tokens.txt"@));
    }
    let cands = t.model_file_candidates();
    let ghost sc = spec_file_candidates(*t);
    let mut flags: Vec<bool> = Vec::new();
    let mut k: usize = 0;
    while k < cands.len()
        invariant
            k <= cands@.len(),
            strs_view(cands@) == sc,
            sc == spec_file_candidates(*t),
            flags@.len() == k,
            forall|q: int| 0 <= q < k ==> !flags@[q],
            forall|q: int| 0 <= q < k ==> #[trigger] joined_answer(dir@, sc[q], flags@[q]),
            forall|t: ModelType, k: int|
                0 <= k < spec_file_candidates(t).len() ==> plain_file_name(#[trigger] spec_file_candidates(t)[k]),
            plain_file_name("tokens.txt"@),
        decreases cands.len() - k,
    {
        assert(sc[k as int] == cands@[k as int]@);
        let model = path_join(dir, cands[k]);
        let present = probe_path(model.as_str());
        assert(joined_answer(dir@, sc[k as int], present)) by {
            assert(joins_to(dir@, sc[k as int], model@) && exists_answer(model@, present));
        }
        flags.push(present);
        assert(flags@[k as int] == present);
        if present {
            assert(flags@.last());
            let tokens = path_join(dir, "tokens.txt");
            let has_tokens = probe_path(tokens.as_str());
            assert(joined_answer(dir@, "tokens.txt"@, has_tokens)) by {
                assert(joins_to(dir@, "tokens.txt"@, tokens@) && exists_answer(tokens@, has_tokens));
            }
            if !has_tokens {
                let mut msg: Vec<char> = Vec::new();
                push_str_chars(&mut msg, "tokens.txt not found in: ");
                push_str_chars(&mut msg, dir);
                let r = Err(AppError::ModelLoad(string_of(&msg)));
                assert(located(dir@, *t, flags@, false, r));
                return r;
            }
            let r = Ok((model, tokens));
            assert(located(dir@, *t, flags@, true, r));
            return r;
        }
        k = k + 1;
    }
    let mut msg: Vec<char> = Vec::new();
    push_str_chars(&mut msg, t.display_name());
    push_str_chars(&mut msg, " model file not found in: ");
    push_str_chars(&mut msg, dir);
    let r = Err(AppError::ModelLoad(string_of(&msg)));
    assert(located(dir@, *t, flags@, false, r));
    r
}

// ---------------------------------------------------------------------------
// Choosing the model to load
// ---------------------------------------------------------------------------

/// Why no model could be chosen.
#[derive(PartialEq, Eq, Structural, Clone, Copy, Debug)]
pub enum ModelChoiceError {
    /// No model directory that can be loaded was found.
    NoModelFound,
}

/// The model chosen when none is preferred: SenseVoice first, then Paraformer.
pub open spec fn spec_auto_choice(available: Seq<Seq<char>>) -> Result<ModelType, ModelChoiceError> {
    if available.contains("sense-voice-small"@) {
        Ok(ModelType::SenseVoice)
    } else if available.contains("paraformer"@) {
        Ok(ModelType::Paraformer)
    } else {
        Err(ModelChoiceError::NoModelFound)
    }
}

/// The model chosen from the available directories: the preferred one when it is
/// available and a known kind, otherwise the automatic choice.
pub open spec fn spec_choose_model(available: Seq<Seq<char>>, preferred: Option<Seq<char>>) -> Result<ModelType, ModelChoiceError> {
    match preferred {
        Some(p) => if available.contains(p) && spec_from_dir_name(p) is Some {
            Ok(spec_from_dir_name(p)->0)
        } else {
            spec_auto_choice(available)
        },
        None => spec_auto_choice(available),
    }
}

/// Picks the model kind to load from the available model directories.
pub fn choose_model_type(available: &Vec<String>, preferred: Option<&str>) -> (r: Result<ModelType, ModelChoiceError>)
    ensures
        r == spec_choose_model(strings_view(available@), match preferred { Some(p) => Some(p@), None => None }),
{
    if let Some(p) = preferred {
        if contains_name(available, p) {
            if let Some(mt) = ModelType::from_dir_name(p) {
                return Ok(mt);
            }
        }
    }
    if contains_name(available, "sense-voice-small") {
        Ok(ModelType::SenseVoice)
    } else if contains_name(available, "paraformer") {
        Ok(ModelType::Paraformer)
    } else {
        Err(ModelChoiceError::NoModelFound)
    }
}

/// Directory names tried, in order, when a model fails to load.
pub open spec fn fallback_priority() -> Seq<Seq<char>> {
    seq!["sense-voice-small"@, "paraformer"@, "qwen3-asr-1.7b"@, "qwen3-asr"@]
}

/// The first name of `names[from..]` that differs from `failed` and is available.
pub open spec fn first_fallback(names: Seq<Seq<char>>, from: int, failed: Seq<char>, available: Seq<Seq<char>>) -> Option<Seq<char>>
    decreases names.len() - from,
{
    if from < 0 || from >= names.len() {
        None
    } else if names[from] != failed && available.contains(names[from]) {
        Some(names[from])
    } else {
        first_fallback(names, from + 1, failed, available)
    }
}

/// The model to fall back to when `failed` could not be loaded: the first name in
/// the priority list other than the failed one that is available, as a model kind.
pub open spec fn spec_fallback(failed: ModelType, available: Seq<Seq<char>>) -> Option<ModelType> {
    match first_fallback(fallback_priority(), 0, spec_dir_name(failed), available) {
        Some(n) => spec_from_dir_name(n),
        None => None,
    }
}

/// Picks a model to fall back to after `failed` could not be loaded.
pub fn pick_fallback_model(failed: &ModelType, available: &Vec<String>) -> (r: Option<ModelType>)
    ensures
        r == spec_fallback(*failed, strings_view(available@)),
{
    let mut names: Vec<&'static str> = Vec::new();
    names.push("sense-voice-small");
    names.push("paraformer");
    names.push("qwen3-asr-1.7b");
    names.push("qwen3-asr");
    assert(strs_view(names@) =~= fallback_priority());
    let ghost prio = fallback_priority();
    let failed_name = failed.dir_name();
    let mut k: usize = 0;
    while k < names.len()
        invariant
            k <= names@.len(),
            strs_view(names@) == prio,
            prio == fallback_priority(),
            failed_name@ == spec_dir_name(*failed),
            first_fallback(prio, 0, failed_name@, strings_view(available@)) == first_fallback(
                prio,
                k as int,
                failed_name@,
                strings_view(available@),
            ),
        decreases names.len() - k,
    {
        assert(prio[k as int] == names@[k as int]@);
        if !str_eq(names[k], failed_name) && contains_name(available, names[k]) {
            return ModelType::from_dir_name(names[k]);
        }
        k = k + 1;
    }
    None
}

pub(crate) proof fn lemma_dir_names_distinct()
    ensures
        "sense-voice-small"@ != "paraformer"@,
        "sense-voice-small"@ != "zipformer-ctc"@,
        "sense-voice-small"@ != "transducer"@,
        "paraformer"@ != "zipformer-ctc"@,
        "paraformer"@ != "transducer"@,
        "zipformer-ctc"@ != "transducer"@,
        "qwen3-asr"@ != "sense-voice-small"@,
        "qwen3-asr"@ != "paraformer"@,
        "qwen3-asr"@ != "zipformer-ctc"@,
        "qwen3-asr"@ != "transducer"@,
        "qwen3-asr-1.7b"@ != "sense-voice-small"@,
        "qwen3-asr-1.7b"@ != "paraformer"@,
        "qwen3-asr-1.7b"@ != "zipformer-ctc"@,
        "qwen3-asr-1.7b"@ != "transducer"@,
{
    reveal_strlit("sense-voice-small");
    reveal_strlit("paraformer");
    reveal_strlit("zipformer-ctc");
    reveal_strlit("transducer");
    reveal_strlit("qwen3-asr");
    reveal_strlit("qwen3-asr-1.7b");
    assert("sense-voice-small"@[0] != "paraformer"@[0]);
    assert("sense-voice-small"@[0] != "zipformer-ctc"@[0]);
    assert("sense-voice-small"@[0] != "transducer"@[0]);
    assert("paraformer"@[0] != "zipformer-ctc"@[0]);
    assert("paraformer"@[0] != "transducer"@[0]);
    assert("zipformer-ctc"@[0] != "transducer"@[0]);
    assert("qwen3-asr"@[0] != "sense-voice-small"@[0]);
    assert("qwen3-asr"@[0] != "paraformer"@[0]);
    assert("qwen3-asr"@[0] != "zipformer-ctc"@[0]);
    assert("qwen3-asr"@[0] != "transducer"@[0]);
    assert("qwen3-asr-1.7b"@[0] != "sense-voice-small"@[0]);
    assert("qwen3-asr-1.7b"@[0] != "paraformer"@[0]);
    assert("qwen3-asr-1.7b"@[0] != "zipformer-ctc"@[0]);
    assert("qwen3-asr-1.7b"@[0] != "transducer"@[0]);
}

/// A model kind is found again from its directory name, and a directory name that
/// names a kind is that kind's directory name.
pub proof fn lemma_dir_name_round_trip(t: ModelType, name: Seq<char>)
    ensures
        spec_from_dir_name(spec_dir_name(t)) == Some(t),
        spec_from_dir_name(name) == Some(t) ==> spec_dir_name(t) == name,
{
    lemma_dir_names_distinct();
}

/// A chosen model is one whose directory is available.
pub proof fn lemma_chosen_model_available(available: Seq<Seq<char>>, preferred: Option<Seq<char>>)
    ensures
        spec_choose_model(available, preferred) matches Ok(t) ==> available.contains(spec_dir_name(t)),
{
    lemma_dir_names_distinct();
    if let Some(p) = preferred {
        if available.contains(p) && spec_from_dir_name(p) is Some {
            lemma_dir_name_round_trip(spec_from_dir_name(p)->0, p);
        }
    }
}

proof fn lemma_first_fallback_found(names: Seq<Seq<char>>, from: int, failed: Seq<char>, available: Seq<Seq<char>>)
    ensures
        first_fallback(names, from, failed, available) matches Some(n) ==> n != failed && available.contains(n),
    decreases names.len() - from,
{
    if from >= 0 && from < names.len() {
        if !(names[from] != failed && available.contains(names[from])) {
            lemma_first_fallback_found(names, from + 1, failed, available);
        }
    }
}

/// The model fallen back to after a failure is never the model that failed, and its
/// directory is available.
pub proof fn lemma_fallback_not_failed(failed: ModelType, available: Seq<Seq<char>>)
    ensures
        spec_fallback(failed, available) matches Some(t) ==> t != failed && available.contains(spec_dir_name(t)),
{
    lemma_first_fallback_found(fallback_priority(), 0, spec_dir_name(failed), available);
    if let Some(n) = first_fallback(fallback_priority(), 0, spec_dir_name(failed), available) {
        if let Some(t) = spec_from_dir_name(n) {
            lemma_dir_name_round_trip(t, n);
        }
    }
}

// ---------------------------------------------------------------------------
// Recognition languages
// ---------------------------------------------------------------------------

/// The language name that Qwen3-ASR expects in its prompt for a UI language code;
/// `None` for "auto" and codes it has no name for.
pub open spec fn spec_qwen3_language(code: Seq<char>) -> Option<Seq<char>> {
    if code == "zh"@ { Some("Chinese"@) }
    else if code == "en"@ { Some("English"@) }
    else if code == "yue"@ { Some("Cantonese"@) }
    else if code == "ja"@ { Some("Japanese"@) }
    else if code == "ko"@ { Some("Korean"@) }
    else if code == "de"@ { Some("German"@) }
    else if code == "fr"@ { Some("French"@) }
    else if code == "es"@ { Some("Spanish"@) }
    else if code == "ru"@ { Some("Russian"@) }
    else if code == "it"@ { Some("Italian"@) }
    else if code == "pt"@ { Some("Portuguese"@) }
    else if code == "th"@ { Some("Thai"@) }
    else if code == "vi"@ { Some("Vietnamese"@) }
    else if code == "id"@ { Some("Indonesian"@) }
    else if code == "ms"@ { Some("Malay"@) }
    else if code == "tr"@ { Some("Turkish"@) }
    else if code == "ar"@ { Some("Arabic"@) }
    else if code == "hi"@ { Some("Hindi"@) }
    else if code == "nl"@ { Some("Dutch"@) }
    else { None }
}

/// Maps a UI language code to the Qwen3-ASR prompt language name.
pub fn qwen3_language_name(code: &str) -> (r: Option<&'static str>)
    ensures
        match r {
            Some(n) => spec_qwen3_language(code@) == Some(n@),
            None => spec_qwen3_language(code@) is None,
        },
{
    if str_eq(code, "zh") { Some("Chinese") }
    else if str_eq(code, "en") { Some("English") }
    else if str_eq(code, "yue") { Some("Cantonese") }
    else if str_eq(code, "ja") { Some("Japanese") }
    else if str_eq(code, "ko") { Some("Korean") }
    else if str_eq(code, "de") { Some("German") }
    else if str_eq(code, "fr") { Some("French") }
    else if str_eq(code, "es") { Some("Spanish") }
    else if str_eq(code, "ru") { Some("Russian") }
    else if str_eq(code, "it") { Some("Italian") }
    else if str_eq(code, "pt") { Some("Portuguese") }
    else if str_eq(code, "th") { Some("Thai") }
    else if str_eq(code, "vi") { Some("Vietnamese") }
    else if str_eq(code, "id") { Some("Indonesian") }
    else if str_eq(code, "ms") { Some("Malay") }
    else if str_eq(code, "tr") { Some("Turkish") }
    else if str_eq(code, "ar") { Some("Arabic") }
    else if str_eq(code, "hi") { Some("Hindi") }
    else if str_eq(code, "nl") { Some("Dutch") }
    else { None }
}

/// A language offered in the user interface.
#[derive(Clone, Debug)]
pub struct Language {
    pub code: String,
    pub name: String,
}

impl View for Language {
    type V = (Seq<char>, Seq<char>);

    open spec fn view(&self) -> (Seq<char>, Seq<char>) {
        (self.code@, self.name@)
    }
}

/// The languages offered, as (code, name) pairs.
pub open spec fn spec_supported_languages() -> Seq<(Seq<char>, Seq<char>)> {
    seq![
        ("zh"@, "中文"@),
        ("en"@, "English"@),
        ("yue"@, "粤语"@),
        ("ja"@, "日本語"@),
        ("ko"@, "한국어"@),
    ]
}

/// The views of a list of languages.
pub open spec fn languages_view(v: Seq<Language>) -> Seq<(Seq<char>, Seq<char>)> {
    v.map_values(|l: Language| l@)
}

/// The first supported language with the given code.
pub open spec fn spec_language_for(code: Seq<char>) -> Option<(Seq<char>, Seq<char>)> {
    let langs = spec_supported_languages();
    if exists|i: int| 0 <= i < langs.len() && (#[trigger] langs[i]).0 == code {
        Some(langs[choose|i: int| 0 <= i < langs.len() && (#[trigger] langs[i]).0 == code])
    } else {
        None
    }
}

fn language(code: &str, name: &str) -> (l: Language)
    ensures
        l@ == (code@, name@),
{
    Language { code: code.to_owned(), name: name.to_owned() }
}

impl Language {
    /// The languages the recognizer supports.
    pub fn supported() -> (r: Vec<Language>)
        ensures
            languages_view(r@) == spec_supported_languages(),
    {
        let mut v: Vec<Language> = Vec::new();
        v.push(language("zh", "中文"));
        v.push(language("en", "English"));
        v.push(language("yue", "粤语"));
        v.push(language("ja", "日本語"));
        v.push(language("ko", "한국어"));
        assert(languages_view(v@) =~= spec_supported_languages());
        v
    }

    /// The supported language with the given code.
    pub fn from_code(code: &str) -> (r: Option<Language>)
        ensures
            match r {
                Some(l) => spec_language_for(code@) == Some(l@),
                None => spec_language_for(code@) is None,
            },
    {
        let langs = Self::supported();
        let ghost s = spec_supported_languages();
        let mut k: usize = 0;
        while k < langs.len()
            invariant
                k <= langs@.len(),
                languages_view(langs@) == s,
                s == spec_supported_languages(),
                forall|q: int| 0 <= q < k ==> s[q].0 != code@,
            decreases langs.len() - k,
        {
            assert(s[k as int] == langs@[k as int]@);
            if str_eq(langs[k].code.as_str(), code) {
                proof {
                    lemma_codes_distinct();
                    assert(s[k as int].0 == code@);
                    let c = choose|i: int| 0 <= i < s.len() && (#[trigger] s[i]).0 == code@;
                    assert(c == k);
                }
                let l = Language { code: langs[k].code.clone(), name: langs[k].name.clone() };
                return Some(l);
            }
            k = k + 1;
        }
        None
    }
}

proof fn lemma_codes_distinct()
    ensures
        forall|i: int, j: int|
            0 <= i < 5 && 0 <= j < 5 && spec_supported_languages()[i].0 == spec_supported_languages()[j].0 ==> i == j,
{
    reveal_strlit("zh");
    reveal_strlit("en");
    reveal_strlit("yue");
    reveal_strlit("ja");
    reveal_strlit("ko");
    let s = spec_supported_languages();
    assert(s[0].0[0] == 'z');
    assert(s[1].0[0] == 'e');
    assert(s[2].0[0] == 'y');
    assert(s[3].0[0] == 'j');
    assert(s[4].0[0] == 'k');
}

/// Looking a language up by its code finds the supported language with that code
/// (the codes are distinct), and finds nothing for a code that none has; the match is
/// exact, so case matters.
pub proof fn lemma_language_lookup(code: Seq<char>)
    ensures
        forall|i: int|
            0 <= i < spec_supported_languages().len() ==> spec_language_for(#[trigger] spec_supported_languages()[i].0)
                == Some(spec_supported_languages()[i]),
        (forall|i: int| 0 <= i < spec_supported_languages().len() ==> #[trigger] spec_supported_languages()[i].0 != code)
            ==> spec_language_for(code) is None,
{
    lemma_codes_distinct();
    let langs = spec_supported_languages();
    assert forall|i: int| 0 <= i < langs.len() implies spec_language_for(#[trigger] langs[i].0) == Some(langs[i]) by {
        let c = langs[i].0;
        assert(0 <= i < langs.len() && langs[i].0 == c);
        let j = choose|j: int| 0 <= j < langs.len() && (#[trigger] langs[j]).0 == c;
        assert(j == i);
    }
}

/// The stages of a transcription task.
#[derive(PartialEq, Eq, Structural, Clone, Copy, Debug)]
pub enum TaskStatus {
    Pending,
    ExtractingAudio,
    Transcribing,
    Completed,
    Failed,
    Cancelled,
}

/// A text replacement applied to recognized text.
#[derive(Clone, Debug)]
pub struct ReplacementEntry {
    pub original: String,
    pub replacement: String,
}

} // verus!
