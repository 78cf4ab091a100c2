//! Which model files make an installed model, and the catalog of downloadable models.
use vstd::prelude::*;
use crate::models::{strs_view, strings_view};
use crate::paths::{path_join, joins_to, joined_answer, plain_file_name, probe_file};

verus! {

/// The ways a model directory is checked for completeness.
#[derive(PartialEq, Eq, Structural, Clone, Copy, Debug)]
pub enum InstallKind {
    /// A single-file model with `tokens.txt` (SenseVoice).
    SingleModel,
    /// Paraformer: an int8 or plain model and `tokens.txt`.
    Paraformer,
    /// Qwen3-ASR: front end, encoder, decoder and tokenizer.
    Qwen3Asr,
    /// Silero VAD: `model.onnx`.
    SileroVad,
}

/// The files an installed model needs: every group must have at least one file present.
pub open spec fn spec_requirements(kind: InstallKind) -> Seq<Seq<Seq<char>>> {
    match kind {
        InstallKind::SingleModel => seq![
            seq!["model.onnx"@, "model.int8.onnx"@, "model_q8.onnx"@],
            seq!["tokens.txt"@],
        ],
        InstallKind::Paraformer => seq![seq!["model.int8.onnx"@, "model.onnx"@], seq!["tokens.txt"@]],
        InstallKind::Qwen3Asr => seq![
            seq!["conv_frontend.onnx"@],
            seq!["encoder.int8.onnx"@, "encoder.onnx"@],
            seq!["decoder.int8.onnx"@, "decoder.onnx"@],
            seq!["tokenizer"@],
        ],
        InstallKind::SileroVad => seq![seq!["model.onnx"@]],
    }
}

/// Every group has a file that is present.
pub open spec fn spec_requirements_met(present: Seq<Seq<bool>>) -> bool {
    forall|g: int| 0 <= g < present.len() ==> any_true(#[trigger] present[g])
}

/// Some answer in the group is `true`.
pub open spec fn any_true(group: Seq<bool>) -> bool {
    exists|k: int| 0 <= k < group.len() && group[k]
}

/// `present` answers, file by file, the groups of `reqs`.
pub open spec fn probe_shape(present: Seq<Seq<bool>>, reqs: Seq<Seq<Seq<char>>>) -> bool {
    &&& present.len() == reqs.len()
    &&& forall|g: int| 0 <= g < reqs.len() ==> (#[trigger] present[g]).len() == reqs[g].len()
}

/// The views of a list of lists of booleans.
pub open spec fn bools_view(v: Seq<Vec<bool>>) -> Seq<Seq<bool>> {
    v.map_values(|b: Vec<bool>| b@)
}

/// The views of a list of lists of names.
pub open spec fn groups_view(v: Seq<Vec<&str>>) -> Seq<Seq<Seq<char>>> {
    v.map_values(|g: Vec<&str>| strs_view(g@))
}

/// The file groups that make a model of the given kind complete.
pub fn install_requirements(kind: InstallKind) -> (r: Vec<Vec<&'static str>>)
    ensures
        groups_view(r@) == spec_requirements(kind),
{
    let mut r: Vec<Vec<&'static str>> = Vec::new();
    match kind {
        InstallKind::SingleModel => {
            r.push(vec!["model.onnx", "model.int8.onnx", "model_q8.onnx"]);
            r.push(vec!["tokens.txt"]);
        },
        InstallKind::Paraformer => {
            r.push(vec!["model.int8.onnx", "model.onnx"]);
            r.push(vec!["tokens.txt"]);
        },
        InstallKind::Qwen3Asr => {
            r.push(vec!["conv_frontend.onnx"]);
            r.push(vec!["encoder.int8.onnx", "encoder.onnx"]);
            r.push(vec!["decoder.int8.onnx", "decoder.onnx"]);
            r.push(vec!["tokenizer"]);
        },
        InstallKind::SileroVad => {
            r.push(vec!["model.onnx"]);
        },
    }
    assert forall|g: int| 0 <= g < r@.len() implies #[trigger] groups_view(r@)[g] =~= spec_requirements(kind)[g] by {}
    assert(groups_view(r@) =~= spec_requirements(kind));
    r
}

/// Whether every group has a file that is present.
pub fn requirements_met(present: &Vec<Vec<bool>>) -> (r: bool)
    ensures
        r == spec_requirements_met(bools_view(present@)),
{
    let mut g: usize = 0;
    while g < present.len()
        invariant
            g <= present@.len(),
            forall|q: int| 0 <= q < g ==> any_true(#[trigger] bools_view(present@)[q]),
        decreases present.len() - g,
    {
        let group = &present[g];
        let mut found = false;
        let mut k: usize = 0;
        while k < group.len()
            invariant
                k <= group@.len(),
                found == (exists|q: int| 0 <= q < k && group@[q]),
            decreases group.len() - k,
        {
            if group[k] {
                found = true;
            }
            k = k + 1;
        }
        assert(bools_view(present@)[g as int] == group@);
        if !found {
            return false;
        }
        g = g + 1;
    }
    true
}

/// The requirement names are plain file names.
proof fn lemma_requirement_names_plain(kind: InstallKind)
    ensures
        forall|g: int, k: int|
            0 <= g < spec_requirements(kind).len() && 0 <= k < spec_requirements(kind)[g].len()
                ==> plain_file_name(#[trigger] spec_requirements(kind)[g][k]),
{
    reveal_strlit("model.onnx");
    reveal_strlit("model.int8.onnx");
    reveal_strlit("model_q8.onnx");
    reveal_strlit("tokens.txt");
    reveal_strlit("conv_frontend.onnx");
    reveal_strlit("encoder.int8.onnx");
    reveal_strlit("encoder.onnx");
    reveal_strlit("decoder.int8.onnx");
    reveal_strlit("decoder.onnx");
    reveal_strlit("tokenizer");
}

/// The files named in `files` complete a model with these requirement groups: every
/// group has a name among them.
pub open spec fn complete_with(reqs: Seq<Seq<Seq<char>>>, files: Set<Seq<char>>) -> bool {
    forall|g: int| 0 <= g < reqs.len() ==> group_present(#[trigger] reqs[g], files)
}

/// Some name of the group is among `files`.
pub open spec fn group_present(group: Seq<Seq<char>>, files: Set<Seq<char>>) -> bool {
    exists|k: int| 0 <= k < group.len() && files.contains(#[trigger] group[k])
}

/// Which sets of files make each kind of model installed:
/// a single-file model needs `model.onnx`, `model.int8.onnx` or `model_q8.onnx`, and
/// `tokens.txt`; Paraformer needs `model.int8.onnx` or `model.onnx`, and `tokens.txt`;
/// Qwen3-ASR needs `conv_frontend.onnx`, an int8 or plain encoder, an int8 or plain
/// decoder, and `tokenizer`; Silero VAD needs `model.onnx`.
pub proof fn lemma_install_rules(files: Set<Seq<char>>)
    ensures
        complete_with(spec_requirements(InstallKind::SingleModel), files) <==> (
            (files.contains("model.onnx"@) || files.contains("model.int8.onnx"@) || files.contains("model_q8.onnx"@))
            && files.contains("tokens.txt"@)),
        complete_with(spec_requirements(InstallKind::Paraformer), files) <==> (
            (files.contains("model.int8.onnx"@) || files.contains("model.onnx"@)) && files.contains("tokens.txt"@)),
        complete_with(spec_requirements(InstallKind::Qwen3Asr), files) <==> (
            files.contains("conv_frontend.onnx"@)
            && (files.contains("encoder.int8.onnx"@) || files.contains("encoder.onnx"@))
            && (files.contains("decoder.int8.onnx"@) || files.contains("decoder.onnx"@))
            && files.contains("tokenizer"@)),
        complete_with(spec_requirements(InstallKind::SileroVad), files) <==> files.contains("model.onnx"@),
{
    let single = spec_requirements(InstallKind::SingleModel);
    let para = spec_requirements(InstallKind::Paraformer);
    let qwen = spec_requirements(InstallKind::Qwen3Asr);
    let vad = spec_requirements(InstallKind::SileroVad);
    assert(single[0][0] == "model.onnx"@ && single[0][1] == "model.int8.onnx"@ && single[0][2] == "model_q8.onnx"@);
    assert(single[1][0] == "tokens.txt"@);
    assert(para[0][0] == "model.int8.onnx"@ && para[0][1] == "model.onnx"@ && para[1][0] == "tokens.txt"@);
    assert(qwen[0][0] == "conv_frontend.onnx"@ && qwen[3][0] == "tokenizer"@);
    assert(qwen[1][0] == "encoder.int8.onnx"@ && qwen[1][1] == "encoder.onnx"@);
    assert(qwen[2][0] == "decoder.int8.onnx"@ && qwen[2][1] == "decoder.onnx"@);
    assert(vad[0][0] == "model.onnx"@);
}

/// Answers that tell, file by file, whether each required name is among `files` meet
/// the requirements exactly when `files` complete the model.
pub proof fn lemma_requirements_met_by_files(
    reqs: Seq<Seq<Seq<char>>>,
    present: Seq<Seq<bool>>,
    files: Set<Seq<char>>,
)
    requires
        probe_shape(present, reqs),
        forall|g: int, k: int|
            0 <= g < reqs.len() && 0 <= k < reqs[g].len() ==> #[trigger] present[g][k] == files.contains(reqs[g][k]),
    ensures
        spec_requirements_met(present) == complete_with(reqs, files),
{
    if spec_requirements_met(present) {
        assert forall|g: int| 0 <= g < reqs.len() implies group_present(#[trigger] reqs[g], files) by {
            assert(any_true(present[g]));
            let k = choose|k: int| 0 <= k < present[g].len() && present[g][k];
            assert(present[g][k] == files.contains(reqs[g][k]));
        }
    }
    if complete_with(reqs, files) {
        assert forall|g: int| 0 <= g < present.len() implies any_true(#[trigger] present[g]) by {
            assert(group_present(reqs[g], files));
            let k = choose|k: int| 0 <= k < reqs[g].len() && files.contains(#[trigger] reqs[g][k]);
            assert(present[g][k]);
        }
    }
}

/// Every answer is one that asking the disk for the matching required file in `dir`
/// can give.
pub open spec fn answers_probe(dir: Seq<char>, present: Seq<Seq<bool>>, reqs: Seq<Seq<Seq<char>>>) -> bool {
    forall|g: int, k: int|
        0 <= g < present.len() && 0 <= k < present[g].len() ==> #[trigger] joined_answer(dir, reqs[g][k], present[g][k])
}

/// Asks the disk for each required file under `dir`.
fn probe_requirements(dir: &str, kind: InstallKind) -> (r: Vec<Vec<bool>>)
    ensures
        probe_shape(bools_view(r@), spec_requirements(kind)),
        answers_probe(dir@, bools_view(r@), spec_requirements(kind)),
{
    let reqs = install_requirements(kind);
    proof {
        lemma_requirement_names_plain(kind);
    }
    let ghost sreq = spec_requirements(kind);
    let mut r: Vec<Vec<bool>> = Vec::new();
    let mut g: usize = 0;
    while g < reqs.len()
        invariant
            g <= reqs@.len(),
            groups_view(reqs@) == sreq,
            sreq == spec_requirements(kind),
            r@.len() == g,
            forall|q: int| 0 <= q < g ==> (#[trigger] r@[q])@.len() == sreq[q].len(),
            forall|q: int, k: int|
                0 <= q < g && 0 <= k < r@[q]@.len() ==> #[trigger] joined_answer(dir@, sreq[q][k], r@[q]@[k]),
            forall|a: int, k: int|
                0 <= a < sreq.len() && 0 <= k < sreq[a].len() ==> plain_file_name(#[trigger] sreq[a][k]),
        decreases reqs.len() - g,
    {
        let group = &reqs[g];
        assert(strs_view(group@) == sreq[g as int]);
        let mut flags: Vec<bool> = Vec::new();
        let mut k: usize = 0;
        while k < group.len()
            invariant
                k <= group@.len(),
                strs_view(group@) == sreq[g as int],
                g < sreq.len(),
                flags@.len() == k,
                forall|j: int| 0 <= j < k ==> #[trigger] joined_answer(dir@, sreq[g as int][j], flags@[j]),
                forall|a: int, k: int|
                    0 <= a < sreq.len() && 0 <= k < sreq[a].len() ==> plain_file_name(#[trigger] sreq[a][k]),
            decreases group.len() - k,
        {
            assert(sreq[g as int][k as int] == group@[k as int]@);
            let b = probe_file(dir, group[k]);
            flags.push(b);
            assert(flags@[k as int] == b);
            k = k + 1;
        }
        let ghost before = r@;
        r.push(flags);
        assert forall|q: int, k: int|
            0 <= q < g + 1 && 0 <= k < r@[q]@.len() implies #[trigger] joined_answer(dir@, sreq[q][k], r@[q]@[k]) by {
            if q < g {
                assert(r@[q] == before[q]);
            }
        }
        g = g + 1;
    }
    assert forall|q: int| 0 <= q < sreq.len() implies (#[trigger] bools_view(r@)[q]).len() == sreq[q].len() by {
        assert(bools_view(r@)[q] == r@[q]@);
    }
    assert forall|q: int, k: int|
        0 <= q < bools_view(r@).len() && 0 <= k < bools_view(r@)[q].len() implies #[trigger] joined_answer(
        dir@,
        sreq[q][k],
        bools_view(r@)[q][k],
    ) by {
        assert(bools_view(r@)[q] == r@[q]@);
    }
    r
}

/// What an installation check of `dir` may answer: `requirements_met` of answers that
/// asking the disk for each required file under `dir` can give, one per file.
pub open spec fn installed_answer(dir: Seq<char>, kind: InstallKind, r: bool) -> bool {
    exists|present: Seq<Seq<bool>>|
        probe_shape(present, spec_requirements(kind)) && #[trigger] answers_probe(dir, present, spec_requirements(kind))
            && r == spec_requirements_met(present)
}

/// Whether the model directory `dir` holds a complete model of the given kind.
pub fn is_installed_at(dir: &str, kind: InstallKind) -> (r: bool)
    ensures
        installed_answer(dir@, kind, r),
{
    let present = probe_requirements(dir, kind);
    requirements_met(&present)
}

/// Whether a Silero VAD model is installed in `dir`.
pub fn is_silero_vad_installed_at(dir: &str) -> (r: bool)
    ensures
        installed_answer(dir@, InstallKind::SileroVad, r),
{
    is_installed_at(dir, InstallKind::SileroVad)
}

/// Whether a Paraformer model (int8 or plain, with `tokens.txt`) is installed in `dir`.
pub fn is_paraformer_installed_at(dir: &str) -> (r: bool)
    ensures
        installed_answer(dir@, InstallKind::Paraformer, r),
{
    is_installed_at(dir, InstallKind::Paraformer)
}

/// Whether a single-file model with `tokens.txt` is installed in `dir`.
pub fn is_model_installed_at(dir: &str) -> (r: bool)
    ensures
        installed_answer(dir@, InstallKind::SingleModel, r),
{
    is_installed_at(dir, InstallKind::SingleModel)
}

/// Whether a Qwen3-ASR model is installed in `dir`.
pub fn is_qwen3_asr_installed_at(dir: &str) -> (r: bool)
    ensures
        installed_answer(dir@, InstallKind::Qwen3Asr, r),
{
    is_installed_at(dir, InstallKind::Qwen3Asr)
}

// ---------------------------------------------------------------------------
// The model catalog
// ---------------------------------------------------------------------------

/// A downloadable model, as the model list shows it.
pub struct ModelInfo {
    pub name: String,
    pub display_name: String,
    pub size: String,
    pub installed: bool,
    pub path: Option<String>,
}

/// The view of a model entry: name, display name, size, installed, path.
pub open spec fn info_view(m: ModelInfo) -> (Seq<char>, Seq<char>, Seq<char>, bool, Option<Seq<char>>) {
    (m.name@, m.display_name@, m.size@, m.installed, match m.path {
        Some(p) => Some(p@),
        None => None,
    })
}

/// The views of a list of model entries.
pub open spec fn infos_view(v: Seq<ModelInfo>) -> Seq<(Seq<char>, Seq<char>, Seq<char>, bool, Option<Seq<char>>)> {
    v.map_values(|m: ModelInfo| info_view(m))
}

/// The listed models: directory name, display name, approximate size, and how their
/// directory is checked.
pub open spec fn spec_catalog() -> Seq<(Seq<char>, Seq<char>, Seq<char>, InstallKind)> {
    seq![
        ("sense-voice-small"@, "SenseVoice-Small"@, "~230MB (q8)"@, InstallKind::SingleModel),
        ("paraformer"@, "Paraformer (Trilingual)"@, "~233MB (int8)"@, InstallKind::Paraformer),
        ("qwen3-asr"@, "Qwen3-ASR (0.6B)"@, "~450MB (int8)"@, InstallKind::Qwen3Asr),
        ("silero-vad"@, "Silero VAD"@, "~2.7MB"@, InstallKind::SileroVad),
    ]
}

/// The model list for the given directories and installation answers: every model
/// in catalog order, with its directory when it is installed.
pub open spec fn spec_model_list(paths: Seq<Seq<char>>, installed: Seq<bool>) -> Seq<(Seq<char>, Seq<char>, Seq<char>, bool, Option<Seq<char>>)> {
    Seq::new(
        4,
        |k: int|
            (
                spec_catalog()[k].0,
                spec_catalog()[k].1,
                spec_catalog()[k].2,
                installed[k],
                if installed[k] { Some(paths[k]) } else { None },
            ),
    )
}

fn catalog_entry(name: &str, display: &str, size: &str, installed: bool, path: &String) -> (m: ModelInfo)
    ensures
        info_view(m) == (name@, display@, size@, installed, if installed { Some(path@) } else { None::<Seq<char>> }),
{
    ModelInfo {
        name: name.to_owned(),
        display_name: display.to_owned(),
        size: size.to_owned(),
        installed,
        path: if installed { Some(path.clone()) } else { None },
    }
}

/// The model list, given each model's directory and whether it is installed.
pub fn model_list(paths: &Vec<String>, installed: &Vec<bool>) -> (r: Vec<ModelInfo>)
    requires
        paths@.len() == 4,
        installed@.len() == 4,
    ensures
        infos_view(r@) == spec_model_list(strings_view(paths@), installed@),
{
    let mut r: Vec<ModelInfo> = Vec::new();
    r.push(catalog_entry("sense-voice-small", "SenseVoice-Small", "~230MB (q8)", installed[0], &paths[0]));
    r.push(catalog_entry("paraformer", "Paraformer (Trilingual)", "~233MB (int8)", installed[1], &paths[1]));
    r.push(catalog_entry("qwen3-asr", "Qwen3-ASR (0.6B)", "~450MB (int8)", installed[2], &paths[2]));
    r.push(catalog_entry("silero-vad", "Silero VAD", "~2.7MB", installed[3], &paths[3]));
    assert(infos_view(r@) =~= spec_model_list(strings_view(paths@), installed@));
    r
}

/// Entry `k` of the model list for the models directory `dir`, with `p` the model's
/// directory: `p` joins `dir` and the model's name, the installed flag is an answer of
/// the model's installation check of `p`, and the path is given exactly when installed.
pub open spec fn listed_at(dir: Seq<char>, k: int, p: Seq<char>, e: (Seq<char>, Seq<char>, Seq<char>, bool, Option<Seq<char>>)) -> bool {
    &&& joins_to(dir, spec_catalog()[k].0, p)
    &&& installed_answer(p, spec_catalog()[k].3, e.3)
    &&& e.4 == (if e.3 { Some(p) } else { None })
}

/// Manages the models stored under one directory.
pub struct ModelManager {
    models_dir: String,
}

impl View for ModelManager {
    type V = Seq<char>;

    closed spec fn view(&self) -> Seq<char> {
        self.models_dir@
    }
}

impl ModelManager {
    /// A manager for the models under `models_dir`.
    pub fn new(models_dir: String) -> (r: Self)
        ensures
            r@ == models_dir@,
    {
        Self { models_dir }
    }

    /// Every listed model, in catalog order, with whether it is installed and, when it
    /// is, its directory under the models directory.
    pub fn list_models(&self) -> (r: Vec<ModelInfo>)
        ensures
            r@.len() == 4,
            forall|k: int|
                0 <= k < 4 ==> {
                    let e = info_view(#[trigger] r@[k]);
                    &&& e.0 == spec_catalog()[k].0
                    &&& e.1 == spec_catalog()[k].1
                    &&& e.2 == spec_catalog()[k].2
                    &&& exists|p: Seq<char>| #[trigger] listed_at(self@, k, p, e)
                },
    {
        proof {
            reveal_strlit("sense-voice-small");
            reveal_strlit("paraformer");
            reveal_strlit("qwen3-asr");
            reveal_strlit("silero-vad");
        }
        let dir = self.models_dir.as_str();
        let mut paths: Vec<String> = Vec::new();
        paths.push(path_join(dir, "sense-voice-small"));
        paths.push(path_join(dir, "paraformer"));
        paths.push(path_join(dir, "qwen3-asr"));
        paths.push(path_join(dir, "silero-vad"));
        let a0 = is_model_installed_at(paths[0].as_str());
        let a1 = is_paraformer_installed_at(paths[1].as_str());
        let a2 = is_qwen3_asr_installed_at(paths[2].as_str());
        let a3 = is_silero_vad_installed_at(paths[3].as_str());
        let mut installed: Vec<bool> = Vec::new();
        installed.push(a0);
        installed.push(a1);
        installed.push(a2);
        installed.push(a3);
        let r = model_list(&paths, &installed);
        assert(infos_view(r@).len() == 4);
        assert(r@.len() == 4);
        assert forall|k: int| 0 <= k < 4 implies {
            let e = info_view(#[trigger] r@[k]);
            &&& e.0 == spec_catalog()[k].0
            &&& e.1 == spec_catalog()[k].1
            &&& e.2 == spec_catalog()[k].2
            &&& exists|p: Seq<char>| #[trigger] listed_at(self@, k, p, e)
        } by {
            assert(infos_view(r@)[k] == info_view(r@[k]));
            assert(strings_view(paths@)[k] == paths@[k]@);
            assert(installed@[k] == [a0, a1, a2, a3]@[k]) by {
                assert(installed@ =~= seq![a0, a1, a2, a3]);
            }
            assert(listed_at(self@, k, paths@[k]@, info_view(r@[k])));
        }
        r
    }
}

} // verus!
