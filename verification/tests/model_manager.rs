use velocitext::model_manager::{
    is_model_installed_at, is_paraformer_installed_at, is_qwen3_asr_installed_at, is_silero_vad_installed_at,
    requirements_met, ModelManager,
};

use tempfile::{Builder, NamedTempFile, TempDir};

fn file_in(dir: &std::path::Path, name: &str) -> NamedTempFile {
    Builder::new().prefix(name).rand_bytes(0).tempfile_in(dir).unwrap()
}

fn dir_in(dir: &std::path::Path, name: &str) -> TempDir {
    Builder::new().prefix(name).rand_bytes(0).tempdir_in(dir).unwrap()
}

#[test]
fn installed_checks_follow_required_files() {
    let d = tempfile::tempdir().unwrap();
    let p = d.path();
    let s = p.to_str().unwrap();
    assert!(!is_model_installed_at(s));
    let _a = file_in(p, "model_q8.onnx");
    assert!(!is_model_installed_at(s));
    let _b = file_in(p, "tokens.txt");
    assert!(is_model_installed_at(s));
    assert!(!is_paraformer_installed_at(s));
    let _c = file_in(p, "model.onnx");
    assert!(is_paraformer_installed_at(s));
    assert!(is_silero_vad_installed_at(s));
    assert!(!is_qwen3_asr_installed_at(s));
    let _d = file_in(p, "conv_frontend.onnx");
    let _e = file_in(p, "encoder.int8.onnx");
    let _f = file_in(p, "decoder.onnx");
    assert!(!is_qwen3_asr_installed_at(s));
    let _g = dir_in(p, "tokenizer");
    assert!(is_qwen3_asr_installed_at(s));
}

#[test]
fn requirements_met_needs_every_group() {
    assert!(requirements_met(&vec![vec![false, true], vec![true]]));
    assert!(!requirements_met(&vec![vec![false, false], vec![true]]));
    assert!(requirements_met(&vec![]));
}

#[test]
fn list_models_reports_catalog() {
    let d = tempfile::tempdir().unwrap();
    let p = d.path();
    let vad = dir_in(p, "silero-vad");
    let _m = file_in(vad.path(), "model.onnx");
    let m = ModelManager::new(p.to_str().unwrap().to_string());
    let list = m.list_models();
    let names: Vec<&str> = list.iter().map(|m| m.name.as_str()).collect();
    assert_eq!(names, vec!["sense-voice-small", "paraformer", "qwen3-asr", "silero-vad"]);
    assert_eq!(list[1].display_name, "Paraformer (Trilingual)");
    assert_eq!(list[3].size, "~2.7MB");
    assert!(!list[0].installed && list[0].path.is_none());
    assert!(list[3].installed);
    assert_eq!(list[3].path.as_deref(), Some(p.join("silero-vad").to_str().unwrap()));
}

#[test]
fn installed_checks_look_inside_the_directory() {
    let d = tempfile::tempdir().unwrap();
    let p = d.path();
    let inner = dir_in(p, "m");
    let s = inner.path().to_str().unwrap().to_string();
    let _x = file_in(p, "m_model.onnx");
    let _y = file_in(p, "m_tokens.txt");
    let _z = file_in(p, "mmodel.onnx");
    let _w = file_in(p, "mtokens.txt");
    assert!(!is_model_installed_at(&s));
    let _a = file_in(inner.path(), "model.onnx");
    let _b = file_in(inner.path(), "tokens.txt");
    assert!(is_model_installed_at(&s));
    let with_sep = format!("{}{}", s, std::path::MAIN_SEPARATOR);
    assert!(is_model_installed_at(&with_sep));
}
