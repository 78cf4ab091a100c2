use tempfile::Builder;
use velocitext::errors::AppError;
use velocitext::models::{
    choose_model_type, locate_model_files, pick_fallback_model, qwen3_language_name, Language, ModelChoiceError,
    ModelType, RecognizerFactory,
};

#[test]
fn test_model_type_dir_names() {
    assert_eq!(ModelType::SenseVoice.dir_name(), "sense-voice-small");
    assert_eq!(ModelType::Paraformer.dir_name(), "paraformer");
    assert_eq!(ModelType::ZipformerCtc.dir_name(), "zipformer-ctc");
    assert_eq!(ModelType::Transducer.dir_name(), "transducer");
}

#[test]
fn test_model_type_display_names() {
    assert_eq!(ModelType::SenseVoice.display_name(), "SenseVoice-Small");
    assert_eq!(ModelType::Paraformer.display_name(), "Paraformer");
}

#[test]
fn model_file_candidates_by_kind() {
    assert_eq!(ModelType::SenseVoice.model_file_candidates(), vec!["model.onnx", "model.int8.onnx", "model_q8.onnx"]);
    assert_eq!(ModelType::Transducer.model_file_candidates(), vec!["encoder.onnx", "decoder.onnx", "joiner.onnx"]);
    assert_eq!(ModelType::ZipformerCtc.model_file_candidates(), vec!["model.onnx", "model.int8.onnx"]);
}

#[test]
fn from_dir_name_inverts_dir_name() {
    for t in [ModelType::SenseVoice, ModelType::Paraformer, ModelType::ZipformerCtc, ModelType::Transducer] {
        assert_eq!(ModelType::from_dir_name(t.dir_name()), Some(t));
    }
    assert_eq!(ModelType::from_dir_name("qwen3-asr"), None);
}

fn names(v: &[&str]) -> Vec<String> {
    v.iter().map(|s| s.to_string()).collect()
}

#[test]
fn choose_prefers_available_preferred_model() {
    let avail = names(&["sense-voice-small", "paraformer"]);
    assert_eq!(choose_model_type(&avail, Some("paraformer")), Ok(ModelType::Paraformer));
    assert_eq!(choose_model_type(&avail, None), Ok(ModelType::SenseVoice));
    // preferred but not available: automatic choice
    assert_eq!(choose_model_type(&names(&["paraformer"]), Some("sense-voice-small")), Ok(ModelType::Paraformer));
    // only kinds that are never picked automatically
    assert_eq!(choose_model_type(&names(&["transducer"]), None), Err(ModelChoiceError::NoModelFound));
    assert_eq!(choose_model_type(&names(&["transducer"]), Some("transducer")), Ok(ModelType::Transducer));
}

#[test]
fn fallback_skips_failed_model() {
    let avail = names(&["sense-voice-small", "paraformer"]);
    assert_eq!(pick_fallback_model(&ModelType::SenseVoice, &avail), Some(ModelType::Paraformer));
    assert_eq!(pick_fallback_model(&ModelType::Paraformer, &avail), Some(ModelType::SenseVoice));
    assert_eq!(pick_fallback_model(&ModelType::SenseVoice, &names(&["sense-voice-small"])), None);
}

#[test]
fn qwen3_language_names() {
    assert_eq!(qwen3_language_name("en"), Some("English"));
    assert_eq!(qwen3_language_name("yue"), Some("Cantonese"));
    assert_eq!(qwen3_language_name("nl"), Some("Dutch"));
    assert_eq!(qwen3_language_name("auto"), None);
}

#[test]
fn supported_languages_and_lookup() {
    let langs = Language::supported();
    assert_eq!(langs.len(), 5);
    assert_eq!(langs[0].code, "zh");
    assert_eq!(langs[4].name, "한국어");
    let ja = Language::from_code("ja").unwrap();
    assert_eq!(ja.name, "日本語");
    assert!(Language::from_code("fr").is_none());
}

#[test]
fn list_available_scans_model_dirs() {
    let base = tempfile::tempdir().unwrap();
    let b = base.path();
    let mk = |d: &std::path::Path, n: &str| tempfile::Builder::new().prefix(n).rand_bytes(0).tempdir_in(d).unwrap();
    let para = mk(b, "paraformer");
    let _m = tempfile::Builder::new().prefix("model.int8.onnx").rand_bytes(0).tempfile_in(para.path()).unwrap();
    let _t = mk(b, "transducer");
    let _s = mk(b, "sense-voice-small");
    let found = RecognizerFactory::list_available(b.to_str().unwrap());
    assert_eq!(found, vec!["paraformer".to_string()]);
    assert!(RecognizerFactory::list_available(b.join("missing").to_str().unwrap()).is_empty());
}

#[test]
fn locate_model_files_finds_first_candidate_and_tokens() {
    let d = tempfile::tempdir().unwrap();
    let p = d.path();
    let s = p.to_str().unwrap();
    match locate_model_files(s, &ModelType::Paraformer) {
        Err(AppError::ModelLoad(m)) => assert_eq!(m, format!("Paraformer model file not found in: {s}")),
        _ => panic!("expected a missing model file"),
    }
    let _int8 = Builder::new().prefix("model.int8.onnx").rand_bytes(0).tempfile_in(p).unwrap();
    match locate_model_files(s, &ModelType::Paraformer) {
        Err(AppError::ModelLoad(m)) => assert_eq!(m, format!("tokens.txt not found in: {s}")),
        _ => panic!("expected missing tokens"),
    }
    let _tokens = Builder::new().prefix("tokens.txt").rand_bytes(0).tempfile_in(p).unwrap();
    let (model, tokens) = match locate_model_files(s, &ModelType::Paraformer) {
        Ok(found) => found,
        Err(_) => panic!("expected the model files"),
    };
    assert_eq!(model, p.join("model.int8.onnx").to_str().unwrap());
    assert_eq!(tokens, p.join("tokens.txt").to_str().unwrap());
    let _plain = Builder::new().prefix("model.onnx").rand_bytes(0).tempfile_in(p).unwrap();
    let (model, _) = match locate_model_files(s, &ModelType::Paraformer) {
        Ok(found) => found,
        Err(_) => panic!("expected the model files"),
    };
    assert_eq!(model, p.join("model.onnx").to_str().unwrap());
}

#[test]
fn language_lookup_finds_each_supported_code() {
    for l in Language::supported() {
        let found = Language::from_code(&l.code).unwrap();
        assert_eq!((found.code, found.name), (l.code.clone(), l.name.clone()));
    }
    assert!(Language::from_code("fr").is_none());
    assert!(Language::from_code("ZH").is_none());
}
