use velocitext::config::{default_active_model, default_active_ocr_model, AppConfig};
use velocitext::dictionary::{apply_replacements, convert_json_tokens, corrected_dict_content, is_json_token_list};
use velocitext::downloads::{
    active_model_kind, crash_fallbacks, download_target, fallback_kind, http_status_ok, is_valid_ocr_model,
    keep_existing_file, keep_paraformer_install, paraformer_entry_target, qwen3_entry_target, DownloadTarget,
};
use velocitext::errors::AppError;
use velocitext::ffmpeg_output::{
    conversion_outcome, duration_field, parse_out_time_line, parse_u64, push_tail_line, ConversionOutcome, ProgressLine,
};
use velocitext::pipeline::start_order;
use velocitext::formats::{find_audio_format, get_audio_formats, is_supported_format, path_eq_ignore_case};
use velocitext::history::{kept_after_delete, kept_after_save, MAX_HISTORY};
use velocitext::lifecycle::{
    check_recognition_start, check_settings_change, ensure_action, finished_status, immediate_status,
    num_threads_valid, release_due, EnsureAction, SettingsRefusal, INIT_ERROR, INIT_PENDING, INIT_READY,
    INIT_RELEASED,
};
use velocitext::media::{convert_rgba_to_rgb, monitor_bounds, wav_header, MonitorRect, RangeCollector};
use velocitext::model_manager::InstallKind;
use velocitext::models::ReplacementEntry;
use velocitext::progress::ProgressTracker;

#[test]
fn progress_tracker_clamps_and_shares() {
    let t = ProgressTracker::new();
    assert_eq!(t.progress(), 0);
    let u = t.clone();
    u.set_progress(250);
    assert_eq!(t.progress(), 100);
    t.set_progress(42);
    assert_eq!(u.progress(), 42);
    assert!(!t.is_cancelled());
    u.cancel();
    assert!(t.is_cancelled());
    assert_eq!(ProgressTracker::default().progress(), 0);
}

#[test]
fn supported_formats_by_extension() {
    assert!(is_supported_format("/music/Song.MP3"));
    assert!(is_supported_format("clip.webm"));
    assert!(!is_supported_format("notes.txt"));
    assert!(!is_supported_format("noextension"));
    assert!(!is_supported_format(".mp3"));
    assert!(is_supported_format("clip.MKV"));
    assert!(is_supported_format("C:\\music\\a.mp3"));
    assert!(is_supported_format("C:\\music\\Track.Flac"));
    assert!(!is_supported_format("C:\\music\\notes.txt"));
    assert!(!is_supported_format("mp3"));
    assert!(is_supported_format("会议.mp3"));
    assert!(is_supported_format("/home/张三/录音.MP3"));
    assert!(is_supported_format("my clip.mkv"));
    assert!(!is_supported_format("会议记录.docx"));
    assert!(is_supported_format("D:\\录音\\会议 1.wav"));
}

#[test]
fn audio_format_table() {
    assert_eq!(get_audio_formats(), vec!["mp3", "wav", "flac", "m4a", "ogg", "opus", "wma"]);
    let f = find_audio_format("m4a").unwrap();
    assert_eq!(f.extension, "m4a");
    assert_eq!(f.encoder_args, vec!["-c:a", "aac", "-b:a", "192k"]);
    assert!(find_audio_format("MP3").is_none());
}

#[test]
fn path_equality_modes() {
    assert!(path_eq_ignore_case("C:/A.mp3", "c:/a.MP3", true));
    assert!(!path_eq_ignore_case("C:/A.mp3", "c:/a.MP3", false));
    assert!(path_eq_ignore_case("/x/y.wav", "/x/y.wav", false));
}

#[test]
fn replacements_apply_in_order() {
    let reps = vec![
        ReplacementEntry { original: "ab".into(), replacement: "b".into() },
        ReplacementEntry { original: "bb".into(), replacement: "c".into() },
    ];
    assert_eq!(apply_replacements(&reps, "abb ab"), "c b");
    assert_eq!(apply_replacements(&[], "same"), "same");
    let overlapping = vec![ReplacementEntry { original: "aa".into(), replacement: "b".into() }];
    assert_eq!(apply_replacements(&overlapping, "aaa"), "ba");
    let empty = vec![ReplacementEntry { original: "".into(), replacement: "-".into() }];
    assert_eq!(apply_replacements(&empty, "ab"), "-a-b-");
}

#[test]
fn json_tokens_are_converted() {
    assert!(is_json_token_list("  [\"a\"]"));
    assert!(!is_json_token_list("a 0\n"));
    assert_eq!(convert_json_tokens(" [\"<blk>\", \"你\", \"b\"]").unwrap(), "<blk> 0\n你 1\nb 2\n");
    assert!(convert_json_tokens("[1, 2]").is_none());
    assert!(convert_json_tokens("a 0").is_none());
}

#[test]
fn ocr_dictionary_correction() {
    assert_eq!(corrected_dict_content("a\nb\n"), "#\na\nb\n \n");
    assert_eq!(corrected_dict_content("a\nb"), "#\na\nb\n \n");
    assert_eq!(corrected_dict_content(""), "#\n\n \n");
}

#[test]
fn download_decisions() {
    assert_eq!(download_target("qwen3-asr"), Some(DownloadTarget::Qwen3Asr));
    assert_eq!(download_target("whisper"), None);
    assert_eq!(active_model_kind("paraformer"), Some(InstallKind::Paraformer));
    assert_eq!(active_model_kind("silero-vad"), None);
    assert_eq!(crash_fallbacks("paraformer"), vec!["sense-voice-small", "qwen3-asr", "qwen3-asr-1.7b"]);
    assert_eq!(crash_fallbacks("other"), vec!["sense-voice-small", "paraformer", "qwen3-asr", "qwen3-asr-1.7b"]);
    assert_eq!(crash_fallbacks("sense-voice-small"), vec!["paraformer", "qwen3-asr", "qwen3-asr-1.7b"]);
    assert!(keep_paraformer_install(Some("tok 0\n"), Some(60_000_000)));
    assert!(!keep_paraformer_install(Some("  [\"a\"]"), Some(60_000_000)));
    assert!(!keep_paraformer_install(None, Some(60_000_000)));
    assert!(!keep_paraformer_install(Some("tok 0\n"), Some(50_000_000)));
    assert!(!keep_paraformer_install(Some("tok 0\n"), None));
    assert_eq!(fallback_kind("qwen3-asr-1.7b"), InstallKind::Qwen3Asr);
    assert_eq!(fallback_kind("sense-voice-small"), InstallKind::SingleModel);
    assert!(is_valid_ocr_model("ppocr-v6"));
    assert!(!is_valid_ocr_model("ppocr-v7"));
    assert!(keep_existing_file(true, 200 * 1024 * 1024, 228));
    assert!(!keep_existing_file(true, 100 * 1024 * 1024, 228));
    assert!(!keep_existing_file(true, 10, 0));
    assert!(http_status_ok(204) && !http_status_ok(404) && !http_status_ok(199));
}

#[test]
fn archive_entry_targets() {
    assert_eq!(paraformer_entry_target("pkg/model.int8.onnx").as_deref(), Some("model.int8.onnx"));
    assert_eq!(paraformer_entry_target("pkg/model.onnx"), None);
    assert_eq!(qwen3_entry_target("x/tokenizer/vocab.json").as_deref(), Some("tokenizer/vocab.json"));
    assert_eq!(qwen3_entry_target("x/encoder.int8.onnx").as_deref(), Some("encoder.int8.onnx"));
    assert_eq!(qwen3_entry_target("x/readme.md"), None);
}

#[test]
fn ffmpeg_progress_lines() {
    assert!(matches!(parse_out_time_line("out_time_us=1234567"), ProgressLine::Micros(Some(1234567))));
    assert!(matches!(parse_out_time_line("out_time_us=N/A"), ProgressLine::Micros(None)));
    match parse_out_time_line("out_time= 00:00:01.50 ") {
        ProgressLine::Clock(c) => assert_eq!(c, "00:00:01.50"),
        _ => panic!("expected clock"),
    }
    assert!(matches!(parse_out_time_line("frame=10"), ProgressLine::Other));
    assert_eq!(duration_field("  Duration: 00:03:45.23, start: 0.0").as_deref(), Some("00:03:45.23"));
    assert_eq!(duration_field("no duration here"), None);
    assert_eq!(parse_u64("+42"), Some(42));
    assert_eq!(parse_u64("18446744073709551615"), Some(u64::MAX));
    assert_eq!(parse_u64("18446744073709551616"), None);
    assert_eq!(parse_u64(""), None);
    assert_eq!(parse_u64("-1"), None);
}

#[test]
fn history_plans() {
    let ids: Vec<String> = ["a", "b", "a", "c"].iter().map(|s| s.to_string()).collect();
    assert_eq!(kept_after_save(&ids, "a"), vec![1, 3]);
    assert_eq!(kept_after_delete(&ids, "c"), vec![0, 1, 2]);
    let many: Vec<String> = (0..150).map(|i| i.to_string()).collect();
    let kept = kept_after_save(&many, "new");
    assert_eq!(kept.len(), MAX_HISTORY - 1);
    assert_eq!(kept[0], 0);
}

#[test]
fn lifecycle_decisions() {
    assert_eq!(ensure_action(INIT_READY), EnsureAction::ReportReady);
    assert_eq!(ensure_action(INIT_PENDING), EnsureAction::ReportPending);
    assert_eq!(ensure_action(INIT_ERROR), EnsureAction::Load);
    assert_eq!(ensure_action(INIT_RELEASED), EnsureAction::Load);
    let s = immediate_status(EnsureAction::ReportReady, 4).unwrap();
    assert_eq!((s.status, s.num_threads), (INIT_READY, 4));
    assert!(immediate_status(EnsureAction::Load, 4).is_none());
    let err = "boom".to_string();
    assert!(check_recognition_start(false, INIT_READY, &err).is_ok());
    assert_eq!(check_recognition_start(true, INIT_READY, &err).err().unwrap().message(), "Recognition is already running");
    assert_eq!(check_recognition_start(false, INIT_ERROR, &err).err().unwrap().message(), "Initialization failed: boom");
    assert_eq!(
        check_recognition_start(false, INIT_RELEASED, &err).err().unwrap().message(),
        "Models have been released. Please wait for them to reload."
    );
    assert!(release_due(5, 5, false, INIT_READY));
    assert!(!release_due(6, 5, false, INIT_READY));
    assert!(!release_due(5, 5, true, INIT_READY));
    assert!(!release_due(5, 5, false, INIT_RELEASED));
    assert_eq!(finished_status(true, false, ""), ("done".to_string(), true));
    assert_eq!(finished_status(true, true, ""), ("cancelled".to_string(), false));
    assert_eq!(finished_status(false, false, "bad"), ("error: bad".to_string(), false));
    assert_eq!(check_settings_change(true, INIT_READY), Err(SettingsRefusal::Running));
    assert_eq!(check_settings_change(false, INIT_PENDING), Err(SettingsRefusal::StillLoading));
    assert_eq!(check_settings_change(false, INIT_ERROR), Ok(()));
    assert!(num_threads_valid(1) && num_threads_valid(16) && !num_threads_valid(0) && !num_threads_valid(17));
}

#[test]
fn pixels_and_wav_header() {
    assert_eq!(convert_rgba_to_rgb(&[1, 2, 3, 255, 4, 5, 6, 0]), vec![1, 2, 3, 4, 5, 6]);
    let h = wav_header(3);
    assert_eq!(h.len(), 44);
    assert_eq!(&h[0..4], b"RIFF");
    assert_eq!(&h[4..8], &42u32.to_le_bytes());
    assert_eq!(&h[24..28], &16000u32.to_le_bytes());
    assert_eq!(&h[36..40], b"data");
    assert_eq!(&h[40..44], &6u32.to_le_bytes());
}

#[test]
fn monitors_bounding_box() {
    assert!(monitor_bounds(&vec![]).is_none());
    let ms = vec![
        MonitorRect { x: 0, y: 0, width: 1920, height: 1080 },
        MonitorRect { x: -1280, y: 200, width: 1280, height: 1024 },
    ];
    let b = monitor_bounds(&ms).unwrap();
    assert_eq!((b.min_x, b.min_y, b.max_x, b.max_y, b.width, b.height), (-1280, 0, 1920, 1224, 3200, 1224));
}

#[test]
fn range_collector_cuts_window() {
    let mut c = RangeCollector::new(3, 8);
    c.feed(&[0, 1, 2]);
    assert!(!c.is_done());
    c.feed(&[3, 4, 5, 6]);
    c.feed(&[7, 8, 9]);
    assert!(c.is_done());
    assert_eq!(c.finish(), vec![3, 4, 5, 6, 7]);
    let mut d: RangeCollector<u8> = RangeCollector::new(10, 20);
    d.feed(&[1, 2]);
    assert!(d.finish().is_empty());
}

#[test]
fn config_defaults() {
    assert_eq!(default_active_model(), "sense-voice-small");
    assert_eq!(default_active_ocr_model(), "ppocr-v5");
    let c = AppConfig::with_model_path("/m".into());
    assert_eq!(c.model_path, "/m");
    assert_eq!(c.default_language, "zh");
    assert!(c.use_vad && !c.sidebar_collapsed && c.ffmpeg_path.is_none());
}

#[test]
fn error_messages() {
    assert_eq!(AppError::ModelLoad("x".into()).message(), "模型加载失败: x");
    assert_eq!(AppError::FfmpegNotFound.message(), "FFmpeg 未找到，请安装 FFmpeg 并确保其在 PATH 中");
}

#[test]
fn start_order_is_stable_by_start() {
    assert_eq!(start_order(&vec![5, 1, 5, 0]), vec![3, 1, 0, 2]);
    assert_eq!(start_order(&vec![]), Vec::<usize>::new());
    assert_eq!(start_order(&vec![2, 2, 2]), vec![0, 1, 2]);
    assert_eq!(start_order(&vec![9, 8, 7]), vec![2, 1, 0]);
}

#[test]
fn stderr_tail_keeps_last_thirty_lines() {
    let mut tail: Vec<String> = Vec::new();
    for i in 0..35 {
        push_tail_line(&mut tail, format!("line {i}"));
    }
    assert_eq!(tail.len(), 30);
    assert_eq!(tail[0], "line 5");
    assert_eq!(tail[29], "line 34");
    let mut short = vec!["a".to_string()];
    push_tail_line(&mut short, "b".to_string());
    assert_eq!(short, vec!["a".to_string(), "b".to_string()]);
}

#[test]
fn conversion_outcomes() {
    let tail = vec!["first".to_string(), "second".to_string()];
    match conversion_outcome(true, true, Some(0), &tail, "/tmp/out.mp3") {
        ConversionOutcome::Done(p) => assert_eq!(p, "/tmp/out.mp3"),
        _ => panic!("expected success"),
    }
    match conversion_outcome(false, true, Some(255), &tail, "/tmp/out.mp3") {
        ConversionOutcome::Cancelled(m) => assert_eq!(m, "cancelled"),
        _ => panic!("expected cancellation"),
    }
    match conversion_outcome(false, false, Some(1), &tail, "/tmp/out.mp3") {
        ConversionOutcome::Failed(m) => assert_eq!(m, "FFmpeg failed (exit code 1):\nfirst\nsecond"),
        _ => panic!("expected failure"),
    }
    match conversion_outcome(false, false, None, &Vec::new(), "/tmp/out.mp3") {
        ConversionOutcome::Failed(m) => assert_eq!(m, "FFmpeg failed (exit code -1):\n"),
        _ => panic!("expected failure"),
    }
    match conversion_outcome(false, false, Some(-22), &vec!["x".to_string()], "o") {
        ConversionOutcome::Failed(m) => assert_eq!(m, "FFmpeg failed (exit code -22):\nx"),
        _ => panic!("expected failure"),
    }
}
