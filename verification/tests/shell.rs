use velocitext::pipeline::{decode_percent, find_gaps, GAP_MIN_SAMPLES, is_meaningful_text, segment_long_enough, VadTracker, STALE_RESET_SAMPLES, VAD_WINDOW};
use velocitext::shell::{
    close_action, crash_recovery_model, first_line_or, navigation_decision, toast_html, CloseAction, Navigation,
    TOAST_HEAD, TOAST_TAIL,
};

use tempfile::{Builder, NamedTempFile, TempDir};

fn dir_in(dir: &std::path::Path, name: &str) -> TempDir {
    Builder::new().prefix(name).rand_bytes(0).tempdir_in(dir).unwrap()
}

fn file_in(dir: &std::path::Path, name: &str) -> NamedTempFile {
    Builder::new().prefix(name).rand_bytes(0).tempfile_in(dir).unwrap()
}

#[test]
fn navigation_keeps_app_pages_and_opens_web_links() {
    assert_eq!(navigation_decision("tauri", Some("localhost")), Navigation::Stay);
    assert_eq!(navigation_decision("http", Some("localhost")), Navigation::Stay);
    assert_eq!(navigation_decision("http", Some("tauri.localhost")), Navigation::Stay);
    assert_eq!(navigation_decision("https", Some("127.0.0.1")), Navigation::Stay);
    assert_eq!(navigation_decision("https", Some("github.com")), Navigation::OpenInBrowser);
    assert_eq!(navigation_decision("http", Some("example.org")), Navigation::OpenInBrowser);
    assert_eq!(navigation_decision("mailto", None), Navigation::OpenInBrowser);
    assert_eq!(navigation_decision("tel", None), Navigation::OpenInBrowser);
    assert_eq!(navigation_decision("file", None), Navigation::Stay);
    assert_eq!(navigation_decision("data", None), Navigation::Stay);
}

#[test]
fn close_action_follows_setting() {
    assert_eq!(close_action("exit"), CloseAction::Exit);
    assert_eq!(close_action("minimize"), CloseAction::HideToTray);
    assert_eq!(close_action(""), CloseAction::HideToTray);
    assert_eq!(close_action("Exit"), CloseAction::HideToTray);
}

#[test]
fn first_line_of_version_output() {
    assert_eq!(first_line_or("ffmpeg version 6.1\nbuilt with gcc", "unknown"), "ffmpeg version 6.1");
    assert_eq!(first_line_or("ffmpeg version 7.0\r\nconfiguration", "unknown"), "ffmpeg version 7.0");
    assert_eq!(first_line_or("single line", "unknown"), "single line");
    assert_eq!(first_line_or("", "unknown"), "unknown");
    assert_eq!(first_line_or("\nsecond", "unknown"), "");
}

#[test]
fn toast_page_wraps_message() {
    let page = toast_html("已复制到剪贴板");
    assert!(page.starts_with("<!DOCTYPE html>"));
    assert!(page.ends_with("</div></body></html>"));
    assert_eq!(page, format!("{}{}{}", TOAST_HEAD, "已复制到剪贴板", TOAST_TAIL));
    assert!(page.contains("<div class=\"toast\">已复制到剪贴板</div>"));
}

#[test]
fn crash_recovery_picks_first_installed_fallback() {
    let d = tempfile::tempdir().unwrap();
    let p = d.path();
    let s = p.to_str().unwrap();
    assert_eq!(crash_recovery_model(s, "sense-voice-small"), None);

    let para = dir_in(p, "paraformer");
    let _m = file_in(para.path(), "model.onnx");
    let _t = file_in(para.path(), "tokens.txt");
    assert_eq!(crash_recovery_model(s, "sense-voice-small"), Some("paraformer"));
    assert_eq!(crash_recovery_model(s, "paraformer"), None);

    let svs = dir_in(p, "sense-voice-small");
    let _q = file_in(svs.path(), "model_q8.onnx");
    let _k = file_in(svs.path(), "tokens.txt");
    assert_eq!(crash_recovery_model(s, "paraformer"), Some("sense-voice-small"));
    assert_eq!(crash_recovery_model(s, "qwen3-asr"), Some("sense-voice-small"));
    // A crashed SenseVoice is not tried again: the other installed model is chosen.
    assert_eq!(crash_recovery_model(s, "sense-voice-small"), Some("paraformer"));
}

#[test]
fn vad_tracker_counts_and_resets() {
    let mut t = VadTracker::new();
    assert_eq!(t.samples_fed(), 0);
    assert_eq!(t.reset_at(), 0);
    assert_eq!(t.absolute_start(100), 100);
    assert_eq!(t.absolute_start(-5), 0);
    let windows = STALE_RESET_SAMPLES / VAD_WINDOW;
    for _ in 0..windows {
        t.window_fed();
        assert!(!t.after_window(false, true));
    }
    t.window_fed();
    assert!(!t.after_window(true, true));
    for _ in 0..=windows {
        t.window_fed();
    }
    assert!(!t.after_window(false, false));
    assert!(t.after_window(false, true));
    let fed = (2 * windows + 2) * VAD_WINDOW;
    assert_eq!(t.samples_fed(), fed);
    assert_eq!(t.reset_at(), fed);
    assert_eq!(t.absolute_start(10), fed + 10);
    assert!(!t.after_window(false, true));
    t.segment_taken();
    assert_eq!(t.absolute_start(0), fed);
}

#[test]
fn segment_length_threshold() {
    assert!(!segment_long_enough(0));
    assert!(!segment_long_enough(1599));
    assert!(segment_long_enough(1600));
    assert!(segment_long_enough(16000));
}

#[test]
fn meaningful_text_filter() {
    assert!(is_meaningful_text("你好"));
    assert!(is_meaningful_text("  hello. "));
    assert!(is_meaningful_text("。"));
    assert!(!is_meaningful_text(""));
    assert!(!is_meaningful_text("   "));
    assert!(!is_meaningful_text(" ... !? "));
    assert!(!is_meaningful_text("-"));
}

#[test]
fn gaps_between_speech_are_found() {
    assert_eq!(find_gaps(&vec![], 0), vec![]);
    assert_eq!(find_gaps(&vec![], 100_000), vec![(0, 100_000)]);
    assert_eq!(find_gaps(&vec![], GAP_MIN_SAMPLES), vec![]);
    let segs = vec![(16_000, 32_000), (40_000, 100_000), (200_000, 210_000)];
    assert_eq!(find_gaps(&segs, 230_000), vec![(100_000, 200_000)]);
    assert_eq!(find_gaps(&segs, 300_000), vec![(100_000, 200_000), (210_000, 300_000)]);
    // A segment that ends before an earlier one does not shorten the covered stretch.
    let nested = vec![(0, 150_000), (10_000, 20_000), (250_000, 260_000)];
    assert_eq!(find_gaps(&nested, 260_000), vec![(150_000, 250_000)]);
    // Exactly the minimum is not a gap.
    assert_eq!(find_gaps(&vec![(GAP_MIN_SAMPLES, GAP_MIN_SAMPLES + 10)], GAP_MIN_SAMPLES + 10), vec![]);
}

#[test]
fn decode_progress_percent() {
    assert_eq!(decode_percent(0, 1000), 0);
    assert_eq!(decode_percent(333, 1000), 33);
    assert_eq!(decode_percent(999, 1000), 99);
    assert_eq!(decode_percent(1000, 1000), 99);
    assert_eq!(decode_percent(5000, 1000), 99);
    assert_eq!(decode_percent(u64::MAX, u64::MAX), 99);
    assert_eq!(decode_percent(u64::MAX / 2, u64::MAX), 49);
}
