use velocitext::export::{split_into_sentences, ExportManager, TranscribeSegment};

fn seg(start: u64, end: u64, text: &str) -> TranscribeSegment {
    TranscribeSegment { start, end, text: text.to_string() }
}

#[test]
fn test_srt_time_format() {
    assert_eq!(ExportManager::format_srt_time(0), "00:00:00,000");
    assert_eq!(ExportManager::format_srt_time(3_661_500), "01:01:01,500");
}

#[test]
fn test_vtt_time_format() {
    assert_eq!(ExportManager::format_vtt_time(0), "00:00:00.000");
}

#[test]
fn test_export_txt() {
    let segments = vec![seg(1500, 2500, "你好"), seg(3000, 5000, "世界")];
    let txt = ExportManager::to_txt(&segments);
    assert!(txt.contains("[00:01.50] 你好"));
    assert!(txt.contains("[00:03.00] 世界"));
}

#[test]
fn test_export_srt() {
    let segments = vec![seg(0, 1500, "你好世界")];
    let srt = ExportManager::to_srt(&segments);
    assert!(srt.contains("00:00:00,000 --> 00:00:01,500"));
    assert!(srt.contains("你好世界"));
}

#[test]
fn test_split_by_sentence_chinese() {
    let segments = vec![seg(0, 10_000, "今天天气很好。我们一起去公园吧！好吗？")];
    let split = split_into_sentences(&segments);
    assert_eq!(split.len(), 3);
    assert_eq!(split[0].text, "今天天气很好。");
    assert_eq!(split[1].text, "我们一起去公园吧！");
    assert_eq!(split[2].text, "好吗？");
    assert_eq!(split[0].start, 0);
    assert_eq!(split[2].end, 10_000);
    assert_eq!(split[0].end, split[1].start);
    assert_eq!(split[1].end, split[2].start);
}

#[test]
fn test_split_by_sentence_english() {
    let segments = vec![seg(5000, 15_000, "Hello world. This is a test! The price is 3.14 dollars.")];
    let split = split_into_sentences(&segments);
    assert_eq!(split.len(), 3);
    assert_eq!(split[0].text, "Hello world.");
    assert_eq!(split[1].text, "This is a test!");
    assert_eq!(split[2].text, "The price is 3.14 dollars.");
    assert_eq!(split[0].start, 5000);
    assert_eq!(split[2].end, 15_000);
}

#[test]
fn test_split_by_sentence_no_punctuation() {
    let segments = vec![seg(1000, 2000, "没有句末标点的文本")];
    let split = split_into_sentences(&segments);
    assert_eq!(split.len(), 1);
    assert_eq!(split[0].text, "没有句末标点的文本");
    assert_eq!(split[0].start, 1000);
    assert_eq!(split[0].end, 2000);
}

#[test]
fn test_split_by_sentence_consecutive_punct() {
    let segments = vec![seg(0, 4000, "真的吗？！我不信。")];
    let split = split_into_sentences(&segments);
    assert_eq!(split.len(), 2);
    assert_eq!(split[0].text, "真的吗？！");
    assert_eq!(split[1].text, "我不信。");
}

#[test]
fn test_srt_exports_sentence_level() {
    let segments = vec![seg(0, 6000, "第一句话。第二句话。")];
    let srt = ExportManager::to_srt(&segments);
    assert!(srt.contains("1\n00:00:00,000 --> 00:00:03,000\n第一句话。"));
    assert!(srt.contains("2\n00:00:03,000 --> 00:00:06,000\n第二句话。"));
}

// ---- further cases ----

#[test]
fn split_weights_ascii_half() {
    // "ab." weighs 3 half units, "你好。" weighs 6: the first gets a third of 9 s.
    let split = split_into_sentences(&[seg(0, 9000, "ab. 你好。")]);
    assert_eq!(split.len(), 2);
    assert_eq!(split[0].text, "ab.");
    assert_eq!(split[0].end, 3000);
    assert_eq!(split[1].start, 3000);
    assert_eq!(split[1].end, 9000);
}

#[test]
fn split_empty_and_blank_text_gives_nothing() {
    assert!(split_into_sentences(&[seg(0, 1000, "")]).is_empty());
    assert!(split_into_sentences(&[seg(0, 1000, " \t\n\u{3000}")]).is_empty());
}

#[test]
fn split_keeps_closing_quote_with_sentence() {
    let split = split_into_sentences(&[seg(0, 1000, "他说：“好。”然后走了。")]);
    assert_eq!(split.len(), 2);
    assert_eq!(split[0].text, "他说：“好。”");
    assert_eq!(split[1].text, "然后走了。");
}

#[test]
fn split_is_contiguous_on_concrete_segment() {
    let split = split_into_sentences(&[seg(1234, 98_765, "一。二二！三三三？四四四四；")]);
    assert_eq!(split.len(), 4);
    assert_eq!(split[0].start, 1234);
    assert_eq!(split[3].end, 98_765);
    for k in 0..3 {
        assert_eq!(split[k].end, split[k + 1].start);
        assert!(split[k].start <= split[k].end);
    }
}

#[test]
fn split_segment_ending_before_start() {
    let split = split_into_sentences(&[seg(5000, 1000, "a. b.")]);
    assert_eq!(split.len(), 2);
    assert_eq!(split[0].start, 5000);
    assert_eq!(split[0].end, 5000);
    assert_eq!(split[1].start, 5000);
    assert_eq!(split[1].end, 1000);
}

#[test]
fn srt_time_large_hours_and_rollover() {
    assert_eq!(ExportManager::format_srt_time(359_999_999), "99:59:59,999");
    assert_eq!(ExportManager::format_srt_time(360_000_000), "100:00:00,000");
    assert_eq!(ExportManager::format_vtt_time(61_001), "00:01:01.001");
}

#[test]
fn vtt_export_exact() {
    let vtt = ExportManager::to_vtt(&[seg(0, 2000, "A. B."), seg(2500, 3000, "C")]);
    assert_eq!(
        vtt,
        "WEBVTT\n\n00:00:00.000 --> 00:00:01.000\nA.\n\n00:00:01.000 --> 00:00:02.000\nB.\n\n00:00:02.500 --> 00:00:03.000\nC"
    );
}

#[test]
fn srt_export_exact() {
    let srt = ExportManager::to_srt(&[seg(0, 1000, "x"), seg(1000, 2000, "y")]);
    assert_eq!(srt, "1\n00:00:00,000 --> 00:00:01,000\nx\n\n2\n00:00:01,000 --> 00:00:02,000\ny\n");
}

#[test]
fn txt_export_exact() {
    let txt = ExportManager::to_txt(&[seg(61_230, 0, "a"), seg(3_600_000, 0, "b")]);
    assert_eq!(txt, "[01:01.23] a\n\n[60:00.00] b\n");
}

#[test]
fn export_dispatches_on_lowercased_format() {
    let segs = vec![seg(0, 1000, "hi")];
    assert_eq!(ExportManager::export(&segs, "SRT").ok().unwrap(), ExportManager::to_srt(&segs));
    assert_eq!(ExportManager::export(&segs, "Txt").ok().unwrap(), ExportManager::to_txt(&segs));
    assert_eq!(ExportManager::export(&segs, "vtt").ok().unwrap(), ExportManager::to_vtt(&segs));
}

#[test]
fn export_rejects_unknown_format() {
    let segs = vec![seg(0, 1000, "hi")];
    match ExportManager::export(&segs, "docx") {
        Err(e) => assert_eq!(e.message(), "导出失败: 不支持的导出格式: docx"),
        Ok(_) => panic!("docx accepted"),
    }
}

#[test]
fn vtt_time_is_srt_time_with_full_stop() {
    for ms in [0u64, 999, 1_000, 61_001, 3_661_500, 86_399_999, 360_000_000_123] {
        assert_eq!(ExportManager::format_vtt_time(ms), ExportManager::format_srt_time(ms).replace(',', "."));
    }
}
