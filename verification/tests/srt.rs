//! SRT timestamps and documents.

use video_to_srt::pipeline::with_utf8_bom;
use video_to_srt::srt::{format_millis, render_srt, SrtEntry};
use video_to_srt::srt_parse::parse_srt;

fn entry(start_ms: u64, end_ms: u64, text: &str) -> SrtEntry {
    SrtEntry { start_ms, end_ms, text: text.to_string() }
}

#[test]
fn timestamps_are_zero_padded_and_clamped() {
    assert_eq!(format_millis(0), "00:00:00,000");
    assert_eq!(format_millis(2500), "00:00:02,500");
    assert_eq!(format_millis(3_600_000), "01:00:00,000");
    assert_eq!(format_millis(3_723_004), "01:02:03,004");
    assert_eq!(format_millis(359_999_999), "99:59:59,999");
    assert_eq!(format_millis(360_000_000), "99:59:59,999");
    assert_eq!(format_millis(u64::MAX), "99:59:59,999");
}

#[test]
fn empty_entries_produce_empty_srt() {
    assert_eq!(render_srt(&vec![]), "");
}

#[test]
fn srt_document_layout() {
    let srt = render_srt(&vec![entry(0, 1000, "  a  "), entry(1100, 2000, "b")]);
    assert_eq!(
        srt,
        "1\r\n00:00:00,000 --> 00:00:01,000\r\na\r\n\r\n2\r\n00:00:01,100 --> 00:00:02,000\r\nb\r\n"
    );
}

#[test]
fn srt_uses_crlf_line_endings() {
    let srt = render_srt(&vec![entry(0, 1000, "a"), entry(1100, 2000, "b")]);
    for (i, ch) in srt.char_indices() {
        if ch == '\n' {
            assert!(i > 0 && srt.as_bytes()[i - 1] == b'\r', "lone \\n at byte {i}");
        }
    }
    assert!(srt.contains("a\r\n\r\n2\r\n"));
}

#[test]
fn srt_preserves_chinese_bytes() {
    let srt = render_srt(&vec![entry(0, 2500, "你好世界！这是中文测试。")]);
    let back = std::str::from_utf8(srt.as_bytes()).expect("srt must be valid UTF-8");
    assert!(back.contains("你好世界"));
    assert!(back.contains("00:00:00,000 --> 00:00:02,500"));
    assert!(srt.as_bytes().windows(3).any(|w| w == [0xE4, 0xBD, 0xA0]));
}

#[test]
fn save_bytes_with_bom_round_trip() {
    let srt = render_srt(&vec![entry(1000, 3000, "中文标点：，。！？")]);
    let bytes = with_utf8_bom(&srt);
    assert_eq!(&bytes[..3], &[0xEF, 0xBB, 0xBF]);
    let text = std::str::from_utf8(&bytes).unwrap();
    assert!(text.contains("中文标点：，。！？"));
}

#[test]
fn chinese_segments_round_trip_through_save_bytes() {
    let srt = render_srt(&vec![
        entry(0, 1500, "你好世界"),
        entry(1500, 3000, "中文标点：，。！？"),
        entry(3000, 5000, "繁体字测试"),
    ]);
    let bytes = with_utf8_bom(&srt);
    assert_eq!(&bytes[..3], &[0xEF, 0xBB, 0xBF], "must start with UTF-8 BOM");
    let back = std::str::from_utf8(&bytes).expect("must remain valid UTF-8");
    assert!(back.contains("你好世界"));
    assert!(back.contains("中文标点：，。！？"));
    assert!(back.contains("繁体字测试"));
    assert!(bytes.windows(3).any(|w| w == [0xE4, 0xBD, 0xA0]));
    assert!(bytes.windows(3).any(|w| w == [0xE7, 0xB9, 0x81]));
}

#[test]
fn srt_is_valid_utf8_for_mojibake_inspection() {
    let srt = render_srt(&vec![entry(0, 2000, "艾菲尔铁塔")]);
    assert!(!srt.as_bytes().windows(2).any(|w| w == [0xC8, 0xA1]));
    assert!(srt.as_bytes().windows(3).any(|w| w == [0xE8, 0x89, 0xBE]));
}

#[test]
fn timestamps_sort_as_times() {
    let times = [0u64, 9, 10, 999, 1000, 59_999, 60_000, 3_599_999, 3_600_000, 35_999_999, 36_000_000, 359_999_999, 400_000_000];
    for w in times.windows(2) {
        assert!(format_millis(w[0]) <= format_millis(w[1]), "{} vs {}", w[0], w[1]);
    }
    for a in (0u64..200_000).step_by(997) {
        assert!(format_millis(a) <= format_millis(a + 1));
    }
}

#[test]
fn rendered_document_reads_back() {
    let entries = vec![
        entry(0, 1500, "  first cue "),
        entry(1600, 3_723_004, "两行\n字幕"),
        entry(400_000_000, 400_000_001, "clamped"),
    ];
    let cues = parse_srt(&render_srt(&entries));
    assert_eq!(cues.len(), 3);
    assert_eq!(cues[0].text, "first cue");
    assert_eq!(cues[1].text, "两行\n字幕");
    assert_eq!(cues[2].text, "clamped");
    let f = |c: &video_to_srt::srt_parse::SrtCue| {
        vec![
            c.start.hours.clone(), c.start.minutes.clone(), c.start.seconds.clone(), c.start.fraction.clone(),
            c.end.hours.clone(), c.end.minutes.clone(), c.end.seconds.clone(), c.end.fraction.clone(),
        ]
    };
    assert_eq!(f(&cues[0]), ["00", "00", "00", "000", "00", "00", "01", "500"]);
    assert_eq!(f(&cues[1]), ["00", "00", "01", "600", "01", "02", "03", "004"]);
    assert_eq!(f(&cues[2]), ["99", "59", "59", "999", "99", "59", "59", "999"]);
}

#[test]
fn line_breaks_inside_cue_text_are_crlf() {
    let srt = render_srt(&vec![entry(0, 1000, "a\nb"), entry(1000, 2000, "x\r\ny\rz")]);
    assert_eq!(
        srt,
        "1\r\n00:00:00,000 --> 00:00:01,000\r\na\r\nb\r\n\r\n2\r\n00:00:01,000 --> 00:00:02,000\r\nx\r\ny\r\nz\r\n"
    );
    let bytes = srt.as_bytes();
    for (i, b) in bytes.iter().enumerate() {
        if *b == b'\n' {
            assert!(i > 0 && bytes[i - 1] == b'\r', "lone \\n at byte {i}");
        }
    }
}
