//! Transcript splitting, SRT reading and the cloud request helpers.

use video_to_srt::asr::{
    api_error, asr_options, audio_data_url, check_api_key, check_audio_size, content_text,
    detect_mime, model_or_default, transcript_cues, whisper_args, whisper_exit_error, AsrError,
    LocalConfig, MessageContent, summarize_error_message,
};
use video_to_srt::cues::split_into_cues;
use video_to_srt::srt_parse::{parse_srt, SrtCue};

fn fields(c: &SrtCue) -> [&str; 8] {
    [
        c.start.hours.as_str(),
        c.start.minutes.as_str(),
        c.start.seconds.as_str(),
        c.start.fraction.as_str(),
        c.end.hours.as_str(),
        c.end.minutes.as_str(),
        c.end.seconds.as_str(),
        c.end.fraction.as_str(),
    ]
}

#[test]
fn splits_chinese_and_english() {
    let cues = split_into_cues("你好，世界！Hello world? 是的。");
    assert_eq!(cues.len(), 3);
    assert_eq!(cues[0], "你好，世界！");
    assert_eq!(cues[1], "Hello world?");
    assert_eq!(cues[2], "是的。");
}

#[test]
fn split_blank_transcript_gives_no_cues() {
    assert!(split_into_cues("").is_empty());
    assert!(split_into_cues(" \n\t ").is_empty());
}

#[test]
fn split_on_newlines_and_keeps_unterminated_tail() {
    let cues = split_into_cues("第一行\n第二行；第三行 tail");
    assert_eq!(cues, vec!["第一行", "第二行；", "第三行 tail"]);
}

#[test]
fn split_drops_blank_pieces_between_terminators() {
    let cues = split_into_cues("好！！  ？ 再见");
    assert_eq!(cues, vec!["好！", "！", "？", "再见"]);
}

#[test]
fn parses_srt_basic() {
    let srt = "1\n00:00:00,000 --> 00:00:02,500\nHi there.\n\n2\n00:00:02,600 --> 00:00:05,000\nNext line.\n";
    let cues = parse_srt(srt);
    assert_eq!(cues.len(), 2);
    assert_eq!(fields(&cues[0]), ["00", "00", "00", "000", "00", "00", "02", "500"]);
    assert_eq!(cues[0].text, "Hi there.");
    assert_eq!(cues[1].text, "Next line.");
}

#[test]
fn parses_srt_with_bom_and_crlf() {
    let srt = "\u{feff}1\r\n00:00:00,000 --> 00:00:02,500\r\nHi.\r\n\r\n2\r\n00:00:02,600 --> 00:00:05,000\r\nNext.\r\n";
    let cues = parse_srt(srt);
    assert_eq!(cues.len(), 2);
    assert_eq!(fields(&cues[0]), ["00", "00", "00", "000", "00", "00", "02", "500"]);
    assert_eq!(cues[0].text, "Hi.");
    assert_eq!(cues[1].text, "Next.");
}

#[test]
fn empty_or_garbage_input_yields_no_cues() {
    assert!(parse_srt("").is_empty());
    assert!(parse_srt("  \n  ").is_empty());
    assert!(parse_srt("hello world").is_empty());
    assert!(parse_srt("1\n00:00:00,000 --> 00:00:02,500\n").is_empty());
}

#[test]
fn malformed_blocks_are_skipped() {
    let srt = "1\njust some text without timestamps\n\n2\n00:00:00,000 --> 00:00:01,000\nGood\n\n3\n";
    let cues = parse_srt(srt);
    assert_eq!(cues.len(), 1);
    assert_eq!(cues[0].text, "Good");
    assert_eq!(fields(&cues[0])[4..], ["00", "00", "01", "000"]);
}

#[test]
fn multi_line_cue_body_is_preserved() {
    let srt = "1\n00:00:00,000 --> 00:00:02,000\nfirst line\nsecond line\n";
    let cues = parse_srt(srt);
    assert_eq!(cues.len(), 1);
    assert_eq!(cues[0].text, "first line\nsecond line");
}

#[test]
fn srt_time_fields_keep_dot_separator_and_short_fractions() {
    let cues = parse_srt("7\r00:01:02.5 --> 100:00:03,25\rText\r");
    assert_eq!(cues.len(), 1);
    assert_eq!(fields(&cues[0]), ["00", "01", "02", "5", "100", "00", "03", "25"]);
    assert_eq!(cues[0].text, "Text");
}

#[test]
fn srt_lines_before_the_time_line_that_are_not_numbers_are_text() {
    let cues = parse_srt("Title\n00:00:01,000 --> 00:00:02,000\nBody");
    assert_eq!(cues.len(), 1);
    assert_eq!(cues[0].text, "Title\nBody");
}

#[test]
fn srt_parse_is_the_same_for_crlf_and_lf() {
    let lf = parse_srt("1\n00:00:00,000 --> 00:00:01,000\nA\n\n2\n00:00:01,000 --> 00:00:02,000\nB\n");
    let crlf = parse_srt("1\r\n00:00:00,000 --> 00:00:01,000\r\nA\r\n\r\n2\r\n00:00:01,000 --> 00:00:02,000\r\nB\r\n");
    assert_eq!(lf.len(), crlf.len());
    for (a, b) in lf.iter().zip(crlf.iter()) {
        assert_eq!(a.text, b.text);
        assert_eq!(fields(a), fields(b));
    }
}

#[test]
fn blank_api_key_is_refused() {
    assert!(matches!(check_api_key("   "), Err(AsrError::MissingApiKey)));
    assert!(check_api_key(" sk-1 ").is_ok());
}

#[test]
fn default_model_is_used_when_none_given() {
    assert_eq!(model_or_default(None), "qwen3-asr-flash");
    assert_eq!(model_or_default(Some("qwen-other")), "qwen-other");
}

#[test]
fn audio_size_limit_is_fifty_mebibytes() {
    assert!(check_audio_size(50 * 1024 * 1024).is_ok());
    match check_audio_size(60 * 1024 * 1024 + 5) {
        Err(AsrError::Invalid(m)) => {
            assert_eq!(m, "音频文件过大 (60 MB)，最大支持 50 MB。请先压缩或分段处理。")
        }
        other => panic!("unexpected {:?}", other),
    }
}

#[test]
fn mime_types_by_extension_ignore_case() {
    assert_eq!(detect_mime(Some("wav")), "audio/wav");
    assert_eq!(detect_mime(Some("MP3")), "audio/mpeg");
    assert_eq!(detect_mime(Some("M4a")), "audio/mp4");
    assert_eq!(detect_mime(Some("mp4")), "audio/mp4");
    assert_eq!(detect_mime(Some("ogg")), "audio/ogg");
    assert_eq!(detect_mime(Some("OPUS")), "audio/ogg");
    assert_eq!(detect_mime(Some("flac")), "audio/flac");
    assert_eq!(detect_mime(Some("pcm")), "audio/L16");
    assert_eq!(detect_mime(Some("aac")), "audio/aac");
    assert_eq!(detect_mime(Some("xyz")), "audio/wav");
    assert_eq!(detect_mime(None), "audio/wav");
}

#[test]
fn data_url_carries_base64_audio() {
    assert_eq!(audio_data_url("audio/wav", b"Man"), "data:audio/wav;base64,TWFu");
    assert_eq!(audio_data_url("audio/mpeg", b"Ma"), "data:audio/mpeg;base64,TWE=");
    assert_eq!(audio_data_url("audio/wav", b""), "data:audio/wav;base64,");
}

#[test]
fn options_only_when_language_or_itn_set() {
    assert!(asr_options(None, false).is_none());
    assert!(asr_options(Some("   "), false).is_none());
    let o = asr_options(Some(" zh "), false).unwrap();
    assert_eq!(o.language.as_deref(), Some("zh"));
    assert!(!o.enable_itn);
    let o = asr_options(Some(""), true).unwrap();
    assert!(o.language.is_none());
    assert!(o.enable_itn);
}

#[test]
fn api_error_summarises_json_message() {
    match api_error("401 Unauthorized".to_string(), r#"{"error":{"message":"Invalid API-key provided."}}"#) {
        AsrError::Api { code, message } => {
            assert_eq!(code, "401 Unauthorized");
            assert_eq!(message, "Invalid API-key provided.");
        }
        other => panic!("unexpected {:?}", other),
    }
}

#[test]
fn api_error_falls_back_for_non_json_or_empty_message() {
    for body in ["<html>bad gateway</html>", r#"{"error":{"message":""}}"#, r#"{"error":{"message":3}}"#] {
        match api_error("502 Bad Gateway".to_string(), body) {
            AsrError::Api { message, .. } => assert_eq!(message, "请求失败，请检查 API Key 与网络后重试"),
            other => panic!("unexpected {:?}", other),
        }
    }
}

#[test]
fn api_error_message_is_cut_at_300_characters() {
    let long: String = "错".repeat(350);
    let body = format!(r#"{{"error":{{"message":"{}"}}}}"#, long);
    match api_error("500".to_string(), &body) {
        AsrError::Api { message, .. } => assert_eq!(message.chars().count(), 300),
        other => panic!("unexpected {:?}", other),
    }
}

#[test]
fn content_text_joins_parts() {
    assert_eq!(content_text(&MessageContent::Text("你好。".to_string())), "你好。");
    let parts = MessageContent::Parts(vec![Some("a".to_string()), None, Some("b".to_string())]);
    assert_eq!(content_text(&parts), "ab");
    assert_eq!(content_text(&MessageContent::Other("null".to_string())), "null");
}

#[test]
fn transcript_needs_a_choice() {
    match transcript_cues(&vec![]) {
        Err(AsrError::Invalid(m)) => assert_eq!(m, "empty choices"),
        other => panic!("unexpected {:?}", other),
    }
    let cues = transcript_cues(&vec![MessageContent::Text("一。二。".to_string())]).unwrap();
    assert_eq!(cues, vec!["一。", "二。"]);
}

#[test]
fn local_config_validation_reports_missing_paths() {
    let cfg = LocalConfig {
        exe: "C:/w/whisper-cli.exe".to_string(),
        model: "C:/w/ggml-base.bin".to_string(),
        language: None,
    };
    assert!(cfg.validate(true, true).is_ok());
    match cfg.validate(false, true) {
        Err(AsrError::Local(m)) => assert_eq!(m, "whisper-cli 未找到: C:/w/whisper-cli.exe"),
        other => panic!("unexpected {:?}", other),
    }
    match cfg.validate(true, false) {
        Err(AsrError::Local(m)) => assert_eq!(m, "whisper 模型未找到: C:/w/ggml-base.bin"),
        other => panic!("unexpected {:?}", other),
    }
}

#[test]
fn whisper_arguments() {
    let args = whisper_args("m.bin", "a.wav", "/tmp/out", Some("zh"));
    assert_eq!(args, vec!["--no-prints", "-m", "m.bin", "-f", "a.wav", "-of", "/tmp/out", "-osrt", "-l", "zh"]);
    let args = whisper_args("m.bin", "a.wav", "/tmp/out", Some(""));
    assert_eq!(args.len(), 8);
    assert_eq!(whisper_args("m", "a", "o", None).len(), 8);
}

#[test]
fn whisper_exit_error_shows_code_and_output() {
    match whisper_exit_error(Some(-1), "boom", "ignored") {
        AsrError::Local(m) => assert_eq!(m, "whisper-cli 退出码 Some(-1): boom"),
        other => panic!("unexpected {:?}", other),
    }
    match whisper_exit_error(None, "", "stdout text") {
        AsrError::Local(m) => assert_eq!(m, "whisper-cli 退出码 None: stdout text"),
        other => panic!("unexpected {:?}", other),
    }
}

#[test]
fn error_message_summary_from_found_string() {
    assert_eq!(summarize_error_message(Some("bad key".to_string())), "bad key");
    assert_eq!(summarize_error_message(Some(String::new())), "请求失败，请检查 API Key 与网络后重试");
    assert_eq!(summarize_error_message(None), "请求失败，请检查 API Key 与网络后重试");
    let long: String = "错".repeat(301);
    assert_eq!(summarize_error_message(Some(long)).chars().count(), 300);
}
