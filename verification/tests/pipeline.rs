//! Backend choice, local configuration, temporary-file guards and saving.

use video_to_srt::pipeline::{
    has_srt_extension, is_in_temp_subdir, local_config_from, recognised_message, select_backend,
    should_remove_stale, simplify_texts, with_utf8_bom, Backend,
};

#[test]
fn backend_names() {
    assert!(matches!(select_backend("local"), Ok(Backend::Local)));
    assert!(matches!(select_backend("cloud"), Ok(Backend::Cloud)));
    assert!(matches!(select_backend("qwen"), Ok(Backend::Cloud)));
    assert_eq!(
        select_backend("Cloud").unwrap_err(),
        "无效的 backend 值: 'Cloud'。支持的值为 'local' 和 'cloud'。"
    );
}

#[test]
fn local_config_requires_exe_and_model() {
    assert_eq!(local_config_from(None, Some("m"), None).unwrap_err(), "未配置 whisper-cli 路径");
    assert_eq!(local_config_from(Some("  "), Some("m"), None).unwrap_err(), "未配置 whisper-cli 路径");
    assert_eq!(local_config_from(Some("w"), Some(" "), None).unwrap_err(), "未配置 whisper 模型路径");
    let cfg = local_config_from(Some(" w.exe"), Some("m.bin"), Some(" zh ")).unwrap();
    assert_eq!(cfg.exe, " w.exe");
    assert_eq!(cfg.model, "m.bin");
    assert_eq!(cfg.language.as_deref(), Some("zh"));
    let cfg = local_config_from(Some("w"), Some("m"), Some("   ")).unwrap();
    assert!(cfg.language.is_none());
}

#[test]
fn recognised_texts_are_simplified() {
    let out = simplify_texts(&vec!["語音識別".to_string(), "ok".to_string()]);
    assert_eq!(out, vec!["语音识别", "ok"]);
    assert_eq!(recognised_message(12), "识别完成，共 12 段");
}

#[test]
fn delete_guard_accepts_only_app_temp_subdir() {
    assert!(is_in_temp_subdir(Some("/tmp/video-to-srt"), Some("/tmp/video-to-srt")));
    assert!(!is_in_temp_subdir(Some("/tmp"), Some("/tmp/video-to-srt")));
    assert!(!is_in_temp_subdir(None, Some("/tmp/video-to-srt")));
    assert!(!is_in_temp_subdir(Some("/tmp/video-to-srt"), None));
}

#[test]
fn stale_temp_cleanup_removes_only_old_files() {
    let day = (24 * 3600u64, 0u32);
    assert!(should_remove_stale(true, Some((2 * 24 * 3600, 0)), day));
    assert!(should_remove_stale(true, Some((24 * 3600, 1)), day));
    assert!(!should_remove_stale(true, Some((24 * 3600, 0)), day));
    assert!(!should_remove_stale(true, Some((5, 0)), day));
    assert!(!should_remove_stale(true, None, day));
    assert!(!should_remove_stale(false, Some((3 * 24 * 3600, 0)), day));
}

#[test]
fn only_srt_files_are_saved() {
    assert!(has_srt_extension(Some("srt")));
    assert!(has_srt_extension(Some("SRT")));
    assert!(!has_srt_extension(Some("exe")));
    assert!(!has_srt_extension(Some("srtx")));
    assert!(!has_srt_extension(None));
}

#[test]
fn saved_bytes_start_with_bom() {
    assert_eq!(with_utf8_bom("a"), vec![0xEF, 0xBB, 0xBF, b'a']);
    assert_eq!(with_utf8_bom(""), vec![0xEF, 0xBB, 0xBF]);
}
