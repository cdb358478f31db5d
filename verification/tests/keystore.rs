//! The API-key lookup and migration decisions, driven with in-memory
//! observations.

use video_to_srt::keystore::{
    after_migration, key_of_settings_value, nonblank_trimmed, read_api_key_step, scrubbed_settings,
    set_api_key_with, key_from, Cleanup, KeySource, KeyStep,
};

/// Runs the lookup against an in-memory store and legacy files, performing
/// the requested actions; returns the result, the store afterwards, and the
/// legacy files afterwards.
fn run(
    store: Option<&str>,
    store_accepts: bool,
    txt: Option<&str>,
    settings: Option<&str>,
) -> (Result<String, String>, Option<String>, Option<String>, Option<String>) {
    let mut store = store.map(str::to_string);
    let mut txt = txt.map(str::to_string);
    let mut settings = settings.map(str::to_string);
    let mut source = KeySource::Store;
    loop {
        let observed = match source {
            KeySource::Store => store.clone(),
            KeySource::ApiKeyTxt => txt.clone(),
            KeySource::SettingsJson => settings.clone(),
        };
        match read_api_key_step(source, observed) {
            KeyStep::Read(next) => source = next,
            KeyStep::Migrate { key, from } => {
                if store_accepts {
                    store = Some(key.clone());
                }
                match after_migration(&from, store_accepts) {
                    Some(Cleanup::RemoveApiKeyTxt) => txt = None,
                    Some(Cleanup::ScrubSettings) => {
                        if let Some(new) = scrubbed_settings(settings.as_deref().unwrap()) {
                            settings = Some(new);
                        }
                    }
                    None => {}
                }
                return (Ok(key), store, txt, settings);
            }
            KeyStep::Done(r) => return (r, store, txt, settings),
        }
    }
}

#[test]
fn primary_store_wins_over_legacy_files() {
    let (key, _, txt, _) = run(Some("cm-key"), true, Some("file-key"), Some(r#"{"apiKey":"settings-key"}"#));
    assert_eq!(key.unwrap(), "cm-key");
    assert_eq!(txt.as_deref(), Some("file-key"));
}

#[test]
fn migrates_from_api_key_txt_and_deletes_it() {
    let (key, store, txt, _) = run(None, true, Some("  old-txt-key  "), None);
    assert_eq!(key.unwrap(), "old-txt-key");
    assert_eq!(store.as_deref(), Some("old-txt-key"));
    assert!(txt.is_none());
}

#[test]
fn migrates_from_settings_json_and_scrubs_it() {
    let (key, store, _, settings) = run(
        None,
        true,
        None,
        Some(r#"{"asrSettings":{"backend":"qwen"},"apiKey":"old-settings-key"}"#),
    );
    assert_eq!(key.unwrap(), "old-settings-key");
    assert_eq!(store.as_deref(), Some("old-settings-key"));
    let remaining: serde_json::Value = serde_json::from_str(settings.as_deref().unwrap()).unwrap();
    assert!(remaining.get("apiKey").is_none());
    assert_eq!(remaining["asrSettings"]["backend"], "qwen");
}

#[test]
fn api_key_txt_takes_precedence_over_settings_json() {
    let (key, _, _, settings) = run(None, true, Some("txt-key"), Some(r#"{"apiKey":"settings-key"}"#));
    assert_eq!(key.unwrap(), "txt-key");
    assert!(settings.unwrap().contains("settings-key"));
}

#[test]
fn migration_failure_keeps_legacy_file() {
    let (key, store, txt, _) = run(None, false, Some("txt-key"), None);
    assert_eq!(key.unwrap(), "txt-key");
    assert!(store.is_none());
    assert_eq!(txt.as_deref(), Some("txt-key"));
}

#[test]
fn no_key_anywhere_returns_error() {
    let (key, _, _, _) = run(None, true, None, None);
    assert!(key.unwrap_err().contains("未配置 API Key"));
}

#[test]
fn blank_values_count_as_absent() {
    let (key, _, _, _) = run(Some("  "), true, Some("\n"), Some(r#"{"apiKey":"  "}"#));
    assert!(key.is_err());
    let (key, _, _, _) = run(None, true, None, Some(r#"{"apiKey":7}"#));
    assert!(key.is_err());
    let (key, _, _, _) = run(None, true, None, Some("not json"));
    assert!(key.is_err());
}

#[test]
fn set_key_trims_and_rejects_blank() {
    assert_eq!(set_api_key_with("  new-key  ").unwrap(), "new-key");
    assert_eq!(set_api_key_with("   ").unwrap_err(), "API Key 不能为空");
}

#[test]
fn scrub_leaves_files_without_the_key_alone() {
    assert!(scrubbed_settings(r#"{"other":1}"#).is_none());
    assert!(scrubbed_settings("[1,2]").is_none());
    assert!(scrubbed_settings("garbage").is_none());
    let out = scrubbed_settings(r#"{"apiKey":"k","x":1}"#).unwrap();
    assert!(!out.contains("apiKey"));
    assert!(out.contains("\"x\": 1"));
}

#[test]
fn settings_value_is_trimmed_and_blank_counts_as_absent() {
    assert_eq!(key_of_settings_value(Some("  sk-abc \n".to_string())), Some("sk-abc".to_string()));
    assert_eq!(key_of_settings_value(Some(" \t ".to_string())), None);
    assert_eq!(key_of_settings_value(None), None);
    assert_eq!(nonblank_trimmed("\u{3000}k\u{3000}"), Some("k".to_string()));
    assert_eq!(nonblank_trimmed(""), None);
}

#[test]
fn scrubbed_settings_yield_no_key() {
    let text = r#"{"apiKey":"sk-1","theme":"dark"}"#;
    assert_eq!(key_from(&KeySource::SettingsJson, Some(text.to_string())), Some("sk-1".to_string()));
    let out = scrubbed_settings(text).unwrap();
    assert_eq!(key_from(&KeySource::SettingsJson, Some(out)), None);
    assert_eq!(key_from(&KeySource::SettingsJson, Some(r#"{"theme":"dark"}"#.to_string())), None);
}

#[test]
fn stored_key_reads_back_trimmed() {
    let stored = set_api_key_with("  sk-2 \n").unwrap();
    assert_eq!(stored, "sk-2");
    match read_api_key_step(KeySource::Store, Some(stored)) {
        KeyStep::Done(Ok(k)) => assert_eq!(k, "sk-2"),
        other => panic!("unexpected step {:?}", other),
    }
}
