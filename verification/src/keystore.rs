//! Where the cloud API key lives, as a sequence of decisions. The key
//! belongs in the operating system's credential store; older releases kept
//! it in plain text, first in `settings.json` and later in `api_key.txt`.
//! Reading the key looks in the store, then in `api_key.txt`, then in
//! `settings.json`; a key found in a legacy file is moved into the store and
//! the plain-text copy removed, but only once the store has taken it.
//!
//! The caller performs each read, write and removal that a decision asks
//! for and hands back what it observed.

use vstd::prelude::*;
use crate::json::{json_remove_key, json_str_at, json_string_at, json_without_key, plain_member_name};
use crate::text::lemma_trim_idempotent;
use crate::text::{chars_of, string_from_chars, trim, trim_chars};

verus! {

/// Service name of the credential-store entry.
pub const KEYRING_SERVICE: &'static str = "com.vibecoding.video-to-srt";

/// Account name of the credential-store entry.
pub const KEYRING_USER: &'static str = "qwen-api-key";

/// Legacy plain-text key file in the app data directory.
pub const API_KEY_FILE: &'static str = "api_key.txt";

/// Legacy settings file in the app data directory, whose `apiKey` member
/// once held the key.
pub const SETTINGS_FILE: &'static str = "settings.json";

/// The places the key is read from, in the order they are tried.
#[derive(Debug)]
pub enum KeySource {
    /// The credential store.
    Store,
    /// `api_key.txt`.
    ApiKeyTxt,
    /// The `apiKey` member of `settings.json`.
    SettingsJson,
}

/// What removes a legacy plain-text copy of the key.
#[derive(Debug)]
pub enum Cleanup {
    /// Delete `api_key.txt`.
    RemoveApiKeyTxt,
    /// Drop the `apiKey` member from `settings.json`.
    ScrubSettings,
}

/// The next thing to do while reading the key.
#[derive(Debug)]
pub enum KeyStep {
    /// Read this source and report what it holds.
    Read(KeySource),
    /// Write `key`, found in the legacy source `from`, into the credential
    /// store; then ask `after_migration` whether to clean up. The key is the
    /// result either way.
    Migrate { key: String, from: KeySource },
    /// The key, or the error that none is configured.
    Done(Result<String, String>),
}

/// `s` trimmed, if that leaves something.
pub open spec fn nonblank(s: Seq<char>) -> Option<Seq<char>> {
    if trim(s).len() > 0 {
        Some(trim(s))
    } else {
        None
    }
}

/// `s` trimmed, or `None` where nothing but whitespace is left.
pub fn nonblank_trimmed(s: &str) -> (r: Option<String>)
    ensures
        match r {
            Some(k) => nonblank(s@) == Some(k@),
            None => nonblank(s@) is None,
        },
{
    let t = trim_chars(&chars_of(s));
    if t.len() > 0 {
        Some(string_from_chars(t.as_slice()))
    } else {
        None
    }
}

/// The key a source yields, given what reading it returned (`None` where
/// there was nothing to read): the trimmed value of the store entry or of
/// `api_key.txt`, or the trimmed `apiKey` string of `settings.json`; blank
/// values count as absent.
pub open spec fn key_in(source: KeySource, observed: Option<Seq<char>>) -> Option<Seq<char>> {
    match observed {
        None => None,
        Some(text) => match source {
            KeySource::SettingsJson => settings_key(json_string_at(text, "/apiKey"@)),
            _ => nonblank(text),
        },
    }
}

/// The key held by the `apiKey` string of `settings.json`, given that
/// string if the file has one: trimmed, and absent where blank.
pub open spec fn settings_key(found: Option<Seq<char>>) -> Option<Seq<char>> {
    match found {
        Some(k) => nonblank(k),
        None => None,
    }
}

/// The key of `settings.json`, given the `apiKey` string found in it.
pub fn key_of_settings_value(found: Option<String>) -> (r: Option<String>)
    ensures
        r.deep_view() == settings_key(found.deep_view()),
{
    match found {
        Some(k) => nonblank_trimmed(k.as_str()),
        None => None,
    }
}

/// The message when no key is configured anywhere.
pub open spec fn no_key_message() -> Seq<char> {
    "未配置 API Key，请先在设置中填写"@
}

/// The key a source yields, given what reading it returned.
pub fn key_from(source: &KeySource, observed: Option<String>) -> (r: Option<String>)
    ensures
        match r {
            Some(k) => key_in(*source, observed.deep_view()) == Some(k@),
            None => key_in(*source, observed.deep_view()) is None,
        },
{
    match observed {
        None => None,
        Some(text) => match source {
            KeySource::SettingsJson => key_of_settings_value(json_str_at(text.as_str(), "/apiKey")),
            _ => nonblank_trimmed(text.as_str()),
        },
    }
}

/// Decides what follows reading `source`, which returned `observed`: a key
/// in the store is the result; a key in a legacy file is to be migrated;
/// otherwise the next source is read, and after `settings.json` there is
/// none.
pub fn read_api_key_step(source: KeySource, observed: Option<String>) -> (r: KeyStep)
    ensures
        match key_in(source, observed.deep_view()) {
            Some(k) => match source {
                KeySource::Store => r matches KeyStep::Done(Ok(v)) && v@ == k,
                _ => r matches KeyStep::Migrate { key, from } && key@ == k && from == source,
            },
            None => match source {
                KeySource::Store => r matches KeyStep::Read(KeySource::ApiKeyTxt),
                KeySource::ApiKeyTxt => r matches KeyStep::Read(KeySource::SettingsJson),
                KeySource::SettingsJson => r matches KeyStep::Done(Err(e)) && e@ == no_key_message(),
            },
        },
{
    let found = key_from(&source, observed);
    match found {
        Some(k) => match source {
            KeySource::Store => KeyStep::Done(Ok(k)),
            KeySource::ApiKeyTxt => KeyStep::Migrate { key: k, from: KeySource::ApiKeyTxt },
            KeySource::SettingsJson => KeyStep::Migrate { key: k, from: KeySource::SettingsJson },
        },
        None => match source {
            KeySource::Store => KeyStep::Read(KeySource::ApiKeyTxt),
            KeySource::ApiKeyTxt => KeyStep::Read(KeySource::SettingsJson),
            KeySource::SettingsJson => KeyStep::Done(
                Err(string_from_chars(chars_of("未配置 API Key，请先在设置中填写").as_slice())),
            ),
        },
    }
}

/// The cleanup after migrating a key from `from`: the plain-text copy is
/// removed only when the credential store took the key.
pub fn after_migration(from: &KeySource, write_ok: bool) -> (r: Option<Cleanup>)
    ensures
        !write_ok ==> r is None,
        write_ok ==> match *from {
            KeySource::ApiKeyTxt => r matches Some(Cleanup::RemoveApiKeyTxt),
            KeySource::SettingsJson => r matches Some(Cleanup::ScrubSettings),
            KeySource::Store => r is None,
        },
{
    if !write_ok {
        return None;
    }
    match from {
        KeySource::ApiKeyTxt => Some(Cleanup::RemoveApiKeyTxt),
        KeySource::SettingsJson => Some(Cleanup::ScrubSettings),
        KeySource::Store => None,
    }
}

/// The message for a blank key.
pub open spec fn blank_key_message() -> Seq<char> {
    "API Key 不能为空"@
}

/// The key to store when the user sets `key`: trimmed, and refused when
/// blank. After storing it, both legacy plain-text copies are to be
/// removed.
pub fn set_api_key_with(key: &str) -> (r: Result<String, String>)
    ensures
        match r {
            Ok(k) => nonblank(key@) == Some(k@),
            Err(e) => nonblank(key@) is None && e@ == blank_key_message(),
        },
{
    match nonblank_trimmed(key) {
        Some(k) => Ok(k),
        None => Err(string_from_chars(chars_of("API Key 不能为空").as_slice())),
    }
}

/// The new content of `settings.json` once its `apiKey` member is dropped;
/// `None` where the file is not a JSON object with that member, in which
/// case it is left alone.
///
/// Whatever `settings.json` holds afterwards, the new content or the file
/// left alone, yields no key.
pub fn scrubbed_settings(text: &str) -> (r: Option<String>)
    ensures
        match r {
            Some(s) => json_without_key(text@, "apiKey"@) == Some(s@),
            None => json_without_key(text@, "apiKey"@) is None,
        },
        match r {
            Some(s) => key_in(KeySource::SettingsJson, Some(s@)) is None,
            None => key_in(KeySource::SettingsJson, Some(text@)) is None,
        },
{
    proof {
        reveal_strlit("apiKey");
        reveal_strlit("/apiKey");
        reveal_strlit("/");
        assert("/"@ + "apiKey"@ =~= "/apiKey"@);
        assert(plain_member_name("apiKey"@));
    }
    json_remove_key(text, "apiKey")
}

/// A key that `set_api_key_with` accepts is stored trimmed, and reading the
/// credential store that holds it gives that key back unchanged.
pub proof fn lemma_stored_key_reads_back(key: Seq<char>, stored: Seq<char>)
    requires
        nonblank(key) == Some(stored),
    ensures
        stored == trim(key),
        key_in(KeySource::Store, Some(stored)) == Some(stored),
{
    lemma_trim_idempotent(key);
}

} // verus!
