//! Decisions of the video-to-subtitle pipeline around recognition: which
//! backend runs, how the local backend is configured, which temporary files
//! may be deleted, and how a subtitle file is saved.

use vstd::prelude::*;
use crate::asr::LocalConfig;
use crate::convert::{convert_chars, normalize, t2s};
use crate::text::{
    chars_of, concat3, eq_lowered, equals_lowered, push_decimal, push_str, decimal,
    string_from_chars, trim, trim_chars,
};

verus! {

/// Subdirectory of the system temporary directory that holds the
/// intermediate WAV files.
pub const TEMP_SUBDIR: &'static str = "video-to-srt";

/// Age after which a leftover WAV file in `TEMP_SUBDIR` is removed at
/// start-up: one day, in seconds.
pub const STALE_TEMP_SECS: u64 = 86_400;

/// The recognition backends.
#[derive(Debug)]
pub enum Backend {
    /// whisper.cpp on this machine.
    Local,
    /// The Qwen ASR cloud service.
    Cloud,
}

/// The message for an unknown backend name.
pub open spec fn invalid_backend_message(backend: Seq<char>) -> Seq<char> {
    "无效的 backend 值: '"@ + backend + "'。支持的值为 'local' 和 'cloud'。"@
}

/// The backend a name selects: `local`, or `cloud` (also spelled `qwen`);
/// any other name is refused, so audio never goes to the cloud by mistake.
pub fn select_backend(backend: &str) -> (r: Result<Backend, String>)
    ensures
        backend@ == "local"@ ==> r matches Ok(Backend::Local),
        (backend@ == "cloud"@ || backend@ == "qwen"@) ==> r matches Ok(Backend::Cloud),
        !(backend@ == "local"@ || backend@ == "cloud"@ || backend@ == "qwen"@) ==> (r matches Err(e)
            && e@ == invalid_backend_message(backend@)),
{
    proof {
        reveal_strlit("local");
        reveal_strlit("cloud");
        reveal_strlit("qwen");
        assert("local"@[0] != "cloud"@[0]);
        assert("local"@[0] != "qwen"@[0]);
    }
    let v = chars_of(backend);
    let local = chars_of("local");
    let cloud = chars_of("cloud");
    let qwen = chars_of("qwen");
    if same_chars(&v, &local) {
        Ok(Backend::Local)
    } else if same_chars(&v, &cloud) || same_chars(&v, &qwen) {
        Ok(Backend::Cloud)
    } else {
        Err(concat3("无效的 backend 值: '", backend, "'。支持的值为 'local' 和 'cloud'。"))
    }
}

fn same_chars(a: &Vec<char>, b: &Vec<char>) -> (r: bool)
    ensures
        r == (a@ == b@),
{
    if a.len() != b.len() {
        return false;
    }
    let n = a.len();
    let mut i: usize = 0;
    while i < n
        invariant
            n == a@.len(),
            n == b@.len(),
            i <= n,
            forall|j: int| 0 <= j < i ==> a@[j] == b@[j],
        decreases n - i,
    {
        if a[i] != b[i] {
            return false;
        }
        i = i + 1;
    }
    assert(a@ =~= b@);
    true
}

/// Whether `s` is present and not blank.
pub open spec fn given(s: Option<Seq<char>>) -> bool {
    s matches Some(v) && trim(v).len() > 0
}

/// The view of an optional string.
pub open spec fn opt_view(s: Option<&str>) -> Option<Seq<char>> {
    match s {
        Some(v) => Some(v@),
        None => None,
    }
}

fn is_given(s: Option<&str>) -> (r: bool)
    ensures
        r == given(opt_view(s)),
{
    match s {
        Some(v) => trim_chars(&chars_of(v)).len() > 0,
        None => false,
    }
}

/// The local backend's configuration from the user's settings: the
/// executable and the model must be given (they are used as written); the
/// language hint is trimmed and dropped when blank.
pub fn local_config_from(
    whisper_exe: Option<&str>,
    whisper_model: Option<&str>,
    whisper_language: Option<&str>,
) -> (r: Result<LocalConfig, String>)
    ensures
        !given(opt_view(whisper_exe)) ==> (r matches Err(e) && e@ == "未配置 whisper-cli 路径"@),
        given(opt_view(whisper_exe)) && !given(opt_view(whisper_model)) ==> (r matches Err(e) && e@
            == "未配置 whisper 模型路径"@),
        given(opt_view(whisper_exe)) && given(opt_view(whisper_model)) ==> (r matches Ok(cfg) && Some(
            cfg.exe@,
        ) == opt_view(whisper_exe) && Some(cfg.model@) == opt_view(whisper_model) && match cfg.language {
            Some(l) => whisper_language matches Some(g) && trim(g@).len() > 0 && l@ == trim(g@),
            None => !given(opt_view(whisper_language)),
        }),
{
    if !is_given(whisper_exe) {
        return Err(string_from_chars(chars_of("未配置 whisper-cli 路径").as_slice()));
    }
    if !is_given(whisper_model) {
        return Err(string_from_chars(chars_of("未配置 whisper 模型路径").as_slice()));
    }
    let exe = match whisper_exe {
        Some(e) => string_from_chars(chars_of(e).as_slice()),
        None => string_from_chars(chars_of("").as_slice()),
    };
    let model = match whisper_model {
        Some(m) => string_from_chars(chars_of(m).as_slice()),
        None => string_from_chars(chars_of("").as_slice()),
    };
    let language = match whisper_language {
        Some(g) => {
            let t = trim_chars(&chars_of(g));
            if t.len() > 0 {
                Some(string_from_chars(t.as_slice()))
            } else {
                None
            }
        },
        None => None,
    };
    Ok(LocalConfig { exe, model, language })
}

/// The recognised texts converted to Simplified Chinese, one for one.
pub fn simplify_texts(texts: &Vec<String>) -> (r: Vec<String>)
    ensures
        r@.len() == texts@.len(),
        forall|i: int| 0 <= i < texts@.len() ==> #[trigger] r@[i]@ == normalize(convert_chars(texts@[i]@)),
{
    let mut r: Vec<String> = Vec::new();
    let n = texts.len();
    let mut i: usize = 0;
    while i < n
        invariant
            n == texts@.len(),
            i <= n,
            r@.len() == i,
            forall|j: int| 0 <= j < i ==> #[trigger] r@[j]@ == normalize(convert_chars(texts@[j]@)),
        decreases n - i,
    {
        r.push(t2s(texts[i].as_str()));
        i = i + 1;
    }
    r
}

/// The progress message once recognition has produced `count` segments.
pub fn recognised_message(count: usize) -> (r: String)
    ensures
        r@ == "识别完成，共 "@ + decimal(count as nat) + " 段"@,
{
    let mut out = chars_of("识别完成，共 ");
    push_decimal(&mut out, count as u64);
    push_str(&mut out, " 段");
    string_from_chars(out.as_slice())
}

/// Whether a file may be deleted as this app's intermediate audio: only
/// when its directory, resolved, is the app's temporary subdirectory,
/// resolved. `parent` and `expected` are the resolved paths, or `None`
/// where the path has no parent or cannot be resolved, in which case the
/// file is never deleted.
pub fn is_in_temp_subdir(parent: Option<&str>, expected: Option<&str>) -> (r: bool)
    ensures
        r == (parent matches Some(p) && (expected matches Some(e) && p@ == e@)),
{
    match (parent, expected) {
        (Some(p), Some(e)) => same_chars(&chars_of(p), &chars_of(e)),
        _ => false,
    }
}

/// An age or a duration: whole seconds and nanoseconds.
pub open spec fn later(a: (u64, u32), b: (u64, u32)) -> bool {
    a.0 > b.0 || (a.0 == b.0 && a.1 > b.1)
}

/// `later` compares durations: for well-formed durations (fewer than 10⁹
/// nanoseconds) it holds exactly when `a` is strictly longer than `b`.
pub proof fn lemma_later_is_longer(a: (u64, u32), b: (u64, u32))
    requires
        a.1 < 1_000_000_000,
        b.1 < 1_000_000_000,
    ensures
        later(a, b) <==> a.0 * 1_000_000_000 + a.1 > b.0 * 1_000_000_000 + b.1,
{
    assert(later(a, b) <==> a.0 * 1_000_000_000 + a.1 > b.0 * 1_000_000_000 + b.1) by (nonlinear_arith)
        requires
            a.1 < 1_000_000_000,
            b.1 < 1_000_000_000,
            later(a, b) == (a.0 > b.0 || (a.0 == b.0 && a.1 > b.1)),
    ;
}

/// Whether a leftover temporary entry is removed: it must be a regular
/// file whose age is known (`None` when its modification time cannot be
/// read or lies in the future) and exceeds `max_age`.
pub fn should_remove_stale(is_file: bool, age: Option<(u64, u32)>, max_age: (u64, u32)) -> (r: bool)
    ensures
        r == (is_file && (age matches Some(a) && later(a, max_age))),
{
    if !is_file {
        return false;
    }
    match age {
        Some(a) => a.0 > max_age.0 || (a.0 == max_age.0 && a.1 > max_age.1),
        None => false,
    }
}

/// Whether a file name's extension (`None` where it has none) is `srt`,
/// ignoring ASCII case; subtitles are saved only under such names.
pub fn has_srt_extension(ext: Option<&str>) -> (r: bool)
    ensures
        r == (ext matches Some(e) && equals_lowered(e@, seq!['s', 'r', 't'])),
{
    match ext {
        Some(e) => eq_lowered(&chars_of(e), &['s', 'r', 't']),
        None => false,
    }
}

/// The UTF-8 byte-order mark.
pub open spec fn utf8_bom() -> Seq<u8> {
    seq![0xEFu8, 0xBBu8, 0xBFu8]
}

/// The bytes written for a saved subtitle file: the UTF-8 byte-order mark,
/// so that Windows tools read the text as UTF-8, then the UTF-8 encoding of
/// `content`.
pub fn with_utf8_bom(content: &str) -> (r: Vec<u8>)
    ensures
        r@ == utf8_bom() + vstd::utf8::encode_utf8(content@),
{
    let mut bytes: Vec<u8> = Vec::new();
    bytes.push(0xEFu8);
    bytes.push(0xBBu8);
    bytes.push(0xBFu8);
    bytes.extend_from_slice(content.as_bytes());
    assert(bytes@ =~= utf8_bom() + vstd::utf8::encode_utf8(content@));
    bytes
}

} // verus!
