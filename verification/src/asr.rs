//! Speech recognition around the two backends: the checks and the request
//! and response handling of the Qwen ASR cloud service, and the
//! configuration, arguments and failures of the local whisper.cpp backend.

use vstd::prelude::*;
use base64::Engine;
use crate::cues::{cue_texts, split_into_cues};
use crate::json::{json_str_at, json_string_at};
use crate::text::{
    ascii_lower, chars_of, concat, decimal, eq_lowered, equals_lowered, push_decimal,
    push_signed_decimal, push_str, signed_decimal, string_from_chars, trim, trim_chars,
};

verus! {

/// Errors of speech recognition.
#[derive(Debug)]
pub enum AsrError {
    /// No API key is configured.
    MissingApiKey,
    /// Reading the audio or the recogniser's output failed; the message
    /// describes the I/O error.
    Io(String),
    /// The request to the recognition service failed; the message describes
    /// the network error.
    Network(String),
    /// The service answered with an error status.
    Api { code: String, message: String },
    /// The input or the service's answer cannot be used.
    Invalid(String),
    /// The local whisper.cpp backend failed.
    Local(String),
}

/// The cloud model used when none is chosen.
pub const DEFAULT_MODEL: &'static str = "qwen3-asr-flash";

/// The largest audio file sent to the cloud service: 50 MiB.
pub const MAX_AUDIO_BYTES: u64 = 52_428_800;

/// Refuses a blank API key.
pub fn check_api_key(api_key: &str) -> (r: Result<(), AsrError>)
    ensures
        r is Err <==> trim(api_key@).len() == 0,
        r matches Err(e) ==> e is MissingApiKey,
{
    let t = trim_chars(&chars_of(api_key));
    if t.len() == 0 {
        Err(AsrError::MissingApiKey)
    } else {
        Ok(())
    }
}

/// The size limit is 50 MiB: audio is refused exactly when it has more than
/// 50 × 1024 × 1024 bytes.
pub proof fn lemma_audio_limit_is_50_mib(len: u64)
    ensures
        len <= MAX_AUDIO_BYTES <==> len <= 50 * 1024 * 1024,
{
}

/// The chosen model, or `DEFAULT_MODEL`.
pub fn model_or_default(model: Option<&str>) -> (r: String)
    ensures
        r@ == match model {
            Some(m) => m@,
            None => DEFAULT_MODEL@,
        },
{
    match model {
        Some(m) => string_from_chars(chars_of(m).as_slice()),
        None => string_from_chars(chars_of(DEFAULT_MODEL).as_slice()),
    }
}

/// The message for an audio file of `len` bytes that is too large.
pub open spec fn too_large_message(len: nat) -> Seq<char> {
    "音频文件过大 ("@ + decimal(len / 1_048_576) + " MB)，最大支持 50 MB。请先压缩或分段处理。"@
}

/// Refuses audio files larger than `MAX_AUDIO_BYTES`.
pub fn check_audio_size(len: u64) -> (r: Result<(), AsrError>)
    ensures
        r is Ok <==> len <= MAX_AUDIO_BYTES,
        r matches Err(e) ==> (e matches AsrError::Invalid(m) && m@ == too_large_message(len as nat)),
{
    if len > MAX_AUDIO_BYTES {
        let mut out = chars_of("音频文件过大 (");
        push_decimal(&mut out, len / 1_048_576);
        push_str(&mut out, " MB)，最大支持 50 MB。请先压缩或分段处理。");
        Err(AsrError::Invalid(string_from_chars(out.as_slice())))
    } else {
        Ok(())
    }
}

/// The MIME type announced for an audio file with extension `ext`; the
/// extension is compared without regard to case, and unknown or missing
/// extensions count as WAV.
pub open spec fn mime_for(ext: Option<Seq<char>>) -> Seq<char> {
    match ext {
        Some(e) => if equals_lowered(e, seq!['m', 'p', '3']) {
            "audio/mpeg"@
        } else if equals_lowered(e, seq!['m', '4', 'a']) || equals_lowered(e, seq!['m', 'p', '4']) {
            "audio/mp4"@
        } else if equals_lowered(e, seq!['o', 'g', 'g']) || equals_lowered(e, seq!['o', 'p', 'u', 's']) {
            "audio/ogg"@
        } else if equals_lowered(e, seq!['f', 'l', 'a', 'c']) {
            "audio/flac"@
        } else if equals_lowered(e, seq!['p', 'c', 'm']) {
            "audio/L16"@
        } else if equals_lowered(e, seq!['a', 'a', 'c']) {
            "audio/aac"@
        } else {
            "audio/wav"@
        },
        None => "audio/wav"@,
    }
}

/// The MIME type of an audio file, from its extension (`None` where the
/// file name has none). The only characters that Unicode lower-casing turns
/// into a letter of a known extension are the ASCII capitals, so comparing
/// with ASCII capitals lowered decides as comparing the lower-cased
/// extension does.
pub fn detect_mime(ext: Option<&str>) -> (r: &'static str)
    ensures
        r@ == mime_for(match ext {
            Some(e) => Some(e@),
            None => None,
        }),
{
    match ext {
        None => "audio/wav",
        Some(e) => {
            let v = chars_of(e);
            if eq_lowered(&v, &['m', 'p', '3']) {
                "audio/mpeg"
            } else if eq_lowered(&v, &['m', '4', 'a']) || eq_lowered(&v, &['m', 'p', '4']) {
                "audio/mp4"
            } else if eq_lowered(&v, &['o', 'g', 'g']) || eq_lowered(&v, &['o', 'p', 'u', 's']) {
                "audio/ogg"
            } else if eq_lowered(&v, &['f', 'l', 'a', 'c']) {
                "audio/flac"
            } else if eq_lowered(&v, &['p', 'c', 'm']) {
                "audio/L16"
            } else if eq_lowered(&v, &['a', 'a', 'c']) {
                "audio/aac"
            } else {
                "audio/wav"
            }
        },
    }
}

/// `s` with its ASCII capitals lowered.
pub open spec fn lowered(s: Seq<char>) -> Seq<char> {
    Seq::new(s.len(), |i: int| ascii_lower(s[i]))
}

/// The MIME type does not depend on the case of the extension.
pub proof fn lemma_mime_ignores_case(ext: Seq<char>)
    ensures
        mime_for(Some(ext)) == mime_for(Some(lowered(ext))),
{
    let l = lowered(ext);
    assert forall|w: Seq<char>| equals_lowered(ext, w) == equals_lowered(l, w) by {
        if equals_lowered(l, w) {
            assert forall|i: int| 0 <= i < ext.len() implies ascii_lower(#[trigger] ext[i]) == w[i] by {
                assert(ascii_lower(l[i]) == w[i]);
            }
        }
    }
}

/// The character of the standard base64 alphabet (RFC 4648, table 1) for
/// the six-bit value `v`.
pub open spec fn b64_char(v: int) -> char {
    if v < 26 {
        (('A' as int) + v) as char
    } else if v < 52 {
        (('a' as int) + v - 26) as char
    } else if v < 62 {
        (('0' as int) + v - 52) as char
    } else if v == 62 {
        '+'
    } else {
        '/'
    }
}

/// The standard base64 encoding of `bytes` with padding (RFC 4648,
/// section 4): every three bytes become four characters of six bits each;
/// a last group of one or two bytes becomes two or three characters
/// followed by `=` up to four.
pub open spec fn base64_standard(bytes: Seq<u8>) -> Seq<char>
    decreases bytes.len(),
{
    if bytes.len() == 0 {
        seq![]
    } else if bytes.len() == 1 {
        let a = bytes[0] as int;
        seq![b64_char(a / 4), b64_char((a % 4) * 16), '=', '=']
    } else if bytes.len() == 2 {
        let a = bytes[0] as int;
        let b = bytes[1] as int;
        seq![b64_char(a / 4), b64_char((a % 4) * 16 + b / 16), b64_char((b % 16) * 4), '=']
    } else {
        let a = bytes[0] as int;
        let b = bytes[1] as int;
        let c = bytes[2] as int;
        seq![b64_char(a / 4), b64_char((a % 4) * 16 + b / 16), b64_char((b % 16) * 4 + c / 64), b64_char(c % 64)]
            + base64_standard(bytes.skip(3))
    }
}

/// Calls `Engine::encode` of `base64::engine::general_purpose::STANDARD`,
/// the engine with the standard alphabet and padding, and states that the
/// result is the RFC 4648 encoding of `bytes`.
#[verifier::external_body]
fn base64_encode(bytes: &[u8]) -> (r: String)
    ensures
        r@ == base64_standard(bytes@),
{
    base64::engine::general_purpose::STANDARD.encode(bytes)
}

/// The `data:` URI that carries the audio to the cloud service.
pub fn audio_data_url(mime: &str, audio: &[u8]) -> (r: String)
    ensures
        r@ == "data:"@ + mime@ + ";base64,"@ + base64_standard(audio@),
{
    let mut out = chars_of("data:");
    push_str(&mut out, mime);
    push_str(&mut out, ";base64,");
    let encoded = base64_encode(audio);
    push_str(&mut out, encoded.as_str());
    string_from_chars(out.as_slice())
}

/// Recognition options sent with a cloud request.
#[derive(Debug)]
pub struct AsrOptions {
    /// Language hint.
    pub language: Option<String>,
    /// Inverse text normalisation.
    pub enable_itn: bool,
}

/// The options of a cloud request: the trimmed language hint if it is not
/// blank, and the ITN switch; no options at all when neither is set.
pub fn asr_options(language: Option<&str>, enable_itn: bool) -> (r: Option<AsrOptions>)
    ensures
        match r {
            Some(o) => {
                &&& o.enable_itn == enable_itn
                &&& match o.language {
                    Some(l) => language matches Some(g) && trim(g@).len() > 0 && l@ == trim(g@),
                    None => !(language matches Some(g) && trim(g@).len() > 0),
                }
                &&& (o.language is Some || enable_itn)
            },
            None => !enable_itn && !(language matches Some(g) && trim(g@).len() > 0),
        },
{
    let lang = match language {
        Some(g) => {
            let t = trim_chars(&chars_of(g));
            if t.len() > 0 {
                Some(string_from_chars(t.as_slice()))
            } else {
                None
            }
        },
        None => None,
    };
    if lang.is_some() || enable_itn {
        Some(AsrOptions { language: lang, enable_itn })
    } else {
        None
    }
}

/// The summary made of the `error.message` string of a failed request's
/// body: its first 300 characters, or a fixed hint where there is no such
/// string or it is empty.
pub open spec fn message_summary(message: Option<Seq<char>>) -> Seq<char> {
    match message {
        Some(m) if m.len() > 0 => m.take(if m.len() < 300 { m.len() as int } else { 300 }),
        _ => "请求失败，请检查 API Key 与网络后重试"@,
    }
}

/// The summary reported for a failed cloud request: at most 300 characters
/// of the `error.message` string of a JSON error body, or a fixed hint when
/// there is none.
pub open spec fn error_summary(body: Seq<char>) -> Seq<char> {
    message_summary(json_string_at(body, "/error/message"@))
}

/// The summary of a failed request given the `error.message` string found
/// in its body, if any.
pub fn summarize_error_message(message: Option<String>) -> (r: String)
    ensures
        r@ == message_summary(message.deep_view()),
{
    match message {
        Some(m) => {
            let v = chars_of(m.as_str());
            if v.len() > 0 {
                let k: usize = if v.len() < 300 { v.len() } else { 300 };
                let t = crate::text::slice_chars(&v, 0, k);
                assert(t@ =~= v@.take(k as int));
                string_from_chars(t.as_slice())
            } else {
                string_from_chars(chars_of("请求失败，请检查 API Key 与网络后重试").as_slice())
            }
        },
        None => string_from_chars(chars_of("请求失败，请检查 API Key 与网络后重试").as_slice()),
    }
}

/// The error for a cloud response with a failure status: the status and a
/// short summary of the body, never the body itself.
pub fn api_error(status: String, body: &str) -> (r: AsrError)
    ensures
        (r matches AsrError::Api { code, message } && code@ == status@ && message@ == error_summary(body@)),
{
    let found = json_str_at(body, "/error/message");
    let message = summarize_error_message(found);
    AsrError::Api { code: status, message }
}

/// The `content` of a response message, as far as the transcript is
/// concerned: a string, an array whose items may carry a `text` string, or
/// any other JSON value given by its serialisation.
#[derive(Debug)]
pub enum MessageContent {
    Text(String),
    Parts(Vec<Option<String>>),
    Other(String),
}

/// The concatenation of the texts that are present.
pub open spec fn concat_present(parts: Seq<Option<String>>) -> Seq<char>
    decreases parts.len(),
{
    if parts.len() == 0 {
        seq![]
    } else {
        concat_present(parts.drop_last()) + match parts.last() {
            Some(t) => t@,
            None => seq![],
        }
    }
}

/// The transcript that a message content carries.
pub open spec fn content_text_of(c: MessageContent) -> Seq<char> {
    match c {
        MessageContent::Text(s) => s@,
        MessageContent::Parts(parts) => concat_present(parts@),
        MessageContent::Other(serialized) => serialized@,
    }
}

/// The transcript of a message content.
pub fn content_text(content: &MessageContent) -> (r: String)
    ensures
        r@ == content_text_of(*content),
{
    match content {
        MessageContent::Text(s) => s.clone(),
        MessageContent::Parts(parts) => {
            let mut out: Vec<char> = Vec::new();
            let n = parts.len();
            let mut i: usize = 0;
            while i < n
                invariant
                    n == parts@.len(),
                    i <= n,
                    out@ == concat_present(parts@.take(i as int)),
                decreases n - i,
            {
                match &parts[i] {
                    Some(t) => push_str(&mut out, t.as_str()),
                    None => {},
                }
                assert(parts@.take(i + 1).drop_last() =~= parts@.take(i as int));
                i = i + 1;
            }
            assert(parts@.take(n as int) =~= parts@);
            string_from_chars(out.as_slice())
        },
        MessageContent::Other(serialized) => serialized.clone(),
    }
}

/// The cue texts of a successful cloud response, from the content of its
/// first choice; a response without choices is invalid.
pub fn transcript_cues(choices: &Vec<MessageContent>) -> (r: Result<Vec<String>, AsrError>)
    ensures
        match r {
            Ok(cues) => choices@.len() > 0 && cues.deep_view() == cue_texts(content_text_of(choices@[0])),
            Err(e) => choices@.len() == 0 && (e matches AsrError::Invalid(m) && m@ == "empty choices"@),
        },
{
    if choices.len() == 0 {
        return Err(AsrError::Invalid(string_from_chars(chars_of("empty choices").as_slice())));
    }
    let raw = content_text(&choices[0]);
    Ok(split_into_cues(raw.as_str()))
}

/// Configuration of the local whisper.cpp backend.
#[derive(Debug, Clone)]
pub struct LocalConfig {
    /// Path of `whisper-cli`.
    pub exe: String,
    /// Path of the ggml model file.
    pub model: String,
    /// Language hint; `None` lets whisper detect the language.
    pub language: Option<String>,
}

impl LocalConfig {
    /// Checks that the executable and the model exist, given whether each
    /// path exists.
    pub fn validate(&self, exe_exists: bool, model_exists: bool) -> (r: Result<(), AsrError>)
        ensures
            r is Ok <==> exe_exists && model_exists,
            !exe_exists ==> (r matches Err(AsrError::Local(m)) && m@ == "whisper-cli 未找到: "@ + self.exe@),
            exe_exists && !model_exists ==> (r matches Err(AsrError::Local(m)) && m@
                == "whisper 模型未找到: "@ + self.model@),
    {
        if !exe_exists {
            return Err(AsrError::Local(concat("whisper-cli 未找到: ", self.exe.as_str())));
        }
        if !model_exists {
            return Err(AsrError::Local(concat("whisper 模型未找到: ", self.model.as_str())));
        }
        Ok(())
    }
}

/// The command-line arguments of a whisper-cli run that writes SRT next to
/// `out_base`.
pub open spec fn whisper_arg_list(
    model: Seq<char>,
    audio: Seq<char>,
    out_base: Seq<char>,
    language: Option<Seq<char>>,
) -> Seq<Seq<char>> {
    let base = seq!["--no-prints"@, "-m"@, model, "-f"@, audio, "-of"@, out_base, "-osrt"@];
    match language {
        Some(l) if l.len() > 0 => base + seq!["-l"@, l],
        _ => base,
    }
}

fn owned(s: &str) -> (r: String)
    ensures
        r@ == s@,
{
    string_from_chars(chars_of(s).as_slice())
}

/// The arguments for whisper-cli: quiet, the model, the audio file, the
/// output prefix, SRT output, and the language hint when it is not empty.
pub fn whisper_args(model: &str, audio: &str, out_base: &str, language: Option<&str>) -> (r: Vec<String>)
    ensures
        r.deep_view() == whisper_arg_list(model@, audio@, out_base@, match language {
            Some(l) => Some(l@),
            None => None,
        }),
{
    let mut args: Vec<String> = Vec::new();
    args.push(owned("--no-prints"));
    args.push(owned("-m"));
    args.push(owned(model));
    args.push(owned("-f"));
    args.push(owned(audio));
    args.push(owned("-of"));
    args.push(owned(out_base));
    args.push(owned("-osrt"));
    match language {
        Some(l) => {
            if !l.is_empty() {
                args.push(owned("-l"));
                args.push(owned(l));
            }
        },
        None => {},
    }
    assert(args.deep_view() =~= whisper_arg_list(model@, audio@, out_base@, match language {
        Some(l) => Some(l@),
        None => None,
    }));
    args
}

/// The message of a whisper-cli run that exited with failure: its exit code
/// as `Some(n)` or `None`, then its standard error, or its standard output
/// when standard error is empty.
pub open spec fn whisper_exit_message(code: Option<i32>, stderr: Seq<char>, stdout: Seq<char>) -> Seq<char> {
    let shown = match code {
        Some(c) => "Some("@ + signed_decimal(c as int) + ")"@,
        None => "None"@,
    };
    "whisper-cli 退出码 "@ + shown + ": "@ + if stderr.len() > 0 { stderr } else { stdout }
}

/// The error of a whisper-cli run that exited with failure.
pub fn whisper_exit_error(code: Option<i32>, stderr: &str, stdout: &str) -> (r: AsrError)
    ensures
        (r matches AsrError::Local(m) && m@ == whisper_exit_message(code, stderr@, stdout@)),
{
    let mut out = chars_of("whisper-cli 退出码 ");
    match code {
        Some(c) => {
            push_str(&mut out, "Some(");
            push_signed_decimal(&mut out, c as i64);
            push_str(&mut out, ")");
        },
        None => push_str(&mut out, "None"),
    }
    push_str(&mut out, ": ");
    if stderr.is_empty() {
        push_str(&mut out, stdout);
    } else {
        push_str(&mut out, stderr);
    }
    let r = string_from_chars(out.as_slice());
    assert(r@ =~= whisper_exit_message(code, stderr@, stdout@));
    AsrError::Local(r)
}

} // verus!
