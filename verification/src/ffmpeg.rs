//! Where the bundled `ffmpeg` and `ffprobe` executables are looked for, and
//! what a finished `ffmpeg` run means.

use vstd::prelude::*;
use crate::text::{chars_of, string_from_chars};

verus! {

/// Errors of the `ffmpeg` tools.
#[derive(Debug)]
pub enum FfmpegError {
    /// Neither a bundled copy nor one on `PATH` was found.
    NotFound,
    /// `ffmpeg` exited with failure.
    Failed { code: Option<i32>, stderr: String },
    /// Starting `ffmpeg` or preparing its output failed; the message
    /// describes the I/O error.
    Io(String),
}

/// The two tools.
#[derive(Debug)]
pub enum Tool {
    Ffmpeg,
    Ffprobe,
}

/// The directory a candidate path starts from.
#[derive(Debug)]
pub enum BaseDir {
    /// `TAURI_BUNDLE_RESOURCE_DIR`: the production bundle.
    ResourceDir,
    /// `CARGO_MANIFEST_DIR`: a development build.
    ManifestDir,
    /// The current directory (`tauri dev`).
    CurrentDir,
}

/// A place where a tool may be: a base directory and the path components
/// joined to it.
#[derive(Debug)]
pub struct Candidate {
    pub base: BaseDir,
    pub parts: Vec<String>,
}

/// The executable file name of `tool` on Windows (`windows`) or elsewhere.
pub open spec fn executable_name_of(tool: Tool, windows: bool) -> Seq<char> {
    match tool {
        Tool::Ffmpeg => if windows { "ffmpeg.exe"@ } else { "ffmpeg"@ },
        Tool::Ffprobe => if windows { "ffprobe.exe"@ } else { "ffprobe"@ },
    }
}

/// The executable file name of `tool`.
pub fn executable_name(tool: &Tool, windows: bool) -> (r: &'static str)
    ensures
        r@ == executable_name_of(*tool, windows),
{
    match tool {
        Tool::Ffmpeg => if windows { "ffmpeg.exe" } else { "ffmpeg" },
        Tool::Ffprobe => if windows { "ffprobe.exe" } else { "ffprobe" },
    }
}

/// What a candidate stands for: its base directory and its components.
pub open spec fn candidate_view(c: Candidate) -> (BaseDir, Seq<Seq<char>>) {
    (c.base, c.parts.deep_view())
}

/// Where `tool` is looked for, in order, given which base directories are
/// known. `ffmpeg` is looked for in `<resource>/binaries` (also as the
/// sidecar `ffmpeg_x64.exe`), `<manifest>/binaries`,
/// `<cwd>/src-tauri/binaries` and `<cwd>/binaries`; `ffprobe` in
/// `<resource>/binaries`, `<manifest>/binaries` and
/// `<cwd>/src-tauri/binaries`. After these, `PATH` is searched.
pub open spec fn candidate_list(
    tool: Tool,
    windows: bool,
    has_resource: bool,
    has_manifest: bool,
    has_cwd: bool,
) -> Seq<(BaseDir, Seq<Seq<char>>)> {
    let name = executable_name_of(tool, windows);
    let resource = if has_resource {
        match tool {
            Tool::Ffmpeg => seq![(BaseDir::ResourceDir, seq!["binaries"@, name]),
                (BaseDir::ResourceDir, seq!["binaries"@, "ffmpeg_x64.exe"@])],
            Tool::Ffprobe => seq![(BaseDir::ResourceDir, seq!["binaries"@, name])],
        }
    } else {
        seq![]
    };
    let manifest = if has_manifest {
        seq![(BaseDir::ManifestDir, seq!["binaries"@, name])]
    } else {
        seq![]
    };
    let cwd = if has_cwd {
        match tool {
            Tool::Ffmpeg => seq![(BaseDir::CurrentDir, seq!["src-tauri"@, "binaries"@, name]),
                (BaseDir::CurrentDir, seq!["binaries"@, name])],
            Tool::Ffprobe => seq![(BaseDir::CurrentDir, seq!["src-tauri"@, "binaries"@, name])],
        }
    } else {
        seq![]
    };
    resource + manifest + cwd
}

/// Where `ffmpeg` is looked for, place by place: with the resource
/// directory known, first `<resource>/binaries/ffmpeg[.exe]`, then the
/// sidecar `<resource>/binaries/ffmpeg_x64.exe`; then, with the manifest
/// directory known, `<manifest>/binaries/ffmpeg[.exe]`; then, with the
/// current directory known, `<cwd>/src-tauri/binaries/ffmpeg[.exe]` and
/// `<cwd>/binaries/ffmpeg[.exe]`; and nothing else.
pub proof fn lemma_ffmpeg_candidates(windows: bool, has_resource: bool, has_manifest: bool, has_cwd: bool)
    ensures
        ({
            let l = candidate_list(Tool::Ffmpeg, windows, has_resource, has_manifest, has_cwd);
            let exe = if windows { "ffmpeg.exe"@ } else { "ffmpeg"@ };
            let r: int = if has_resource { 2 } else { 0 };
            let m: int = r + if has_manifest { 1int } else { 0int };
            &&& l.len() == m + if has_cwd { 2int } else { 0int }
            &&& has_resource ==> l[0] == (BaseDir::ResourceDir, seq!["binaries"@, exe])
            &&& has_resource ==> l[1] == (BaseDir::ResourceDir, seq!["binaries"@, "ffmpeg_x64.exe"@])
            &&& has_manifest ==> l[r] == (BaseDir::ManifestDir, seq!["binaries"@, exe])
            &&& has_cwd ==> l[m] == (BaseDir::CurrentDir, seq!["src-tauri"@, "binaries"@, exe])
            &&& has_cwd ==> l[m + 1] == (BaseDir::CurrentDir, seq!["binaries"@, exe])
        }),
{
}

/// Where `ffprobe` is looked for, place by place: with the resource
/// directory known, first `<resource>/binaries/ffprobe[.exe]`; then, with
/// the manifest directory known, `<manifest>/binaries/ffprobe[.exe]`; then,
/// with the current directory known, `<cwd>/src-tauri/binaries/ffprobe[.exe]`;
/// and nothing else.
pub proof fn lemma_ffprobe_candidates(windows: bool, has_resource: bool, has_manifest: bool, has_cwd: bool)
    ensures
        ({
            let l = candidate_list(Tool::Ffprobe, windows, has_resource, has_manifest, has_cwd);
            let exe = if windows { "ffprobe.exe"@ } else { "ffprobe"@ };
            let r: int = if has_resource { 1 } else { 0 };
            let m: int = r + if has_manifest { 1int } else { 0int };
            &&& l.len() == m + if has_cwd { 1int } else { 0int }
            &&& has_resource ==> l[0] == (BaseDir::ResourceDir, seq!["binaries"@, exe])
            &&& has_manifest ==> l[r] == (BaseDir::ManifestDir, seq!["binaries"@, exe])
            &&& has_cwd ==> l[m] == (BaseDir::CurrentDir, seq!["src-tauri"@, "binaries"@, exe])
        }),
{
}

fn owned(s: &str) -> (r: String)
    ensures
        r@ == s@,
{
    string_from_chars(chars_of(s).as_slice())
}

fn candidate2(base: BaseDir, a: &str, b: &str) -> (r: Candidate)
    ensures
        candidate_view(r) == (base, seq![a@, b@]),
{
    let mut parts: Vec<String> = Vec::new();
    parts.push(owned(a));
    parts.push(owned(b));
    assert(parts.deep_view() =~= seq![a@, b@]);
    Candidate { base, parts }
}

fn candidate3(base: BaseDir, a: &str, b: &str, c: &str) -> (r: Candidate)
    ensures
        candidate_view(r) == (base, seq![a@, b@, c@]),
{
    let mut parts: Vec<String> = Vec::new();
    parts.push(owned(a));
    parts.push(owned(b));
    parts.push(owned(c));
    assert(parts.deep_view() =~= seq![a@, b@, c@]);
    Candidate { base, parts }
}

/// The places where `tool` is looked for, in order, before `PATH`.
pub fn binary_candidates(
    tool: &Tool,
    windows: bool,
    has_resource: bool,
    has_manifest: bool,
    has_cwd: bool,
) -> (r: Vec<Candidate>)
    ensures
        r@.map_values(|c: Candidate| candidate_view(c)) == candidate_list(
            *tool,
            windows,
            has_resource,
            has_manifest,
            has_cwd,
        ),
{
    let name = executable_name(tool, windows);
    let is_ffmpeg = match tool {
        Tool::Ffmpeg => true,
        Tool::Ffprobe => false,
    };
    let mut r: Vec<Candidate> = Vec::new();
    if has_resource {
        r.push(candidate2(BaseDir::ResourceDir, "binaries", name));
        if is_ffmpeg {
            r.push(candidate2(BaseDir::ResourceDir, "binaries", "ffmpeg_x64.exe"));
        }
    }
    if has_manifest {
        r.push(candidate2(BaseDir::ManifestDir, "binaries", name));
    }
    if has_cwd {
        r.push(candidate3(BaseDir::CurrentDir, "src-tauri", "binaries", name));
        if is_ffmpeg {
            r.push(candidate2(BaseDir::CurrentDir, "binaries", name));
        }
    }
    assert(r@.map_values(|c: Candidate| candidate_view(c)) =~= candidate_list(
        *tool,
        windows,
        has_resource,
        has_manifest,
        has_cwd,
    ));
    r
}

/// The position of the first `true` in `exists`, if any.
pub fn first_existing(exists: &Vec<bool>) -> (r: Option<usize>)
    ensures
        match r {
            Some(i) => i < exists@.len() && exists@[i as int] && forall|j: int| 0 <= j < i ==> !exists@[j],
            None => forall|j: int| 0 <= j < exists@.len() ==> !exists@[j],
        },
{
    let n = exists.len();
    let mut i: usize = 0;
    while i < n
        invariant
            n == exists@.len(),
            i <= n,
            forall|j: int| 0 <= j < i ==> !exists@[j],
        decreases n - i,
    {
        if exists[i] {
            return Some(i);
        }
        i = i + 1;
    }
    None
}

/// The outcome of an `ffmpeg` run: success, or the failure with its exit
/// code and its standard error.
pub fn run_outcome(success: bool, code: Option<i32>, stderr: String) -> (r: Result<(), FfmpegError>)
    ensures
        r is Ok <==> success,
        !success ==> (r matches Err(FfmpegError::Failed { code: c, stderr: e }) && c == code && e == stderr),
{
    if success {
        Ok(())
    } else {
        Err(FfmpegError::Failed { code, stderr })
    }
}

} // verus!
