//! Where the ffmpeg tools are looked for, and what a run means.

use video_to_srt::ffmpeg::{
    binary_candidates, executable_name, first_existing, run_outcome, BaseDir, FfmpegError, Tool,
};

fn shape(c: &video_to_srt::ffmpeg::Candidate) -> (&'static str, Vec<String>) {
    let base = match c.base {
        BaseDir::ResourceDir => "resource",
        BaseDir::ManifestDir => "manifest",
        BaseDir::CurrentDir => "cwd",
    };
    (base, c.parts.clone())
}

#[test]
fn ffmpeg_search_order() {
    let c: Vec<_> = binary_candidates(&Tool::Ffmpeg, true, true, true, true).iter().map(shape).collect();
    assert_eq!(
        c,
        vec![
            ("resource", vec!["binaries".to_string(), "ffmpeg.exe".to_string()]),
            ("resource", vec!["binaries".to_string(), "ffmpeg_x64.exe".to_string()]),
            ("manifest", vec!["binaries".to_string(), "ffmpeg.exe".to_string()]),
            ("cwd", vec!["src-tauri".to_string(), "binaries".to_string(), "ffmpeg.exe".to_string()]),
            ("cwd", vec!["binaries".to_string(), "ffmpeg.exe".to_string()]),
        ]
    );
}

#[test]
fn ffprobe_search_order_without_resource_dir() {
    let c: Vec<_> = binary_candidates(&Tool::Ffprobe, false, false, true, true).iter().map(shape).collect();
    assert_eq!(
        c,
        vec![
            ("manifest", vec!["binaries".to_string(), "ffprobe".to_string()]),
            ("cwd", vec!["src-tauri".to_string(), "binaries".to_string(), "ffprobe".to_string()]),
        ]
    );
    assert_eq!(executable_name(&Tool::Ffprobe, true), "ffprobe.exe");
}

#[test]
fn first_existing_candidate() {
    assert_eq!(first_existing(&vec![false, true, true]), Some(1));
    assert_eq!(first_existing(&vec![false, false]), None);
    assert_eq!(first_existing(&vec![]), None);
}

#[test]
fn failed_run_keeps_code_and_stderr() {
    assert!(run_outcome(true, Some(0), String::new()).is_ok());
    match run_outcome(false, Some(1), "bad input".to_string()) {
        Err(FfmpegError::Failed { code, stderr }) => {
            assert_eq!(code, Some(1));
            assert_eq!(stderr, "bad input");
        }
        other => panic!("unexpected {:?}", other),
    }
}
