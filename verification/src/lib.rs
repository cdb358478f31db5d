//! Verified text core of a video-to-subtitle workbench: SRT parsing and
//! rendering, transcript cue splitting, Traditional-to-Simplified Chinese
//! conversion, and the small decisions around ASR requests, API-key storage
//! and temporary files.

pub mod text;
pub mod convert;
pub mod srt;
pub mod asr;
pub mod cues;
pub mod timeline;
pub mod srt_parse;
pub mod srt_roundtrip;
pub mod json;
pub mod ffmpeg;
pub mod keystore;
pub mod pipeline;
