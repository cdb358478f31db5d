# video_to_srt

The text core of a desktop workbench that turns a video into Simplified
Chinese SRT subtitles (audio extraction with ffmpeg, recognition with the
Qwen ASR cloud service or a local whisper.cpp, Traditional-to-Simplified
conversion, SRT export), written in Verus with its contracts proved.

## Layout

- `src/` — the verified library
  - `text.rs` — Unicode whitespace and trimming, decimal rendering, string helpers
  - `convert.rs` — Traditional-to-Simplified conversion with the context rule for 乾
    and NFKC normalisation that keeps CJK punctuation
  - `cues.rs` — cutting a plain transcript into cues at sentence ends
  - `timeline.rs` — the SRT time-line grammar, with the Unicode digit class of `regex`
  - `srt_parse.rs` — reading the SRT files that whisper.cpp writes
  - `srt.rs` — `HH:MM:SS,mmm` timestamps and SRT documents whose every line
    break, those inside cue texts included, is CRLF
  - `srt_roundtrip.rs` — a rendered document parses back into its cues
  - `asr.rs` — request and response handling for the cloud backend, the local
    backend's configuration, arguments and failures
  - `keystore.rs` — where the API key is read from and how legacy plain-text
    copies are migrated
  - `ffmpeg.rs` — where ffmpeg and ffprobe are looked for
  - `pipeline.rs` — backend choice, local configuration, temporary-file guards,
    saving with a UTF-8 byte-order mark
  - `json.rs` — the two JSON computations made with `serde_json`
- `tests/` — scenarios run against the compiled library
- `app/` — the Tauri application: commands, file, process and network I/O,
  and the floating-point handling of cue times in seconds
