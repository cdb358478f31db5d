//! The SRT time-line grammar.

use video_to_srt::srt_parse::parse_srt;
use video_to_srt::timeline::{ascii_digits_agree, srt_ts_capture};

fn caps(text: &str) -> Option<Vec<String>> {
    srt_ts_capture(text)
}

fn owned(v: [&str; 8]) -> Option<Vec<String>> {
    Some(v.iter().map(|s| s.to_string()).collect())
}

#[test]
fn time_line_with_commas() {
    assert_eq!(
        caps("00:00:01,000 --> 00:00:02,500"),
        owned(["00", "00", "01", "000", "00", "00", "02", "500"])
    );
}

#[test]
fn time_line_with_dots_and_short_fractions() {
    assert_eq!(
        caps("1:02:03.4 --> 12:00:00,56"),
        owned(["1", "02", "03", "4", "12", "00", "00", "56"])
    );
}

#[test]
fn time_line_without_spaces_around_the_arrow() {
    assert_eq!(
        caps("00:00:01,000-->00:00:02,000"),
        owned(["00", "00", "01", "000", "00", "00", "02", "000"])
    );
}

#[test]
fn closing_fraction_takes_at_most_three_digits() {
    assert_eq!(
        caps("00:00:01,000 --> 00:00:02,12345 tail"),
        owned(["00", "00", "01", "000", "00", "00", "02", "123"])
    );
}

#[test]
fn opening_fraction_of_four_digits_is_no_time_line() {
    assert_eq!(caps("00:00:01,0000 --> 00:00:02,000"), None);
}

#[test]
fn one_digit_minutes_are_no_time_line() {
    assert_eq!(caps("00:0:01,000 --> 00:00:02,000"), None);
}

#[test]
fn missing_fraction_is_no_time_line() {
    assert_eq!(caps("00:00:01 --> 00:00:02"), None);
}

#[test]
fn time_line_must_start_a_line() {
    assert_eq!(caps("x 00:00:01,000 --> 00:00:02,000"), None);
    assert_eq!(
        caps("x\n00:00:01,000 --> 00:00:02,000"),
        owned(["00", "00", "01", "000", "00", "00", "02", "000"])
    );
}

#[test]
fn first_time_line_wins() {
    assert_eq!(
        caps("1\n00:00:01,000 --> 00:00:02,000\n00:00:03,000 --> 00:00:04,000"),
        owned(["00", "00", "01", "000", "00", "00", "02", "000"])
    );
}

#[test]
fn arrow_may_follow_a_line_feed() {
    assert_eq!(
        caps("00:00:01,000\n--> 00:00:02,000"),
        owned(["00", "00", "01", "000", "00", "00", "02", "000"])
    );
}

#[test]
fn unicode_decimal_digits_count_as_digits() {
    // Arabic-Indic and full-width digits are in the class `\d`.
    assert_eq!(
        caps("\u{661}:\u{660}\u{662}:\u{660}\u{663},\u{665} --> \u{ff11}:\u{ff10}\u{ff10}:\u{ff10}\u{ff10},\u{ff10}"),
        owned([
            "\u{661}", "\u{660}\u{662}", "\u{660}\u{663}", "\u{665}",
            "\u{ff11}", "\u{ff10}\u{ff10}", "\u{ff10}\u{ff10}", "\u{ff10}",
        ])
    );
    // Superscript two is a digit in other senses, but not of category Nd.
    assert_eq!(caps("\u{b2}:00:01,000 --> 00:00:02,000"), None);
}

#[test]
fn no_time_line_in_plain_text() {
    assert_eq!(caps("hello world"), None);
    assert_eq!(caps(""), None);
}

#[test]
fn parse_srt_takes_dot_separated_short_fractions() {
    let cues = parse_srt("1\n00:00:01.5 --> 00:00:02.25\nHi\n");
    assert_eq!(cues.len(), 1);
    assert_eq!(cues[0].start.fraction, "5");
    assert_eq!(cues[0].end.fraction, "25");
    assert_eq!(cues[0].text, "Hi");
}

#[test]
fn parse_srt_skips_block_whose_opening_fraction_is_too_long() {
    assert!(parse_srt("1\n00:00:01,0000 --> 00:00:02,000\nHi\n").is_empty());
}

#[test]
fn digit_class_takes_exactly_the_ascii_digits() {
    assert!(ascii_digits_agree());
}
