use transcription_uploader::parse::parse_filename;

#[test]
fn test_specific_filename_examples() {
    // Real-world example with _FROM_
    let filename = "20241223_204051North_Carolina_VIPER_Cleveland_T-BennsKControl__TO_P52189_[52193]_FROM_2151975.mp3";
    let (timestamp, talkgroup_id, radio_id) = parse_filename(filename).unwrap();
    assert_eq!(timestamp, "20241223_204051");
    assert_eq!(talkgroup_id, "52189");
    assert_eq!(radio_id, "2151975");

    // Real-world example without _FROM_
    let filename = "20241223_210126N2GE_MtMitchell_14519NBFM__TO_9999.mp3";
    let (timestamp, talkgroup_id, radio_id) = parse_filename(filename).unwrap();
    assert_eq!(timestamp, "20241223_210126");
    assert_eq!(talkgroup_id, "9999");
    assert_eq!(radio_id, "123456"); // Default value
}

#[test]
fn test_parse_filename_edge_cases() {
    // Invalid format (missing __TO_)
    let filename = "20241223_210126N2GE_MtMitchell_14519NBFM_INVALID_9999.mp3";
    assert!(parse_filename(filename).is_none());

    // Invalid timestamp format
    let filename = "INVALID_TIMESTAMPNorth_Carolina_VIPER__TO_52198_FROM_2151878.mp3";
    assert!(parse_filename(filename).is_none());

    // Empty string
    assert!(parse_filename("").is_none());
}

#[test]
fn test_prefix_letter_is_stripped() {
    let (_, talkgroup, _) = parse_filename("20240101_000000site__TO_a41_FROM_7.mp3").unwrap();
    assert_eq!(talkgroup, "41");
    let (_, talkgroup, _) = parse_filename("20240101_000000site__TO_Z9.mp3").unwrap();
    assert_eq!(talkgroup, "9");
}

#[test]
fn test_timestamp_round_trips_verbatim() {
    let (timestamp, _, _) = parse_filename("99999999_999999__TO_1.mp3").unwrap();
    assert_eq!(timestamp, "99999999_999999");
}

#[test]
fn test_missing_radio_digits_fall_back_to_default() {
    // `_FROM_` with no digit after it does not count as a source delimiter.
    let (_, _, radio) = parse_filename("20240101_000000x__TO_5_FROM_.mp3").unwrap();
    assert_eq!(radio, "123456");
}

#[test]
fn test_short_or_malformed_timestamp_is_rejected() {
    // Too short to hold the token at all.
    assert!(parse_filename("20240101_00000").is_none());
    // Underscore in the wrong place.
    assert!(parse_filename("202401010_00000__TO_5.mp3").is_none());
    // Timestamp not at the start.
    assert!(parse_filename("x20240101_000000__TO_5.mp3").is_none());
}

#[test]
fn test_delimiter_without_talkgroup_is_rejected() {
    // `__TO_` present but no digits after it.
    assert!(parse_filename("20240101_000000site__TO_.mp3").is_none());
    // Letter prefix without digits.
    assert!(parse_filename("20240101_000000site__TO_Pq.mp3").is_none());
}

#[test]
fn test_rightmost_destination_delimiter_wins() {
    let (_, talkgroup, _) = parse_filename("20240101_000000a__TO_11b__TO_22.mp3").unwrap();
    assert_eq!(talkgroup, "22");
    // A later delimiter with no talkgroup does not displace an earlier good one.
    let (_, talkgroup, _) = parse_filename("20240101_000000a__TO_11b__TO_x.mp3").unwrap();
    assert_eq!(talkgroup, "11");
}

#[test]
fn test_annotation_between_talkgroup_and_source_is_discarded() {
    let (_, talkgroup, radio) =
        parse_filename("20240101_000000s__TO_B77_[99]_FROM_31415.mp3").unwrap();
    assert_eq!(talkgroup, "77");
    assert_eq!(radio, "31415");
    // Without an underscore before the bracket, same outcome.
    let (_, talkgroup, radio) =
        parse_filename("20240101_000000s__TO_B77[99]_FROM_31415.mp3").unwrap();
    assert_eq!(talkgroup, "77");
    assert_eq!(radio, "31415");
}

#[test]
fn test_annotation_carries_no_output_value() {
    // A `_FROM_` inside the bracketed annotation is part of the annotation,
    // not a source delimiter: the radio id comes from the real one after it.
    let (_, talkgroup, radio) = parse_filename("20240101_000000a__TO_5[_FROM_9]_FROM_7.mp3")
        .unwrap();
    assert_eq!(talkgroup, "5");
    assert_eq!(radio, "7");

    // With no source delimiter after the annotation, the default applies,
    // whatever the annotation holds.
    let (_, _, radio) = parse_filename("20240101_000000a__TO_5[_FROM_9].mp3").unwrap();
    assert_eq!(radio, "123456");
}
