use transcription_uploader::ledger::Ledger;
use transcription_uploader::signature::{FileSignature, Timestamp};
use transcription_uploader::submit::{
    prepare_submission, reconcile_response, screen_for_upload, AdmissionDecision,
};

fn sig(stem: &str, size: u64) -> FileSignature {
    FileSignature {
        stem: stem.to_string(),
        size,
        modified: Timestamp { secs: 1_735_000_000, nanos: 0 },
    }
}

#[test]
fn test_end_to_end_upload_with_source_id() {
    let mp3 = "20241223_204051North_Carolina_VIPER_Cleveland_T-BennsKControl__TO_P52189_[52193]_FROM_2151975.mp3";
    let txt = "20241223_204051North_Carolina_VIPER_Cleveland_T-BennsKControl__TO_P52189_[52193]_FROM_2151975.txt";

    let s = sig("20241223_204051North_Carolina_VIPER_Cleveland_T-BennsKControl__TO_P52189_[52193]_FROM_2151975", 2048);
    let mut l = Ledger::new();

    // Non-empty transcript: admitted.
    assert_eq!(screen_for_upload(&mut l, &s), AdmissionDecision::Admitted);

    // The submission fields match the parsed name exactly.
    let sub = prepare_submission(mp3, txt).unwrap();
    assert_eq!(sub.timestamp, "20241223_204051");
    assert_eq!(sub.talkgroup_id, "52189");
    assert_eq!(sub.radio_id, "2151975");
    assert_eq!(sub.mp3_filename, mp3);
    assert_eq!(sub.txt_filename, txt);

    // A 200 response commits the signature and releases the admission.
    assert!(reconcile_response(&mut l, &s, 200));
    assert!(l.has_already_been_processed(&s));
    assert!(!l.is_in_flight(&s));

    // A later event for the same signature is skipped.
    assert_eq!(screen_for_upload(&mut l, &s), AdmissionDecision::AlreadyProcessed);
}

#[test]
fn test_end_to_end_default_radio_id() {
    let mp3 = "20241223_210126N2GE_MtMitchell_14519NBFM__TO_9999.mp3";
    let txt = "20241223_210126N2GE_MtMitchell_14519NBFM__TO_9999.txt";
    let sub = prepare_submission(mp3, txt).unwrap();
    assert_eq!(sub.timestamp, "20241223_210126");
    assert_eq!(sub.talkgroup_id, "9999");
    assert_eq!(sub.radio_id, "123456");
}

#[test]
fn test_empty_transcript_never_admitted() {
    let mut l = Ledger::new();
    let s = sig("a__TO_1", 0);
    // However often the event fires, an empty transcript is never admitted.
    for _ in 0..5 {
        assert_eq!(screen_for_upload(&mut l, &s), AdmissionDecision::EmptyTranscript);
        assert!(!l.is_in_flight(&s));
        assert!(!l.has_already_been_processed(&s));
    }
}

#[test]
fn test_in_flight_signature_is_not_admitted_twice() {
    let mut l = Ledger::new();
    let s = sig("a__TO_1", 10);
    assert_eq!(screen_for_upload(&mut l, &s), AdmissionDecision::Admitted);
    assert_eq!(screen_for_upload(&mut l, &s), AdmissionDecision::AlreadyInFlight);
    // Releasing (a failed upload) makes the signature eligible again.
    l.clear_in_progress(&s);
    assert_eq!(screen_for_upload(&mut l, &s), AdmissionDecision::Admitted);
}

#[test]
fn test_conflict_response_commits() {
    let mut l = Ledger::new();
    let s = sig("a__TO_1", 10);
    assert_eq!(screen_for_upload(&mut l, &s), AdmissionDecision::Admitted);
    assert!(reconcile_response(&mut l, &s, 409));
    assert!(l.has_already_been_processed(&s));
    assert!(!l.is_in_flight(&s));
}

#[test]
fn test_unexpected_status_releases_without_commit() {
    let mut l = Ledger::new();
    let s = sig("a__TO_1", 10);
    assert_eq!(screen_for_upload(&mut l, &s), AdmissionDecision::Admitted);
    assert!(!reconcile_response(&mut l, &s, 500));
    assert!(!l.has_already_been_processed(&s));
    assert!(!l.is_in_flight(&s));
    // Still eligible for a retry triggered by a later event.
    assert_eq!(screen_for_upload(&mut l, &s), AdmissionDecision::Admitted);
}

#[test]
fn test_unparsable_name_yields_no_submission() {
    assert!(prepare_submission("notes.mp3", "notes.txt").is_none());
}
