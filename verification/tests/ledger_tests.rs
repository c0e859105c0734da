use transcription_uploader::ledger::Ledger;
use transcription_uploader::signature::{FileSignature, Timestamp};

fn sig(stem: &str, size: u64, secs: u64, nanos: u32) -> FileSignature {
    FileSignature {
        stem: stem.to_string(),
        size,
        modified: Timestamp { secs, nanos },
    }
}

#[test]
fn test_admission_is_idempotent_until_release() {
    let mut l = Ledger::new();
    let s = sig("a", 10, 100, 0);
    assert!(l.try_admit(&s));
    // Immediately repeated admission of the same signature is refused.
    assert!(!l.try_admit(&s));
    assert!(l.is_in_flight(&s));
    l.clear_in_progress(&s);
    assert!(!l.is_in_flight(&s));
    // After release the signature can be admitted again.
    assert!(l.try_admit(&s));
}

#[test]
fn test_release_is_idempotent() {
    let mut l = Ledger::new();
    let s = sig("a", 10, 100, 0);
    l.clear_in_progress(&s); // no-op on an empty set
    assert!(l.try_admit(&s));
    l.clear_in_progress(&s);
    l.clear_in_progress(&s); // second release is a no-op
    assert!(!l.is_in_flight(&s));
}

#[test]
fn test_commit_marks_exactly_that_signature() {
    let mut l = Ledger::new();
    let s = sig("stem", 42, 1_700_000_000, 500);
    l.mark_as_processed(s.duplicate());
    assert!(l.has_already_been_processed(&s));
    // Any difference in stem, size or modified time is a different file.
    assert!(!l.has_already_been_processed(&sig("stem2", 42, 1_700_000_000, 500)));
    assert!(!l.has_already_been_processed(&sig("stem", 43, 1_700_000_000, 500)));
    assert!(!l.has_already_been_processed(&sig("stem", 42, 1_700_000_001, 500)));
    assert!(!l.has_already_been_processed(&sig("stem", 42, 1_700_000_000, 501)));
}

#[test]
fn test_history_is_bounded_and_evicts_oldest() {
    let mut l = Ledger::new();
    for i in 0..25u64 {
        l.mark_as_processed(sig("s", i, 0, 0));
        assert!(l.history_len() <= 25);
    }
    assert_eq!(l.history_len(), 25);
    assert!(l.has_already_been_processed(&sig("s", 0, 0, 0)));

    // The 26th commit evicts the oldest of the original 25.
    l.mark_as_processed(sig("s", 25, 0, 0));
    assert_eq!(l.history_len(), 25);
    assert!(!l.has_already_been_processed(&sig("s", 0, 0, 0)));
    for i in 1..26u64 {
        assert!(l.has_already_been_processed(&sig("s", i, 0, 0)));
    }
}
