//! Pure decision steps of the upload submitter. The submitter's outside work
//! — reading the paired files, sending the multipart request — stays with the
//! caller, which feeds the outcomes back into these functions: an admission
//! screen before the upload, the submission fields for the request, and the
//! ledger reconciliation after the response.

use vstd::prelude::*;
use vstd::string::StringExecFns;

use crate::ledger::{committed, Ledger, LedgerView, HISTORY_BOUND};
use crate::parse::{parse_filename, parse_ok, radio_of, tg_of, ts_of};
use crate::signature::{FileSignature, SigView};

verus! {

/// Outcome of the admission screen for a stabilized pair.
#[derive(Clone, Copy, PartialEq, Eq, Structural, Debug)]
pub enum AdmissionDecision {
    /// The transcript is empty: skip silently, admit nothing.
    EmptyTranscript,
    /// An equal signature was already uploaded: skip.
    AlreadyProcessed,
    /// An equal signature is being uploaded right now: skip.
    AlreadyInFlight,
    /// Admitted: the signature is now in flight and the upload may proceed.
    Admitted,
}

/// The decision the admission screen owes for a signature against a ledger.
pub open spec fn screen_decision(v: LedgerView, s: SigView) -> AdmissionDecision {
    if s.size == 0 {
        AdmissionDecision::EmptyTranscript
    } else if v.history.contains(s) {
        AdmissionDecision::AlreadyProcessed
    } else if v.inflight.contains(s) {
        AdmissionDecision::AlreadyInFlight
    } else {
        AdmissionDecision::Admitted
    }
}

/// Admission screen for one stabilized transcript: rejects an empty
/// transcript outright, skips a signature that was already uploaded or is
/// being uploaded, and otherwise admits it into the in-flight set in the same
/// step. Only an `Admitted` answer changes the ledger.
pub fn screen_for_upload(ledger: &mut Ledger, sig: &FileSignature) -> (d: AdmissionDecision)
    requires
        old(ledger).wf(),
    ensures
        final(ledger).wf(),
        d == screen_decision(old(ledger)@, sig@),
        final(ledger)@.history == old(ledger)@.history,
        d == AdmissionDecision::Admitted ==> final(ledger)@.inflight == old(
            ledger,
        )@.inflight.insert(sig@),
        d != AdmissionDecision::Admitted ==> final(ledger)@.inflight == old(ledger)@.inflight,
{
    if sig.size == 0 {
        return AdmissionDecision::EmptyTranscript;
    }
    if ledger.has_already_been_processed(sig) {
        return AdmissionDecision::AlreadyProcessed;
    }
    if ledger.try_admit(sig) {
        AdmissionDecision::Admitted
    } else {
        proof {
            crate::seq_set::lemma_insert_member(old(ledger)@.inflight, sig@);
        }
        AdmissionDecision::AlreadyInFlight
    }
}

/// True for the response statuses that confirm the server holds the file: a
/// success (2xx) or the explicit already-exists conflict (409).
pub open spec fn response_commits(status: u16) -> bool {
    (200 <= status && status <= 299) || status == 409
}

/// Reconciles the ledger with the response to an admitted upload: a success
/// or conflict status commits the signature to the history; any other status
/// commits nothing, leaving the file eligible for a later retry. Either way
/// the in-flight admission is released.
pub fn reconcile_response(ledger: &mut Ledger, sig: &FileSignature, status: u16) -> (c: bool)
    requires
        old(ledger).wf(),
    ensures
        final(ledger).wf(),
        c == response_commits(status),
        c ==> final(ledger)@.history == committed(old(ledger)@.history, sig@),
        !c ==> final(ledger)@.history == old(ledger)@.history,
        final(ledger)@.inflight == old(ledger)@.inflight.remove(sig@),
        final(ledger)@.history.len() <= HISTORY_BOUND,
{
    let c = (200 <= status && status <= 299) || status == 409;
    if c {
        ledger.mark_as_processed(sig.duplicate());
    } else {
        proof {
            ledger.lemma_history_bound();
        }
    }
    ledger.clear_in_progress(sig);
    c
}

/// One outbound submission, ready for the transport layer: the three parsed
/// form fields and the filenames under which the two files' raw bytes travel.
pub struct Submission {
    /// Parsed talkgroup digits, letter prefix stripped.
    pub talkgroup_id: String,
    /// The literal `YYYYMMDD_HHMMSS` token of the recording's name.
    pub timestamp: String,
    /// Parsed radio digits, or the fixed default.
    pub radio_id: String,
    /// Name under which the recording bytes travel.
    pub mp3_filename: String,
    /// Name under which the transcript bytes travel.
    pub txt_filename: String,
}

/// Parses the recording's filename and, on a match, builds the submission
/// fields exactly as the endpoint expects them; `None` exactly when the name
/// does not match the grammar, in which case no upload may happen.
pub fn prepare_submission(mp3_filename: &str, txt_filename: &str) -> (r: Option<Submission>)
    ensures
        r is Some <==> parse_ok(mp3_filename@),
        r matches Some(s) ==> {
            &&& s.timestamp@ == ts_of(mp3_filename@)
            &&& s.talkgroup_id@ == tg_of(mp3_filename@)
            &&& s.radio_id@ == radio_of(mp3_filename@)
            &&& s.mp3_filename@ == mp3_filename@
            &&& s.txt_filename@ == txt_filename@
        },
{
    match parse_filename(mp3_filename) {
        None => None,
        Some(t) => {
            let (timestamp, talkgroup_id, radio_id) = t;
            Some(
                Submission {
                    talkgroup_id,
                    timestamp,
                    radio_id,
                    mp3_filename: String::from_str(mp3_filename),
                    txt_filename: String::from_str(txt_filename),
                },
            )
        },
    }
}

/// An empty transcript never triggers admission or submission: whatever the
/// ledger holds, and however often the file's change event fires, the screen
/// answers `EmptyTranscript`, and by the screen's contract the ledger is then
/// left unchanged.
pub proof fn lemma_empty_transcript_never_admitted(v: LedgerView, s: SigView)
    requires
        s.size == 0,
    ensures
        screen_decision(v, s) == AdmissionDecision::EmptyTranscript,
{
}

} // verus!
