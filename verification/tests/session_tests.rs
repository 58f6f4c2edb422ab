use grammy::reconcile::ApplyStatus;
use grammy::session::{CheckOutcome, CheckSession, ResponseAction, SessionStatus};
use grammy::suggestion::{LlmMatch, Severity};

fn lm(message: &str, original: &str, replacement: Option<&str>) -> LlmMatch {
    LlmMatch {
        message: message.to_string(),
        original: original.as_bytes().to_vec(),
        replacement: replacement.map(|r| r.as_bytes().to_vec()),
        severity: Severity::Error,
    }
}

fn text(s: &str) -> Vec<u8> {
    s.as_bytes().to_vec()
}

#[test]
fn debounce_issues_a_check_only_after_the_quiet_period() {
    let mut session = CheckSession::new(100, Vec::new());
    session.on_edit(text("I has a cat."), 1000);
    assert!(session.tick(1050).is_none());
    let req = session.tick(1100).expect("debounce expired");
    assert_eq!(req.request_id, 0);
    assert_eq!(req.text, text("I has a cat."));
    assert!(session.is_checking);
    assert!(matches!(session.status, SessionStatus::Checking));
    // the timer was cleared: no second request
    assert!(session.tick(1200).is_none());
}

#[test]
fn a_large_debounce_interval_disables_automatic_checking() {
    let mut session = CheckSession::new(60_000, Vec::new());
    session.on_edit(text("I has a cat."), 0);
    assert!(session.tick(120_000).is_none());
    assert!(!session.is_checking);
}

#[test]
fn blank_text_is_never_checked() {
    let mut session = CheckSession::new(100, Vec::new());
    session.on_edit(text("  \n\t "), 0);
    assert!(session.tick(100).is_none());
    assert!(!session.is_checking);
    assert!(matches!(session.status, SessionStatus::Ready));
}

#[test]
fn unchanged_text_is_not_rechecked() {
    let mut session = CheckSession::new(100, Vec::new());
    session.on_edit(text("I has a cat."), 0);
    let req = session.tick(100).expect("first check");
    let outcome = CheckOutcome::Success { request_id: req.request_id, matches: vec![] };
    session.handle_response(outcome, 150);
    // editing to the same text records an edit time, but the idempotence
    // guard suppresses the request
    session.on_edit(text("I has a cat?"), 200);
    session.on_edit(text("I has a cat."), 210);
    assert!(session.tick(310).is_none());
    assert!(!session.is_checking);
}

#[test]
fn a_successful_response_installs_normalized_suggestions() {
    let mut session = CheckSession::new(100, Vec::new());
    session.on_edit(text("I has a cat."), 0);
    let req = session.tick(100).expect("check issued");
    let outcome = CheckOutcome::Success {
        request_id: req.request_id,
        matches: vec![
            lm("long", "I has", Some("I have")),
            lm("short", "has", Some("have")),
        ],
    };
    let action = session.handle_response(outcome, 200);
    match action {
        ResponseAction::Installed { checked_text } => {
            assert_eq!(checked_text, text("I has a cat."));
        }
        _ => panic!("expected installation"),
    }
    assert_eq!(session.suggestions.len(), 1);
    assert_eq!(session.suggestions[0].original, text("I has"));
    assert!(matches!(session.status, SessionStatus::SuggestionsFound));
    assert!(!session.is_checking);
}

#[test]
fn a_stale_response_never_reaches_the_suggestion_set() {
    let mut session = CheckSession::new(100, Vec::new());
    // request 0 goes out
    session.on_edit(text("first text"), 0);
    let first = session.tick(100).expect("first check");
    assert_eq!(first.request_id, 0);
    // the document changes during the flight; the flight fails, and the
    // rearmed timer issues request 1
    session.on_edit(text("second text"), 150);
    let failure = CheckOutcome::Failure { request_id: first.request_id, message: "timeout".to_string() };
    session.handle_response(failure, 200);
    let second = session.tick(300).expect("second check");
    assert_eq!(second.request_id, 1);
    // now the response for request 0 straggles in: discarded outright
    let stale = CheckOutcome::Success {
        request_id: first.request_id,
        matches: vec![lm("grammar error", "first", Some("First"))],
    };
    let action = session.handle_response(stale, 400);
    assert!(matches!(action, ResponseAction::Discarded));
    assert_eq!(session.suggestions.len(), 0);
    assert!(session.is_checking);
    assert_eq!(session.current_check_request_id, Some(1));
    // the response for the live request still lands
    let fresh = CheckOutcome::Success {
        request_id: second.request_id,
        matches: vec![lm("style", "second", Some("next"))],
    };
    let action = session.handle_response(fresh, 500);
    assert!(matches!(action, ResponseAction::Installed { .. }));
    assert_eq!(session.suggestions.len(), 1);
    assert_eq!(session.suggestions[0].original, text("second"));
}

#[test]
fn a_failed_response_keeps_the_suggestion_set_and_surfaces_the_message() {
    let mut session = CheckSession::new(100, Vec::new());
    session.on_edit(text("I has a cat."), 0);
    let req = session.tick(100).expect("check issued");
    let outcome = CheckOutcome::Failure { request_id: req.request_id, message: "HTTP 500".to_string() };
    let action = session.handle_response(outcome, 200);
    assert!(matches!(action, ResponseAction::Reported));
    match &session.status {
        SessionStatus::CheckFailed(m) => assert_eq!(m, "HTTP 500"),
        other => panic!("unexpected status {:?}", other),
    }
    assert!(!session.is_checking);
    assert_eq!(session.suggestions.len(), 0);
}

#[test]
fn an_edit_during_a_flight_requests_a_recheck_afterwards() {
    let mut session = CheckSession::new(100, Vec::new());
    session.on_edit(text("first text"), 0);
    let first = session.tick(100).expect("first check");
    // a new edit arrives while the check is in flight
    session.on_edit(text("second text"), 120);
    assert!(session.pending_recheck);
    // the in-flight check is not cancelled; the timer may even expire while
    // it runs, without issuing a second request
    assert!(session.tick(400).is_none());
    // when the result lands, the timer is rearmed as already expired
    let outcome = CheckOutcome::Success { request_id: first.request_id, matches: vec![] };
    session.handle_response(outcome, 500);
    assert!(!session.pending_recheck);
    let second = session.tick(500).expect("recheck issued");
    assert_eq!(second.text, text("second text"));
}

#[test]
fn force_check_during_a_flight_only_notes_the_wish() {
    let mut session = CheckSession::new(100, Vec::new());
    session.on_edit(text("first text"), 0);
    session.tick(100).expect("first check");
    assert!(session.force_check().is_none());
    assert!(session.pending_recheck);
    assert!(matches!(session.status, SessionStatus::Rechecking));
}

#[test]
fn force_check_bypasses_the_idempotence_guard() {
    let mut session = CheckSession::new(100, Vec::new());
    session.on_edit(text("I has a cat."), 0);
    let req = session.tick(100).expect("check issued");
    session.handle_response(CheckOutcome::Success { request_id: req.request_id, matches: vec![] }, 150);
    // the text equals last_checked_text, yet force_check issues a request
    let req2 = session.force_check().expect("forced check");
    assert_eq!(req2.request_id, 1);
    assert_eq!(req2.text, text("I has a cat."));
}

#[test]
fn dismissing_a_suggestion_updates_the_status() {
    let mut session = CheckSession::new(100, Vec::new());
    session.on_edit(text("I has a cat."), 0);
    let req = session.tick(100).expect("check issued");
    let outcome = CheckOutcome::Success {
        request_id: req.request_id,
        matches: vec![lm("grammar error", "has", Some("have"))],
    };
    session.handle_response(outcome, 200);
    assert_eq!(session.suggestions.len(), 1);
    let id = session.suggestions[0].id.clone();
    session.dismiss_suggestion(&id);
    assert_eq!(session.suggestions.len(), 0);
    assert!(matches!(session.status, SessionStatus::AllGood));
}

#[test]
fn applying_a_suggestion_updates_document_and_offsets() {
    let mut session = CheckSession::new(100, Vec::new());
    session.on_edit(text("I has a cat."), 0);
    let req = session.tick(100).expect("check issued");
    let outcome = CheckOutcome::Success {
        request_id: req.request_id,
        matches: vec![
            lm("grammar error", "has", Some("have")),
            lm("style", "cat", Some("dog")),
        ],
    };
    session.handle_response(outcome, 200);
    assert_eq!(session.suggestions.len(), 2);
    let id = session.suggestions[0].id.clone();
    let st = session.apply_suggestion(&id, 300);
    assert_eq!(st, ApplyStatus::Applied);
    assert_eq!(session.document, text("I have a cat."));
    assert_eq!(session.last_checked_text, text("I have a cat."));
    assert_eq!(session.suggestions.len(), 1);
    assert_eq!(session.suggestions[0].offset, 9);
    // the self-inflicted change does not retrigger a check
    assert!(session.tick(1000).is_none());
}

#[test]
fn applying_against_a_changed_document_reports_a_conflict() {
    let mut session = CheckSession::new(100, Vec::new());
    session.on_edit(text("I has a cat."), 0);
    let req = session.tick(100).expect("check issued");
    let outcome = CheckOutcome::Success {
        request_id: req.request_id,
        matches: vec![lm("grammar error", "has", Some("have"))],
    };
    session.handle_response(outcome, 200);
    let id = session.suggestions[0].id.clone();
    // the user edits under the suggestion; the edit clears the set, so put
    // the state back the way a straggling UI click would see it
    let kept = session.suggestions.remove(0);
    session.on_edit(text("I had a cat."), 250);
    session.suggestions.push(kept);
    let st = session.apply_suggestion(&id, 300);
    assert_eq!(st, ApplyStatus::Conflict);
    assert!(matches!(session.status, SessionStatus::Conflict));
    assert_eq!(session.document, text("I had a cat."));
    // the conflict schedules a fresh check
    assert_eq!(session.last_edit_time, Some(300));
}

#[test]
fn worker_loss_is_a_persistent_status() {
    let mut session = CheckSession::new(100, Vec::new());
    session.worker_disconnected();
    assert!(matches!(session.status, SessionStatus::WorkerGone));
}

#[test]
fn a_send_failure_ends_the_flight() {
    let mut session = CheckSession::new(100, Vec::new());
    session.on_edit(text("I has a cat."), 0);
    session.tick(100).expect("check issued");
    session.check_send_failed("channel closed".to_string());
    assert!(!session.is_checking);
    assert!(session.current_check_request_id.is_none());
    assert!(matches!(session.status, SessionStatus::CheckFailed(_)));
}

#[test]
fn request_identifiers_increase_and_are_never_reused() {
    let mut session = CheckSession::new(100, Vec::new());
    assert_eq!(session.next_request_id(), 0);
    assert_eq!(session.next_request_id(), 1);
    assert_eq!(session.next_request_id(), 2);
    assert_eq!(session.request_counter, 3);
}
