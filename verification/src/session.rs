//! The check session controller: a state machine that debounces edits,
//! issues at most one in-flight check, coalesces edits that arrive during a
//! flight into a single pending recheck, and discards stale results.
//!
//! The controller owns no clock and performs no I/O. A driver calls
//! [`CheckSession::tick`] on a fixed cadence with the current time in
//! milliseconds, performs the returned [`CheckRequest`] against the external
//! check operation, and hands the tagged outcome back through
//! [`CheckSession::handle_response`]. Every response carries the request
//! identifier it was issued under; a response whose identifier is not the
//! current in-flight one is discarded unconditionally, so out-of-order
//! completions can never clobber newer state.

use vstd::prelude::*;

use crate::mapper::{convert_matches_to_suggestions, literal_conversion};
use crate::normalize::{non_overlapping, normalize_spec, sorted_by_offset, spans_fit};
use crate::reconcile::{apply_edit, apply_status_spec, find_by_id, shift_tail, ApplyStatus};
use crate::suggestion::{LlmMatch, Suggestion};
use crate::text::{is_blank, is_blank_text};

verus! {

/// Debounce intervals above this many milliseconds disable automatic
/// checking: the timer never fires on its own.
pub const AUTO_CHECK_MAX_MS: u64 = 5000;

/// The session status shown to the presentation layer. A failure carries the
/// provider's error text verbatim.
#[derive(Debug)]
pub enum SessionStatus {
    /// Nothing to do yet.
    Ready,
    /// A check is in flight.
    Checking,
    /// A check is in flight and a fresh one will follow it.
    Rechecking,
    /// The last check found nothing.
    AllGood,
    /// The last check produced the current suggestion set.
    SuggestionsFound,
    /// The check operation failed; the text is surfaced verbatim.
    CheckFailed(String),
    /// An accepted suggestion no longer matched the document.
    Conflict,
    /// An accepted suggestion's span lay outside the document.
    InvalidRange,
    /// The async worker is gone; no further results can arrive.
    WorkerGone,
}

/// A check to dispatch: the current document text, tagged with the request
/// identifier that the matching response must carry.
#[derive(Debug)]
pub struct CheckRequest {
    /// Identifier minted for this request.
    pub request_id: u64,
    /// The text to check.
    pub text: Vec<u8>,
}

/// The outcome of one check operation, tagged with its request identifier.
#[derive(Debug)]
pub enum CheckOutcome {
    /// The model returned a batch of raw matches.
    Success {
        /// The identifier the request was issued under.
        request_id: u64,
        /// The raw matches, to be mapped and normalized.
        matches: Vec<LlmMatch>,
    },
    /// The check operation failed.
    Failure {
        /// The identifier the request was issued under.
        request_id: u64,
        /// Human-readable error text.
        message: String,
    },
}

/// What the controller did with a response.
#[derive(Debug)]
pub enum ResponseAction {
    /// The response was stale and ignored entirely.
    Discarded,
    /// Suggestions were installed; `checked_text` is the text they were
    /// checked against, for the caller's rolling context.
    Installed {
        /// The text the accepted request was issued for.
        checked_text: Vec<u8>,
    },
    /// The failure was recorded as the session status.
    Reported,
}

/// The check-session state: document, live suggestion set, and the
/// coordination fields that guarantee at most one in-flight check and
/// stale-response suppression.
pub struct CheckSession {
    /// The live document text.
    pub document: Vec<u8>,
    /// The text the last issued (or completed) check was for.
    pub last_checked_text: Vec<u8>,
    /// The live suggestion set: always sorted and free of overlaps.
    pub suggestions: Vec<Suggestion>,
    /// What the presentation layer shows.
    pub status: SessionStatus,
    /// Monotonically increasing source of request identifiers; never reused.
    pub request_counter: u64,
    /// The identifier of the one authoritative in-flight request.
    pub current_check_request_id: Option<u64>,
    /// Whether a check is in flight.
    pub is_checking: bool,
    /// An edit arrived during the flight: rearm the timer when it completes.
    pub pending_recheck: bool,
    /// The text the in-flight request was issued for.
    pub pending_check_text: Option<Vec<u8>>,
    /// When the document was last edited, on the driver's clock.
    pub last_edit_time: Option<u64>,
    /// Quiet period before an edit triggers a check.
    pub debounce_ms: u64,
}

impl CheckSession {
    /// The session invariant: the checking flag mirrors the in-flight
    /// identifier, an in-flight request remembers its text, and the live
    /// suggestion set is sorted, non-overlapping, and within address bounds.
    pub open spec fn wf(self) -> bool {
        &&& self.is_checking == self.current_check_request_id is Some
        &&& self.current_check_request_id is Some ==> self.pending_check_text is Some
        &&& sorted_by_offset(self.suggestions@)
        &&& non_overlapping(self.suggestions@)
        &&& spans_fit(self.suggestions@)
    }

    /// A fresh session over the given document; no check is scheduled until
    /// the first edit.
    pub fn new(debounce_ms: u64, document: Vec<u8>) -> (s: CheckSession)
        ensures
            s.wf(),
            s.document == document,
            s.last_checked_text@.len() == 0,
            s.suggestions@.len() == 0,
            s.status is Ready,
            s.request_counter == 0,
            s.current_check_request_id is None,
            !s.is_checking,
            !s.pending_recheck,
            s.pending_check_text is None,
            s.last_edit_time is None,
            s.debounce_ms == debounce_ms,
    {
        CheckSession {
            document,
            last_checked_text: Vec::new(),
            suggestions: Vec::new(),
            status: SessionStatus::Ready,
            request_counter: 0,
            current_check_request_id: None,
            is_checking: false,
            pending_recheck: false,
            pending_check_text: None,
            last_edit_time: None,
            debounce_ms,
        }
    }

    /// Mint the next request identifier: strictly increasing, never reused.
    pub fn next_request_id(&mut self) -> (id: u64)
        requires
            old(self).request_counter < u64::MAX,
        ensures
            id == old(self).request_counter,
            *final(self) == (CheckSession {
                request_counter: (old(self).request_counter + 1) as u64,
                ..*old(self)
            }),
    {
        let id = self.request_counter;
        self.request_counter = self.request_counter + 1;
        id
    }

    /// Record a document mutation: an edit invalidates the current
    /// suggestions immediately, stamps the edit time for the debounce timer,
    /// and, while a check is in flight, asks for a recheck once it completes.
    /// Handing in the unchanged text changes nothing but the stored buffer.
    pub fn on_edit(&mut self, new_text: Vec<u8>, now_ms: u64)
        requires
            old(self).wf(),
        ensures
            final(self).wf(),
            final(self).document == new_text,
            new_text@ == old(self).document@ ==> *final(self) == (CheckSession {
                document: new_text,
                ..*old(self)
            }),
            new_text@ != old(self).document@ ==> *final(self) == (CheckSession {
                document: new_text,
                suggestions: final(self).suggestions,
                last_edit_time: Some(now_ms),
                pending_recheck: old(self).pending_recheck || old(self).is_checking,
                ..*old(self)
            }) && final(self).suggestions@.len() == 0,
    {
        let changed = !crate::text::bytes_eq(&new_text, &self.document);
        self.document = new_text;
        if changed {
            self.suggestions = Vec::new();
            self.last_edit_time = Some(now_ms);
            if self.is_checking {
                self.pending_recheck = true;
            }
        }
    }

    /// Issue a check for the current document unless it is blank, unchanged
    /// since the last check, or a check is already in flight.
    fn check_text(&mut self) -> (r: Option<CheckRequest>)
        requires
            old(self).wf(),
            old(self).request_counter < u64::MAX,
        ensures
            final(self).wf(),
            check_transition(*old(self), *final(self), r),
    {
        if is_blank_text(&self.document) {
            self.suggestions = Vec::new();
            self.status = SessionStatus::Ready;
            self.last_checked_text = copy_all(&self.document);
            self.is_checking = false;
            self.current_check_request_id = None;
            return None;
        }
        if crate::text::bytes_eq(&self.document, &self.last_checked_text) {
            return None;
        }
        if self.is_checking {
            self.pending_recheck = true;
            return None;
        }
        let request_id = self.next_request_id();
        self.is_checking = true;
        self.current_check_request_id = Some(request_id);
        self.status = SessionStatus::Checking;
        self.suggestions = Vec::new();
        self.last_checked_text = copy_all(&self.document);
        self.pending_check_text = Some(copy_all(&self.document));
        Some(CheckRequest { request_id, text: copy_all(&self.document) })
    }

    /// Evaluate the debounce timer: when the quiet period since the last
    /// edit has elapsed (and automatic checking is not disabled), clear the
    /// timer and issue a check as `check_text` does.
    pub fn tick(&mut self, now_ms: u64) -> (r: Option<CheckRequest>)
        requires
            old(self).wf(),
            old(self).request_counter < u64::MAX,
        ensures
            final(self).wf(),
            !debounce_due(*old(self), now_ms) ==> *final(self) == *old(self) && r is None,
            debounce_due(*old(self), now_ms) ==> final(self).last_edit_time is None
                && check_transition(
                (CheckSession { last_edit_time: None, ..*old(self) }),
                *final(self),
                r,
            ),
    {
        let due = match self.last_edit_time {
            None => false,
            Some(t) => self.debounce_ms <= AUTO_CHECK_MAX_MS && now_ms >= t && now_ms - t
                >= self.debounce_ms,
        };
        if !due {
            return None;
        }
        self.last_edit_time = None;
        self.check_text()
    }

    /// Force an immediate recheck: while a check is in flight only note the
    /// wish, otherwise forget the last checked text so the idempotence guard
    /// cannot suppress the request.
    pub fn force_check(&mut self) -> (r: Option<CheckRequest>)
        requires
            old(self).wf(),
            old(self).request_counter < u64::MAX,
        ensures
            final(self).wf(),
            old(self).is_checking ==> r is None && *final(self) == (CheckSession {
                pending_recheck: true,
                status: final(self).status,
                ..*old(self)
            }) && final(self).status is Rechecking,
            !old(self).is_checking && is_blank(old(self).document@) ==> blank_check_fields(
                *old(self),
                *final(self),
                r,
            ),
            !old(self).is_checking && !is_blank(old(self).document@) ==> issue_check_fields(
                *old(self),
                *final(self),
                r,
            ),
    {
        if self.is_checking {
            self.pending_recheck = true;
            self.status = SessionStatus::Rechecking;
            return None;
        }
        self.last_checked_text = Vec::new();
        self.check_text()
    }

    /// Take a tagged response from the check operation. A response whose
    /// identifier differs from the current in-flight one is discarded with
    /// the whole session state untouched, so a result for an old request can
    /// never reach the live suggestion set. A matching success is mapped and
    /// normalized into the live set; a matching failure leaves the set alone
    /// and surfaces the message. Either way the flight ends, and a pending
    /// recheck rearms the timer as already expired.
    pub fn handle_response(&mut self, outcome: CheckOutcome, now_ms: u64) -> (r: ResponseAction)
        requires
            old(self).wf(),
        ensures
            final(self).wf(),
            !outcome_matches(*old(self), outcome) ==> *final(self) == *old(self)
                && r is Discarded,
            outcome_matches(*old(self), outcome) ==> {
                &&& !final(self).is_checking
                &&& final(self).current_check_request_id is None
                &&& final(self).pending_check_text is None
                &&& !final(self).pending_recheck
                &&& final(self).last_edit_time == rearmed_edit_time(*old(self), now_ms)
                &&& final(self).document == old(self).document
                &&& final(self).last_checked_text == old(self).last_checked_text
                &&& final(self).request_counter == old(self).request_counter
                &&& final(self).debounce_ms == old(self).debounce_ms
                &&& match outcome {
                    CheckOutcome::Success { matches, .. } => {
                        &&& r matches ResponseAction::Installed { checked_text } && Some(
                            checked_text,
                        ) == old(self).pending_check_text
                        &&& exists|mid: Seq<Suggestion>|
                            #[trigger] literal_conversion(
                                old(self).pending_check_text.unwrap()@,
                                matches@,
                                mid,
                            ) && final(self).suggestions@ == normalize_spec(mid)
                        &&& final(self).suggestions@.len() == 0 ==> final(self).status is AllGood
                        &&& final(self).suggestions@.len() > 0 ==> final(self).status is SuggestionsFound
                    },
                    CheckOutcome::Failure { message, .. } => {
                        &&& r is Reported
                        &&& final(self).suggestions == old(self).suggestions
                        &&& final(self).status == SessionStatus::CheckFailed(message)
                    },
                }
            },
    {
        let request_id = match &outcome {
            CheckOutcome::Success { request_id, .. } => *request_id,
            CheckOutcome::Failure { request_id, .. } => *request_id,
        };
        let matches_current = match self.current_check_request_id {
            Some(current) => self.is_checking && current == request_id,
            None => false,
        };
        if !matches_current {
            return ResponseAction::Discarded;
        }
        self.is_checking = false;
        self.current_check_request_id = None;
        if self.pending_recheck {
            self.pending_recheck = false;
            if self.debounce_ms <= AUTO_CHECK_MAX_MS {
                let rearmed = if now_ms >= self.debounce_ms {
                    now_ms - self.debounce_ms
                } else {
                    0
                };
                self.last_edit_time = Some(rearmed);
            }
        }
        match outcome {
            CheckOutcome::Success { matches, .. } => {
                let checked_text = match self.pending_check_text.take() {
                    Some(t) => t,
                    None => {
                        proof {
                            assert(false);
                        }
                        Vec::new()
                    },
                };
                self.suggestions = convert_matches_to_suggestions(&checked_text, matches);
                if self.suggestions.len() == 0 {
                    self.status = SessionStatus::AllGood;
                } else {
                    self.status = SessionStatus::SuggestionsFound;
                }
                ResponseAction::Installed { checked_text }
            },
            CheckOutcome::Failure { message, .. } => {
                let _ = self.pending_check_text.take();
                self.status = SessionStatus::CheckFailed(message);
                ResponseAction::Reported
            },
        }
    }

    /// The request could not even be handed to the check operation: end the
    /// flight and surface the text.
    pub fn check_send_failed(&mut self, message: String)
        requires
            old(self).wf(),
        ensures
            final(self).wf(),
            *final(self) == (CheckSession {
                status: final(self).status,
                is_checking: false,
                current_check_request_id: None,
                ..*old(self)
            }),
            final(self).status == SessionStatus::CheckFailed(message),
    {
        self.status = SessionStatus::CheckFailed(message);
        self.is_checking = false;
        self.current_check_request_id = None;
    }

    /// The async worker terminated: no further results can ever arrive, so
    /// the status is persistent for the rest of the session.
    pub fn worker_disconnected(&mut self)
        requires
            old(self).wf(),
        ensures
            final(self).wf(),
            *final(self) == (CheckSession { status: final(self).status, ..*old(self) }),
            final(self).status is WorkerGone,
    {
        self.status = SessionStatus::WorkerGone;
    }

    /// Drop the suggestion with the given identifier from the live set; when
    /// no check is in flight, refresh the status to reflect the remaining
    /// count.
    pub fn dismiss_suggestion(&mut self, id: &String)
        requires
            old(self).wf(),
        ensures
            final(self).wf(),
            final(self).suggestions@ == old(self).suggestions@.filter(
                |s: Suggestion| s.id@ != id@,
            ),
            *final(self) == (CheckSession {
                suggestions: final(self).suggestions,
                status: final(self).status,
                ..*old(self)
            }),
            old(self).is_checking ==> final(self).status == old(self).status,
            !old(self).is_checking && final(self).suggestions@.len() == 0 ==> final(self).status is AllGood,
            !old(self).is_checking && final(self).suggestions@.len() > 0 ==> final(self).status is SuggestionsFound,
    {
        let ghost pred = |s: Suggestion| s.id@ != id@;
        let ghost input = self.suggestions@;
        let mut rest: Vec<Suggestion> = Vec::new();
        core::mem::swap(&mut rest, &mut self.suggestions);
        let ghost mut done = 0int;
        while rest.len() > 0
            invariant
                0 <= done <= input.len(),
                rest@ =~= input.subrange(done, input.len() as int),
                self.suggestions@ == input.subrange(0, done).filter(pred),
                *self == (CheckSession { suggestions: self.suggestions, ..*old(self) }),
                pred == (|s: Suggestion| s.id@ != id@),
            decreases rest@.len(),
        {
            let s = rest.remove(0);
            proof {
                assert(s == input[done]);
                assert(rest@ =~= input.subrange(done + 1, input.len() as int));
                assert(input.subrange(0, done + 1).drop_last() =~= input.subrange(0, done));
                assert(input.subrange(0, done + 1).last() == input[done]);
            }
            let ghost prev_kept = self.suggestions@;
            if !(s.id == *id) {
                self.suggestions.push(s);
            }
            proof {
                reveal(Seq::filter);
                assert(pred(s) == (s.id@ != id@));
                assert(input.subrange(0, done + 1).filter(pred) == if pred(s) {
                    prev_kept.push(s)
                } else {
                    prev_kept
                });
                done = done + 1;
            }
        }
        proof {
            assert(input.subrange(0, input.len() as int) =~= input);
            lemma_filter_keeps_wf(input, pred);
        }
        if !self.is_checking {
            if self.suggestions.len() == 0 {
                self.status = SessionStatus::AllGood;
            } else {
                self.status = SessionStatus::SuggestionsFound;
            }
        }
    }

    /// Accept the suggestion with the given identifier: while it is still
    /// live, splice its replacement into the document, shift the other
    /// suggestions, and remember the new text as already checked so the edit
    /// does not retrigger a check. A conflict or an out-of-range span is
    /// surfaced as status and schedules a fresh check instead; a comment-only
    /// or unknown identifier is a no-op.
    pub fn apply_suggestion(&mut self, id: &String, now_ms: u64) -> (st: ApplyStatus)
        requires
            old(self).wf(),
        ensures
            final(self).wf(),
            st == apply_status_spec(old(self).document@, old(self).suggestions@, id@),
            st is NotFound || st is CommentOnly ==> *final(self) == *old(self),
            st is InvalidRange ==> *final(self) == (CheckSession {
                status: final(self).status,
                last_edit_time: Some(now_ms),
                ..*old(self)
            }) && final(self).status is InvalidRange,
            st is Conflict ==> *final(self) == (CheckSession {
                status: final(self).status,
                last_edit_time: Some(now_ms),
                ..*old(self)
            }) && final(self).status is Conflict,
            st is Applied ==> ({
                let t = find_by_id(old(self).suggestions@, id@).unwrap();
                let tgt = old(self).suggestions@[t];
                let repl = tgt.replacement.unwrap();
                &&& final(self).document@ == crate::text::spliced(
                    old(self).document@,
                    tgt.offset as int,
                    tgt.length as int,
                    repl@,
                )
                &&& final(self).last_checked_text@ == final(self).document@
                &&& final(self).suggestions@ == shift_tail(
                    old(self).suggestions@.remove(t),
                    tgt.offset as int,
                    tgt.length as int,
                    repl@.len() as int,
                )
                &&& final(self).suggestions@.len() == 0 ==> final(self).status is AllGood
                &&& final(self).suggestions@.len() > 0 ==> final(self).status is SuggestionsFound
                &&& final(self).request_counter == old(self).request_counter
                &&& final(self).current_check_request_id == old(self).current_check_request_id
                &&& final(self).is_checking == old(self).is_checking
                &&& final(self).pending_recheck == old(self).pending_recheck
                &&& final(self).pending_check_text == old(self).pending_check_text
                &&& final(self).last_edit_time == old(self).last_edit_time
                &&& final(self).debounce_ms == old(self).debounce_ms
            }),
    {
        let mut taken: Vec<Suggestion> = Vec::new();
        core::mem::swap(&mut taken, &mut self.suggestions);
        let result = apply_edit(&self.document, taken, id);
        let status = result.status;
        self.suggestions = result.suggestions;
        match status {
            ApplyStatus::Applied => {
                let new_document = match result.document {
                    Some(d) => d,
                    None => {
                        proof {
                            assert(false);
                        }
                        Vec::new()
                    },
                };
                self.last_checked_text = copy_all(&new_document);
                self.document = new_document;
                if self.suggestions.len() == 0 {
                    self.status = SessionStatus::AllGood;
                } else {
                    self.status = SessionStatus::SuggestionsFound;
                }
            },
            ApplyStatus::InvalidRange => {
                self.status = SessionStatus::InvalidRange;
                self.last_edit_time = Some(now_ms);
            },
            ApplyStatus::Conflict => {
                self.status = SessionStatus::Conflict;
                self.last_edit_time = Some(now_ms);
            },
            ApplyStatus::NotFound => {},
            ApplyStatus::CommentOnly => {},
        }
        status
    }
}

/// The debounce timer is due: an edit is recorded, automatic checking is
/// enabled, and the quiet period has elapsed.
pub open spec fn debounce_due(s: CheckSession, now_ms: u64) -> bool {
    s.last_edit_time matches Some(t) && s.debounce_ms <= AUTO_CHECK_MAX_MS && now_ms >= t
        && now_ms - t >= s.debounce_ms
}

/// The response carries the identifier of the current in-flight request.
pub open spec fn outcome_matches(s: CheckSession, outcome: CheckOutcome) -> bool {
    let id = match outcome {
        CheckOutcome::Success { request_id, .. } => request_id,
        CheckOutcome::Failure { request_id, .. } => request_id,
    };
    s.is_checking && s.current_check_request_id == Some(id)
}

/// Where the timer stands after a response: rearmed as already expired when
/// a recheck is pending and automatic checking is enabled, otherwise
/// untouched.
pub open spec fn rearmed_edit_time(s: CheckSession, now_ms: u64) -> Option<u64> {
    if s.pending_recheck && s.debounce_ms <= AUTO_CHECK_MAX_MS {
        if now_ms >= s.debounce_ms {
            Some((now_ms - s.debounce_ms) as u64)
        } else {
            Some(0u64)
        }
    } else {
        s.last_edit_time
    }
}

/// A check over a blank document: clear everything and rest.
pub open spec fn blank_check_fields(pre: CheckSession, post: CheckSession, r: Option<
    CheckRequest,
>) -> bool {
    &&& r is None
    &&& post.document == pre.document
    &&& post.suggestions@.len() == 0
    &&& post.status is Ready
    &&& post.last_checked_text@ == pre.document@
    &&& !post.is_checking
    &&& post.current_check_request_id is None
    &&& post.request_counter == pre.request_counter
    &&& post.pending_recheck == pre.pending_recheck
    &&& post.pending_check_text == pre.pending_check_text
    &&& post.last_edit_time == pre.last_edit_time
    &&& post.debounce_ms == pre.debounce_ms
}

/// A check is issued: a fresh identifier becomes the one in-flight request
/// over the current document text.
pub open spec fn issue_check_fields(pre: CheckSession, post: CheckSession, r: Option<
    CheckRequest,
>) -> bool {
    &&& r matches Some(req) && req.request_id == pre.request_counter && req.text@ == pre.document@
    &&& post.document == pre.document
    &&& post.suggestions@.len() == 0
    &&& post.status is Checking
    &&& post.last_checked_text@ == pre.document@
    &&& post.is_checking
    &&& post.current_check_request_id == Some(pre.request_counter)
    &&& post.request_counter == pre.request_counter + 1
    &&& post.pending_recheck == pre.pending_recheck
    &&& post.pending_check_text matches Some(p) && p@ == pre.document@
    &&& post.last_edit_time == pre.last_edit_time
    &&& post.debounce_ms == pre.debounce_ms
}

/// What issuing a check does: a blank document resets the session, an
/// unchanged document is the idempotence guard and does nothing, an in-flight
/// check only records the wish, and otherwise a request is issued.
pub open spec fn check_transition(pre: CheckSession, post: CheckSession, r: Option<
    CheckRequest,
>) -> bool {
    if is_blank(pre.document@) {
        blank_check_fields(pre, post, r)
    } else if pre.document@ == pre.last_checked_text@ {
        post == pre && r is None
    } else if pre.is_checking {
        post == (CheckSession { pending_recheck: true, ..pre }) && r is None
    } else {
        issue_check_fields(pre, post, r)
    }
}

/// A fresh copy of a byte buffer.
fn copy_all(text: &Vec<u8>) -> (r: Vec<u8>)
    ensures
        r@ == text@,
{
    let r = crate::text::copy_range(text, 0, text.len());
    proof {
        assert(text@.subrange(0, text@.len() as int) =~= text@);
    }
    r
}

/// Every element that a filter keeps was in the input.
proof fn lemma_filter_subset(s: Seq<Suggestion>, pred: spec_fn(Suggestion) -> bool)
    ensures
        forall|k: int| 0 <= k < s.filter(pred).len() ==> s.contains(#[trigger] s.filter(pred)[k]),
    decreases s.len(),
{
    reveal(Seq::filter);
    if s.len() > 0 {
        let prefix = s.drop_last();
        lemma_filter_subset(prefix, pred);
        let f = s.filter(pred);
        let fp = prefix.filter(pred);
        assert forall|k: int| 0 <= k < f.len() implies s.contains(#[trigger] f[k]) by {
            if k < fp.len() {
                assert(f[k] == fp[k]);
                assert(prefix.contains(fp[k]));
                let i = choose|i: int| 0 <= i < prefix.len() && prefix[i] == fp[k];
                assert(s[i] == fp[k]);
            } else {
                assert(f[k] == s.last());
                assert(s[s.len() - 1] == s.last());
            }
        }
    }
}

/// Filtering a well-formed suggestion sequence keeps it well-formed: a
/// subsequence of sorted, non-overlapping spans is sorted and
/// non-overlapping.
proof fn lemma_filter_keeps_wf(s: Seq<Suggestion>, pred: spec_fn(Suggestion) -> bool)
    requires
        sorted_by_offset(s),
        non_overlapping(s),
        spans_fit(s),
    ensures
        sorted_by_offset(s.filter(pred)),
        non_overlapping(s.filter(pred)),
        spans_fit(s.filter(pred)),
    decreases s.len(),
{
    reveal(Seq::filter);
    if s.len() > 0 {
        let prefix = s.drop_last();
        assert(sorted_by_offset(prefix) && non_overlapping(prefix) && spans_fit(prefix)) by {
            assert forall|i: int, j: int| 0 <= i < j < prefix.len() implies crate::normalize::span_end(
                #[trigger] prefix[i],
            ) <= (#[trigger] prefix[j]).offset && prefix[i].offset <= prefix[j].offset by {
                assert(prefix[i] == s[i]);
                assert(prefix[j] == s[j]);
            }
            assert forall|i: int| 0 <= i < prefix.len() implies crate::normalize::span_end(
                #[trigger] prefix[i],
            ) <= usize::MAX by {
                assert(prefix[i] == s[i]);
            }
        }
        lemma_filter_keeps_wf(prefix, pred);
        let f = s.filter(pred);
        let fp = prefix.filter(pred);
        lemma_filter_subset(prefix, pred);
        assert forall|k: int| 0 <= k < fp.len() implies crate::normalize::span_end(
            #[trigger] fp[k],
        ) <= s.last().offset && fp[k].offset <= s.last().offset by {
            assert(prefix.contains(fp[k]));
            let i = choose|i: int| 0 <= i < prefix.len() && prefix[i] == fp[k];
            assert(prefix[i] == s[i]);
            assert(crate::normalize::span_end(s[i]) <= s.last().offset);
        }
        if pred(s.last()) {
            assert(f == fp.push(s.last()));
            assert forall|i: int, j: int| 0 <= i < j < f.len() implies crate::normalize::span_end(
                #[trigger] f[i],
            ) <= (#[trigger] f[j]).offset && f[i].offset <= f[j].offset by {
                if j < fp.len() {
                    assert(f[i] == fp[i]);
                    assert(f[j] == fp[j]);
                } else {
                    assert(f[j] == s.last());
                    assert(f[i] == fp[i]);
                }
            }
            assert forall|i: int| 0 <= i < f.len() implies crate::normalize::span_end(
                #[trigger] f[i],
            ) <= usize::MAX by {
                if i < fp.len() {
                    assert(f[i] == fp[i]);
                } else {
                    assert(f[i] == s.last());
                    assert(s.last() == s[s.len() - 1]);
                }
            }
        } else {
            assert(f == fp);
        }
    }
}

} // verus!
