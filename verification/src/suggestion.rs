//! The suggestion record and the raw shapes in which the model reports edits.

use vstd::prelude::*;

verus! {

/// Severity level for a suggestion; it orders display priority only and never
/// affects reconciliation.
#[derive(Debug, Clone, Copy, PartialEq, Eq, Structural)]
pub enum Severity {
    /// Grammar errors, typos.
    Error,
    /// Awkward phrasing.
    Warning,
    /// Minor improvements.
    Suggestion,
}

impl Default for Severity {
    fn default() -> (r: Self)
        ensures
            r == Severity::Error,
    {
        Severity::Error
    }
}

/// A single proposed edit over the document.
///
/// `offset` and `length` are byte indices into the UTF-8 document. While the
/// suggestion is live, `document[offset .. offset + length]` equals
/// `original`; a suggestion whose span no longer matches is stale and must be
/// dropped rather than applied. A suggestion without a `replacement` is a
/// comment-only annotation: it can be dismissed but never applied.
#[derive(Debug)]
pub struct Suggestion {
    /// Process-unique identifier.
    pub id: String,
    /// Human-readable rationale.
    pub message: String,
    /// Byte index of the start of the span being replaced.
    pub offset: usize,
    /// Byte length of the span being replaced.
    pub length: usize,
    /// The exact bytes expected at `[offset, offset + length)`.
    pub original: Vec<u8>,
    /// Bytes to substitute; absent for a comment-only annotation.
    pub replacement: Option<Vec<u8>>,
    /// Display priority.
    pub severity: Severity,
}

/// The view of an optional byte string.
pub open spec fn opt_view(o: Option<Vec<u8>>) -> Option<Seq<u8>> {
    match o {
        Some(v) => Some(v@),
        None => None,
    }
}

impl Clone for Suggestion {
    /// The copy carries the same identifier and fields.
    fn clone(&self) -> (r: Self)
        ensures
            r.id == self.id,
            r.message == self.message,
            r.offset == self.offset,
            r.length == self.length,
            r.original@ == self.original@,
            opt_view(r.replacement) == opt_view(self.replacement),
            r.severity == self.severity,
    {
        let replacement = match &self.replacement {
            Some(v) => {
                let c = v.clone();
                proof {
                    assert(c@ =~= v@);
                }
                Some(c)
            },
            None => None,
        };
        let original = self.original.clone();
        proof {
            assert(original@ =~= self.original@);
        }
        Suggestion {
            id: self.id.clone(),
            message: self.message.clone(),
            offset: self.offset,
            length: self.length,
            original,
            replacement,
            severity: self.severity,
        }
    }
}

/// Relies on `uuid::Uuid::new_v4` for a random process-unique identifier;
/// nothing is assumed of the returned text.
#[verifier::external_body]
fn fresh_id() -> String {
    uuid::Uuid::new_v4().to_string()
}

impl Suggestion {
    /// Build a suggestion over the given span, minting a fresh identifier.
    /// The span length is always the byte length of `original`.
    pub fn new(
        message: String,
        offset: usize,
        original: Vec<u8>,
        replacement: Option<Vec<u8>>,
        severity: Severity,
    ) -> (s: Suggestion)
        ensures
            s.message == message,
            s.offset == offset,
            s.length == original.len(),
            s.original == original,
            s.replacement == replacement,
            s.severity == severity,
    {
        let length = original.len();
        Suggestion { id: fresh_id(), message, offset, length, original, replacement, severity }
    }
}

/// A raw model match addressed by a literal substring: `original` is located
/// in the document by first-match search.
#[derive(Debug)]
pub struct LlmMatch {
    /// Human-readable rationale.
    pub message: String,
    /// The exact bytes the model copied out of the input.
    pub original: Vec<u8>,
    /// Bytes to substitute; absent for a comment-only annotation.
    pub replacement: Option<Vec<u8>>,
    /// Display priority.
    pub severity: Severity,
}

/// A whole model reply: the batch of raw matches for one request.
#[derive(Debug)]
pub struct LlmResponse {
    /// The raw matches, in the order the model reported them.
    pub matches: Vec<LlmMatch>,
}

} // verus!
