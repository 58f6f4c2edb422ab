//! The edit reconciler: applies an accepted suggestion to the document and
//! shifts every pending suggestion past the edit point so its offset stays
//! valid.
//!
//! A suggestion is applied only while it is live: its span must still hold
//! exactly its `original` bytes. A span that no longer matches is a conflict,
//! reported instead of applied. A comment-only suggestion (no replacement)
//! can never be applied.

use vstd::prelude::*;

use crate::normalize::{non_overlapping, sorted_by_offset, span_end, spans_fit};
use crate::suggestion::Suggestion;
use crate::text::{copy_range, splice, spliced};

verus! {

/// The suggestion's span lies inside `doc` and still holds exactly its
/// `original` bytes.
pub open spec fn live_at(doc: Seq<u8>, s: Suggestion) -> bool {
    &&& span_end(s) <= doc.len()
    &&& doc.subrange(s.offset as int, span_end(s)) == s.original@
}

/// Index of the first suggestion with the given identifier at or past `i`.
pub open spec fn find_by_id_from(s: Seq<Suggestion>, id: Seq<char>, i: int) -> Option<int>
    decreases s.len() - i when 0 <= i
{
    if i >= s.len() {
        None
    } else if s[i].id@ == id {
        Some(i)
    } else {
        find_by_id_from(s, id, i + 1)
    }
}

/// Index of the first suggestion with the given identifier, if any.
pub open spec fn find_by_id(s: Seq<Suggestion>, id: Seq<char>) -> Option<int> {
    find_by_id_from(s, id, 0)
}

/// `s` with its offset moved by the size change of an edit that removed
/// `removed` bytes and added `added` bytes before it.
pub open spec fn shift_sug(s: Suggestion, removed: int, added: int) -> Suggestion {
    Suggestion { offset: (s.offset - removed + added) as usize, ..s }
}

/// The shifted span end still fits in a `usize`. False only of a suggestion
/// whose span already lay beyond the edited document, hence was stale.
pub open spec fn shift_keeps(s: Suggestion, removed: int, added: int) -> bool {
    span_end(s) - removed + added <= usize::MAX
}

/// The remaining suggestions after an edit at `pivot` that replaced
/// `removed` bytes with `added` bytes: suggestions at or before the edit
/// point keep their offsets, later ones are shifted, and a (necessarily
/// stale) suggestion whose shifted span would not fit is dropped.
pub open spec fn shift_tail(s: Seq<Suggestion>, pivot: int, removed: int, added: int) -> Seq<
    Suggestion,
>
    decreases s.len(),
{
    if s.len() == 0 {
        Seq::empty()
    } else {
        let x = s.first();
        let rest = shift_tail(s.drop_first(), pivot, removed, added);
        if x.offset <= pivot {
            seq![x] + rest
        } else if shift_keeps(x, removed, added) {
            seq![shift_sug(x, removed, added)] + rest
        } else {
            rest
        }
    }
}

/// Each result element is an input element, kept as it was or shifted.
pub open spec fn elem_src(
    s: Seq<Suggestion>,
    e: Suggestion,
    pivot: int,
    removed: int,
    added: int,
) -> bool {
    exists|i: int|
        0 <= i < s.len() && ((#[trigger] s[i]).offset <= pivot && e == s[i] || s[i].offset > pivot
            && shift_keeps(s[i], removed, added) && e == shift_sug(s[i], removed, added))
}

/// Shifting preserves order, disjointness, and span bounds, and every result
/// element comes from the input.
pub proof fn lemma_shift_tail_wf(s: Seq<Suggestion>, pivot: int, removed: int, added: int)
    requires
        sorted_by_offset(s),
        non_overlapping(s),
        spans_fit(s),
        removed >= 0,
        added >= 0,
        pivot >= 0,
        forall|i: int|
            0 <= i < s.len() ==> ((#[trigger] s[i]).offset > pivot ==> s[i].offset >= pivot
                + removed),
        forall|i: int|
            0 <= i < s.len() ==> ((#[trigger] s[i]).offset < pivot ==> span_end(s[i]) <= pivot),
        forall|i: int|
            0 <= i < s.len() ==> ((#[trigger] s[i]).offset == pivot ==> removed == 0 || span_end(
                s[i],
            ) <= pivot),
    ensures
        sorted_by_offset(shift_tail(s, pivot, removed, added)),
        non_overlapping(shift_tail(s, pivot, removed, added)),
        spans_fit(shift_tail(s, pivot, removed, added)),
        forall|k: int|
            0 <= k < shift_tail(s, pivot, removed, added).len() ==> elem_src(
                s,
                #[trigger] shift_tail(s, pivot, removed, added)[k],
                pivot,
                removed,
                added,
            ),
    decreases s.len(),
{
    if s.len() == 0 {
    } else {
        let x = s.first();
        let tail = s.drop_first();
        assert forall|i: int| 0 <= i < tail.len() implies #[trigger] tail[i] == s[i + 1] by {}
        lemma_shift_tail_wf(tail, pivot, removed, added);
        let rest = shift_tail(tail, pivot, removed, added);
        let r = shift_tail(s, pivot, removed, added);
        assert forall|k: int|
            0 <= k < rest.len() implies elem_src(s, #[trigger] rest[k], pivot, removed, added) by {
            let i = choose|i: int|
                0 <= i < tail.len() && ((#[trigger] tail[i]).offset <= pivot && rest[k] == tail[i]
                    || tail[i].offset > pivot && shift_keeps(tail[i], removed, added) && rest[k]
                    == shift_sug(tail[i], removed, added));
            assert(tail[i] == s[i + 1]);
        }
        if x.offset <= pivot || shift_keeps(x, removed, added) {
            let y = if x.offset <= pivot {
                x
            } else {
                shift_sug(x, removed, added)
            };
            assert(r == seq![y] + rest);
            assert(r[0] == y);
            assert(elem_src(s, y, pivot, removed, added)) by {
                assert(0 <= 0 < s.len() && s[0] == x);
            }
            // the head precedes and clears every later element
            assert forall|k: int| 1 <= k < r.len() implies span_end(r[0]) <= (
            #[trigger] r[k]).offset && r[0].offset <= r[k].offset by {
                assert(r[k] == rest[k - 1]);
                let i = choose|i: int|
                    0 <= i < tail.len() && ((#[trigger] tail[i]).offset <= pivot && rest[k - 1]
                        == tail[i] || tail[i].offset > pivot && shift_keeps(tail[i], removed, added)
                        && rest[k - 1] == shift_sug(tail[i], removed, added));
                let z = tail[i];
                assert(z == s[i + 1]);
                assert(span_end(x) <= z.offset);
                assert(x.offset <= z.offset);
                if x.offset <= pivot {
                    if z.offset <= pivot {
                    } else {
                        // z is shifted
                        if x.offset < pivot {
                            assert(span_end(x) <= pivot);
                            assert(z.offset >= pivot + removed);
                        } else {
                            if removed == 0 {
                            } else {
                                assert(span_end(x) <= pivot);
                                assert(z.offset >= pivot + removed);
                            }
                        }
                    }
                } else {
                    // x is shifted, so z.offset >= x.offset > pivot: z is shifted too
                    assert(z.offset > pivot);
                }
            }
            assert forall|i2: int, j2: int| 0 <= i2 < j2 < r.len() implies span_end(
                #[trigger] r[i2],
            ) <= (#[trigger] r[j2]).offset && r[i2].offset <= r[j2].offset by {
                if i2 > 0 {
                    assert(r[i2] == rest[i2 - 1]);
                    assert(r[j2] == rest[j2 - 1]);
                }
            }
            assert(sorted_by_offset(r));
            assert(non_overlapping(r));
            assert forall|k: int| 0 <= k < r.len() implies span_end(#[trigger] r[k])
                <= usize::MAX by {
                if k > 0 {
                    assert(r[k] == rest[k - 1]);
                }
            }
        } else {
            assert(r == rest);
        }
    }
}

/// Shifting drops nothing when every shifted span still fits.
proof fn lemma_shift_tail_total(s: Seq<Suggestion>, pivot: int, removed: int, added: int)
    requires
        forall|i: int|
            0 <= i < s.len() ==> ((#[trigger] s[i]).offset <= pivot || shift_keeps(
                s[i],
                removed,
                added,
            )),
    ensures
        shift_tail(s, pivot, removed, added).len() == s.len(),
    decreases s.len(),
{
    if s.len() > 0 {
        assert forall|i: int| 0 <= i < s.drop_first().len() implies ((
        #[trigger] s.drop_first()[i]).offset <= pivot || shift_keeps(
            s.drop_first()[i],
            removed,
            added,
        )) by {
            assert(s.drop_first()[i] == s[i + 1]);
        }
        lemma_shift_tail_total(s.drop_first(), pivot, removed, added);
    }
}

/// After an edit is applied, every remaining suggestion that was live before
/// is still live at its (possibly shifted) offset in the new document. This
/// holds whenever the applied suggestion replaces a non-empty span.
pub proof fn lemma_apply_preserves_liveness(doc: Seq<u8>, ss: Seq<Suggestion>, t: int)
    requires
        sorted_by_offset(ss),
        non_overlapping(ss),
        spans_fit(ss),
        0 <= t < ss.len(),
        ss[t].replacement is Some,
        ss[t].length > 0,
        doc.len() - ss[t].length + ss[t].replacement.unwrap()@.len() <= usize::MAX,
        forall|i: int| 0 <= i < ss.len() ==> live_at(doc, #[trigger] ss[i]),
    ensures
        ({
            let tgt = ss[t];
            let repl = tgt.replacement.unwrap()@;
            let d2 = spliced(doc, tgt.offset as int, tgt.length as int, repl);
            let r = shift_tail(ss.remove(t), tgt.offset as int, tgt.length as int, repl.len() as int);
            &&& r.len() == ss.len() - 1
            &&& forall|k: int| 0 <= k < r.len() ==> live_at(d2, #[trigger] r[k])
        }),
{
    let tgt = ss[t];
    let pivot = tgt.offset as int;
    let removed = tgt.length as int;
    let repl = tgt.replacement.unwrap()@;
    let added = repl.len() as int;
    let d2 = spliced(doc, pivot, removed, repl);
    let remaining = ss.remove(t);
    assert(d2.len() == doc.len() - removed + added);
    assert forall|i: int|
        0 <= i < remaining.len() implies ((#[trigger] remaining[i]).offset > pivot
        ==> remaining[i].offset >= pivot + removed) && (remaining[i].offset < pivot ==> span_end(
        remaining[i],
    ) <= pivot) && (remaining[i].offset == pivot ==> removed == 0 || span_end(remaining[i])
        <= pivot) && live_at(doc, remaining[i]) by {
        if i < t {
            assert(remaining[i] == ss[i]);
            assert(span_end(ss[i]) <= ss[t].offset);
        } else {
            assert(remaining[i] == ss[i + 1]);
            assert(span_end(ss[t]) <= ss[i + 1].offset);
        }
    }
    assert(sorted_by_offset(remaining) && non_overlapping(remaining) && spans_fit(remaining)) by {
        assert forall|i: int, j: int| 0 <= i < j < remaining.len() implies span_end(
            #[trigger] remaining[i],
        ) <= (#[trigger] remaining[j]).offset && remaining[i].offset <= remaining[j].offset by {
            let oi = if i < t {
                i
            } else {
                i + 1
            };
            let oj = if j < t {
                j
            } else {
                j + 1
            };
            assert(remaining[i] == ss[oi]);
            assert(remaining[j] == ss[oj]);
        }
        assert forall|i: int| 0 <= i < remaining.len() implies span_end(#[trigger] remaining[i])
            <= usize::MAX by {
            let oi = if i < t {
                i
            } else {
                i + 1
            };
            assert(remaining[i] == ss[oi]);
        }
    }
    lemma_shift_tail_wf(remaining, pivot, removed, added);
    assert forall|i: int| 0 <= i < remaining.len() implies ((#[trigger] remaining[i]).offset
        <= pivot || shift_keeps(remaining[i], removed, added)) by {
        assert(span_end(remaining[i]) <= doc.len());
    }
    lemma_shift_tail_total(remaining, pivot, removed, added);
    let r = shift_tail(remaining, pivot, removed, added);
    assert forall|k: int| 0 <= k < r.len() implies live_at(d2, #[trigger] r[k]) by {
        assert(elem_src(remaining, r[k], pivot, removed, added));
        let i = choose|i: int|
            0 <= i < remaining.len() && ((#[trigger] remaining[i]).offset <= pivot && r[k]
                == remaining[i] || remaining[i].offset > pivot && shift_keeps(
                remaining[i],
                removed,
                added,
            ) && r[k] == shift_sug(remaining[i], removed, added));
        let x = remaining[i];
        assert(live_at(doc, x));
        if x.offset <= pivot && r[k] == x {
            // the span lies entirely before the edit: len(x) == 0 when it
            // starts exactly at the pivot, since the edited span is non-empty
            assert(span_end(x) <= pivot);
            assert(d2.subrange(x.offset as int, span_end(x)) =~= doc.subrange(
                x.offset as int,
                span_end(x),
            )) by {
                assert forall|q: int| 0 <= q < span_end(x) - x.offset implies d2.subrange(
                    x.offset as int,
                    span_end(x),
                )[q] == doc.subrange(x.offset as int, span_end(x))[q] by {
                    assert(d2[x.offset + q] == doc.subrange(0, pivot)[x.offset + q]);
                    assert(doc.subrange(0, pivot)[x.offset + q] == doc[x.offset + q]);
                }
            }
        } else {
            let e = shift_sug(x, removed, added);
            assert(x.offset >= pivot + removed);
            assert(e.offset as int == x.offset - removed + added);
            assert(span_end(e) == span_end(x) - removed + added);
            assert(span_end(e) <= d2.len());
            assert(d2.subrange(e.offset as int, span_end(e)) =~= doc.subrange(
                x.offset as int,
                span_end(x),
            )) by {
                assert forall|q: int| 0 <= q < span_end(x) - x.offset implies d2.subrange(
                    e.offset as int,
                    span_end(e),
                )[q] == doc.subrange(x.offset as int, span_end(x))[q] by {
                    let di = e.offset + q;
                    assert(di >= pivot + added);
                    assert(d2[di] == doc.subrange(pivot + removed, doc.len() as int)[di - added
                        - pivot]);
                    assert(doc.subrange(pivot + removed, doc.len() as int)[di - added - pivot]
                        == doc[di - added + removed]);
                }
            }
        }
    }
}

/// Outcome label of an apply attempt.
#[derive(Debug, Clone, Copy, PartialEq, Eq, Structural)]
pub enum ApplyStatus {
    /// The edit was spliced in and the other suggestions shifted.
    Applied,
    /// No live suggestion carries the identifier (already dismissed or
    /// applied): nothing to do.
    NotFound,
    /// The suggestion's span lies outside the document.
    InvalidRange,
    /// The document changed since the check that produced the suggestion:
    /// its span no longer holds `original`.
    Conflict,
    /// The suggestion carries no replacement and can only be dismissed.
    CommentOnly,
}

/// Result of an apply attempt: on `Applied`, the new document text and the
/// reconciled suggestion set; otherwise the set handed in, untouched.
pub struct ApplyResult {
    /// The new document, present exactly when the edit was applied.
    pub document: Option<Vec<u8>>,
    /// The remaining suggestions.
    pub suggestions: Vec<Suggestion>,
    /// What happened.
    pub status: ApplyStatus,
}

/// The outcome an apply attempt must have, decided from the target's
/// liveness against the document.
pub open spec fn apply_status_spec(doc: Seq<u8>, ss: Seq<Suggestion>, id: Seq<char>) -> ApplyStatus {
    match find_by_id(ss, id) {
        None => ApplyStatus::NotFound,
        Some(t) => {
            let tgt = ss[t];
            if span_end(tgt) > doc.len() {
                ApplyStatus::InvalidRange
            } else if doc.subrange(tgt.offset as int, span_end(tgt)) != tgt.original@ {
                ApplyStatus::Conflict
            } else if tgt.replacement is None {
                ApplyStatus::CommentOnly
            } else {
                ApplyStatus::Applied
            }
        },
    }
}

/// Apply the suggestion with the given identifier to the document: check
/// that it is still live, splice its replacement over its span, drop it from
/// the set, and shift every suggestion past the edit point by the size
/// change. On any failure the document is left alone and the set returned
/// unchanged; on success no remaining suggestion overlaps the edited region
/// (when the edit removed a non-empty span).
pub fn apply_edit(document: &Vec<u8>, suggestions: Vec<Suggestion>, target_id: &String) -> (r:
    ApplyResult)
    requires
        sorted_by_offset(suggestions@),
        non_overlapping(suggestions@),
        spans_fit(suggestions@),
    ensures
        r.status == apply_status_spec(document@, suggestions@, target_id@),
        !(r.status is Applied) ==> r.document is None && r.suggestions == suggestions,
        r.status is Applied ==> ({
            let t = find_by_id(suggestions@, target_id@).unwrap();
            let tgt = suggestions@[t];
            let repl = tgt.replacement.unwrap();
            &&& r.document matches Some(d) && d@ == spliced(
                document@,
                tgt.offset as int,
                tgt.length as int,
                repl@,
            )
            &&& r.suggestions@ == shift_tail(
                suggestions@.remove(t),
                tgt.offset as int,
                tgt.length as int,
                repl@.len() as int,
            )
            &&& sorted_by_offset(r.suggestions@)
            &&& non_overlapping(r.suggestions@)
            &&& spans_fit(r.suggestions@)
            &&& tgt.length > 0 ==> forall|k: int|
                0 <= k < r.suggestions@.len() ==> span_end(#[trigger] r.suggestions@[k])
                    <= tgt.offset as int || r.suggestions@[k].offset >= tgt.offset + repl@.len()
        }),
{
    let ghost ss = suggestions@;
    // locate the target by identifier
    let n = suggestions.len();
    let mut t: usize = 0;
    loop
        invariant
            n == ss.len(),
            ss == suggestions@,
            0 <= t <= n,
            find_by_id(ss, target_id@) == find_by_id_from(ss, target_id@, t as int),
        ensures
            0 <= t < n,
            find_by_id(ss, target_id@) == Some(t as int),
        decreases n - t,
    {
        if t == n {
            proof {
                assert(apply_status_spec(document@, ss, target_id@) is NotFound);
            }
            return ApplyResult { document: None, suggestions, status: ApplyStatus::NotFound };
        }
        if suggestions[t].id == *target_id {
            break ;
        }
        t = t + 1;
    }
    // liveness check
    let tgt_offset = suggestions[t].offset;
    let tgt_length = suggestions[t].length;
    let doc_len = document.len();
    if tgt_offset > doc_len || doc_len - tgt_offset < tgt_length {
        return ApplyResult { document: None, suggestions, status: ApplyStatus::InvalidRange };
    }
    let slice = copy_range(document, tgt_offset, tgt_offset + tgt_length);
    if !crate::text::bytes_eq(&slice, &suggestions[t].original) {
        return ApplyResult { document: None, suggestions, status: ApplyStatus::Conflict };
    }
    if suggestions[t].replacement.is_none() {
        return ApplyResult { document: None, suggestions, status: ApplyStatus::CommentOnly };
    }
    // splice the replacement in and reconcile the rest
    let mut rest = suggestions;
    let tgt = rest.remove(t);
    let ghost remaining = ss.remove(t as int);
    let repl = match tgt.replacement {
        Some(repl) => repl,
        None => {
            proof {
                assert(false);
            }
            Vec::new()
        },
    };
    let new_document = splice(document, tgt_offset, tgt_length, &repl);
    let added = repl.len();
    proof {
        assert forall|i: int|
            0 <= i < remaining.len() implies ((#[trigger] remaining[i]).offset > tgt_offset as int
            ==> remaining[i].offset >= tgt_offset + tgt_length) && (remaining[i].offset
            < tgt_offset as int ==> span_end(remaining[i]) <= tgt_offset as int) && (
        remaining[i].offset == tgt_offset as int ==> tgt_length == 0 || span_end(remaining[i])
            <= tgt_offset as int) by {
            if i < t {
                assert(remaining[i] == ss[i]);
                assert(span_end(ss[i]) <= ss[t as int].offset);
            } else {
                assert(remaining[i] == ss[i + 1]);
                assert(span_end(ss[t as int]) <= ss[i + 1].offset);
            }
        }
        assert(sorted_by_offset(remaining) && non_overlapping(remaining) && spans_fit(
            remaining,
        )) by {
            assert forall|i: int, j: int| 0 <= i < j < remaining.len() implies span_end(
                #[trigger] remaining[i],
            ) <= (#[trigger] remaining[j]).offset && remaining[i].offset <= remaining[j].offset
                && span_end(remaining[i]) <= usize::MAX by {
                let oi = if i < t {
                    i
                } else {
                    i + 1
                };
                let oj = if j < t {
                    j
                } else {
                    j + 1
                };
                assert(remaining[i] == ss[oi]);
                assert(remaining[j] == ss[oj]);
            }
            assert forall|i: int| 0 <= i < remaining.len() implies span_end(#[trigger] remaining[i])
                <= usize::MAX by {
                let oi = if i < t {
                    i
                } else {
                    i + 1
                };
                assert(remaining[i] == ss[oi]);
            }
        }
        lemma_shift_tail_wf(remaining, tgt_offset as int, tgt_length as int, added as int);
    }
    let mut out: Vec<Suggestion> = Vec::new();
    while rest.len() > 0
        invariant
            shift_tail(remaining, tgt_offset as int, tgt_length as int, added as int) =~= out@
                + shift_tail(rest@, tgt_offset as int, tgt_length as int, added as int),
            forall|i: int|
                0 <= i < rest@.len() ==> ((#[trigger] rest@[i]).offset > tgt_offset as int
                    ==> rest@[i].offset >= tgt_offset + tgt_length),
            spans_fit(rest@),
            added == repl@.len(),
        decreases rest@.len(),
    {
        let ghost prev = rest@;
        let s = rest.remove(0);
        proof {
            assert(s == prev.first());
            assert(rest@ =~= prev.drop_first());
            assert forall|i: int| 0 <= i < rest@.len() implies ((#[trigger] rest@[i]).offset
                > tgt_offset as int ==> rest@[i].offset >= tgt_offset + tgt_length) && span_end(
                rest@[i],
            ) <= usize::MAX by {
                assert(rest@[i] == prev[i + 1]);
            }
        }
        if s.offset <= tgt_offset {
            proof {
                assert(shift_tail(prev, tgt_offset as int, tgt_length as int, added as int)
                    == seq![s] + shift_tail(
                    rest@,
                    tgt_offset as int,
                    tgt_length as int,
                    added as int,
                ));
            }
            out.push(s);
        } else {
            // s.offset >= tgt_offset + tgt_length, so the subtraction is safe
            let base = s.offset - tgt_length;
            if added <= usize::MAX - base && s.length <= usize::MAX - (base + added) {
                proof {
                    assert(shift_keeps(s, tgt_length as int, added as int));
                    assert(shift_tail(prev, tgt_offset as int, tgt_length as int, added as int)
                        == seq![shift_sug(s, tgt_length as int, added as int)] + shift_tail(
                        rest@,
                        tgt_offset as int,
                        tgt_length as int,
                        added as int,
                    ));
                }
                let mut s2 = s;
                s2.offset = base + added;
                proof {
                    assert(s2 == shift_sug(s, tgt_length as int, added as int));
                }
                out.push(s2);
            } else {
                proof {
                    assert(!shift_keeps(s, tgt_length as int, added as int));
                    assert(shift_tail(prev, tgt_offset as int, tgt_length as int, added as int)
                        == shift_tail(rest@, tgt_offset as int, tgt_length as int, added as int));
                }
            }
        }
    }
    proof {
        assert(out@ =~= shift_tail(remaining, tgt_offset as int, tgt_length as int, added as int));
        // the edited region is clear of every remaining span
        if tgt_length > 0 {
            assert forall|k: int| 0 <= k < out@.len() implies span_end(#[trigger] out@[k])
                <= tgt_offset as int || out@[k].offset >= tgt_offset + added by {
                let e = out@[k];
                assert(elem_src(remaining, e, tgt_offset as int, tgt_length as int, added as int));
                let i = choose|i: int|
                    0 <= i < remaining.len() && ((#[trigger] remaining[i]).offset
                        <= tgt_offset as int && e == remaining[i] || remaining[i].offset
                        > tgt_offset as int && shift_keeps(
                        remaining[i],
                        tgt_length as int,
                        added as int,
                    ) && e == shift_sug(remaining[i], tgt_length as int, added as int));
                if remaining[i].offset <= tgt_offset as int {
                    assert(span_end(remaining[i]) <= tgt_offset as int);
                } else {
                    assert(remaining[i].offset >= tgt_offset + tgt_length);
                }
            }
        }
    }
    ApplyResult { document: Some(new_document), suggestions: out, status: ApplyStatus::Applied }
}

} // verus!
