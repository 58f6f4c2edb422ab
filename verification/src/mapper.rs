//! The span mapper: converts raw model-reported matches into suggestions
//! with exact byte ranges over the document, rejecting anything out of
//! bounds, unresolvable, or a no-op.
//!
//! A raw match is addressed either by character offsets counted in Unicode
//! scalar values over the text that was sent ([`CharMatch`]), or by a literal
//! substring located by first-match search, case-sensitive first and
//! case-insensitive as a fallback ([`crate::suggestion::LlmMatch`]). The
//! literal mode is ambiguous under repeated substrings: only the first
//! occurrence is ever selected, a known limitation.

use vstd::prelude::*;

use crate::normalize::{non_overlapping, normalize, normalize_spec, sorted_by_offset, spans_fit};
use crate::suggestion::{opt_view, LlmMatch, Severity, Suggestion};
use crate::text::{
    ascii_lowercase, boundary_table, bytes_eq, char_boundaries, copy_range, find_first,
    first_match, first_match_from, lower_seq, match_at,
};

verus! {

/// A raw model match addressed by character offsets: `start` and `end` count
/// Unicode scalar values over the text that was sent, `end` exclusive.
#[derive(Debug)]
pub struct CharMatch {
    /// Human-readable rationale.
    pub message: String,
    /// Scalar-value index of the start of the span.
    pub start: usize,
    /// Scalar-value index one past the end of the span.
    pub end: usize,
    /// Bytes to substitute for the span.
    pub replacement: Vec<u8>,
}

/// Everything a mapped suggestion is made of, except the minted identifier.
pub ghost struct MatchFields {
    pub message: Seq<char>,
    pub offset: int,
    pub original: Seq<u8>,
    pub replacement: Option<Seq<u8>>,
    pub severity: Severity,
}

/// `s` carries exactly the fields `f` (its identifier is free).
pub open spec fn has_fields(s: Suggestion, f: MatchFields) -> bool {
    &&& s.message@ == f.message
    &&& s.offset as int == f.offset
    &&& s.length as int == f.original.len()
    &&& s.original@ == f.original
    &&& opt_view(s.replacement) == f.replacement
    &&& s.severity == f.severity
}

/// What the span mapper produces for a character-offset match: `None` when
/// the offsets are out of range (`start > end`, or `end` past the scalar
/// count) or the edit is a no-op, otherwise the suggestion's fields, with the
/// byte range read off the boundary table.
pub open spec fn char_match_fields(text: Seq<u8>, m: CharMatch) -> Option<MatchFields> {
    let bs = char_boundaries(text);
    if m.start > m.end || m.end as int > bs.len() - 1 {
        None
    } else {
        let sb = bs[m.start as int];
        let eb = bs[m.end as int];
        let original = text.subrange(sb, eb);
        if original == m.replacement@ {
            None
        } else {
            Some(
                MatchFields {
                    message: m.message@,
                    offset: sb,
                    original: original,
                    replacement: Some(m.replacement@),
                    severity: Severity::Error,
                },
            )
        }
    }
}

/// Boundary positions are monotone in the scalar index.
proof fn lemma_boundaries_monotone(text: Seq<u8>, k1: int, k2: int)
    requires
        0 <= k1 <= k2 < char_boundaries(text).len(),
    ensures
        char_boundaries(text)[k1] <= char_boundaries(text)[k2],
    decreases k2 - k1,
{
    crate::text::lemma_char_boundaries_props(text);
    if k1 < k2 {
        lemma_boundaries_monotone(text, k1, k2 - 1);
    }
}

/// Map one character-offset match onto the document. Returns `None` exactly
/// when `char_match_fields` says so; a returned suggestion's byte range,
/// decoded back through the boundary table of the same document, reproduces
/// the original scalar-value range.
pub fn map_char_match(text: &Vec<u8>, m: CharMatch) -> (r: Option<Suggestion>)
    ensures
        match char_match_fields(text@, m) {
            None => r is None,
            Some(f) => r matches Some(s) && has_fields(s, f),
        },
{
    let bs = boundary_table(text);
    proof {
        crate::text::lemma_char_boundaries_props(text@);
    }
    let char_len = bs.len() - 1;
    if m.start > m.end || m.end > char_len {
        return None;
    }
    proof {
        lemma_boundaries_monotone(text@, m.start as int, m.end as int);
    }
    let start_b = bs[m.start];
    let end_b = bs[m.end];
    let original = copy_range(text, start_b, end_b);
    if bytes_eq(&original, &m.replacement) {
        return None;
    }
    Some(Suggestion::new(m.message, start_b, original, Some(m.replacement), Severity::Error))
}

/// Boundary positions grow strictly with the scalar index.
proof fn lemma_boundaries_strict(text: Seq<u8>, k1: int, k2: int)
    requires
        0 <= k1 < k2 < char_boundaries(text).len(),
    ensures
        char_boundaries(text)[k1] < char_boundaries(text)[k2],
{
    crate::text::lemma_char_boundaries_props(text);
    lemma_boundaries_monotone(text, k1 + 1, k2);
}

/// The scalar-value range behind a mapped character-offset suggestion can be
/// decoded back from its byte range alone: the boundary table positions of
/// `offset` and `offset + length` are exactly the match's `start` and `end`.
pub proof fn lemma_char_match_round_trip(text: Seq<u8>, m: CharMatch)
    requires
        char_match_fields(text, m) is Some,
    ensures
        ({
            let f = char_match_fields(text, m).unwrap();
            let bs = char_boundaries(text);
            &&& 0 <= m.start <= m.end < bs.len()
            &&& bs[m.start as int] == f.offset
            &&& bs[m.end as int] == f.offset + f.original.len()
            &&& forall|s2: int, e2: int|
                0 <= s2 < bs.len() && 0 <= e2 < bs.len() && bs[s2] == f.offset && bs[e2] == f.offset
                    + f.original.len() ==> s2 == m.start && e2 == m.end
        }),
{
    let f = char_match_fields(text, m).unwrap();
    let bs = char_boundaries(text);
    crate::text::lemma_char_boundaries_props(text);
    lemma_boundaries_monotone(text, m.start as int, m.end as int);
    assert forall|s2: int, e2: int|
        0 <= s2 < bs.len() && 0 <= e2 < bs.len() && bs[s2] == f.offset && bs[e2] == f.offset
            + f.original.len() implies s2 == m.start && e2 == m.end by {
        if s2 < m.start {
            lemma_boundaries_strict(text, s2, m.start as int);
        }
        if s2 > m.start {
            lemma_boundaries_strict(text, m.start as int, s2);
        }
        if e2 < m.end {
            lemma_boundaries_strict(text, e2, m.end as int);
        }
        if e2 > m.end {
            lemma_boundaries_strict(text, m.end as int, e2);
        }
    }
}

/// What the span mapper produces for a literal-substring match: `None` for
/// an empty `original`, an empty or no-op `replacement`, or a substring found
/// nowhere (not even case-insensitively); otherwise the fields, with the
/// offset of the first occurrence (case-sensitive first, then ASCII
/// case-insensitive).
pub open spec fn literal_match_fields(text: Seq<u8>, m: LlmMatch) -> Option<MatchFields> {
    if m.original@.len() == 0 {
        None
    } else if match m.replacement {
        Some(r) => r@.len() == 0 || r@ == m.original@,
        None => false,
    } {
        None
    } else {
        let fields = |p: int|
            MatchFields {
                message: m.message@,
                offset: p,
                original: m.original@,
                replacement: opt_view(m.replacement),
                severity: m.severity,
            };
        match first_match(text, m.original@) {
            Some(p) => Some(fields(p)),
            None => match first_match(lower_seq(text), lower_seq(m.original@)) {
                Some(p) => Some(fields(p)),
                None => None,
            },
        }
    }
}

/// Map one literal-substring match onto the document.
pub fn map_literal_match(text: &Vec<u8>, m: LlmMatch) -> (r: Option<Suggestion>)
    ensures
        match literal_match_fields(text@, m) {
            None => r is None,
            Some(f) => r matches Some(s) && has_fields(s, f),
        },
{
    if m.original.len() == 0 {
        return None;
    }
    match &m.replacement {
        Some(repl) => {
            if repl.len() == 0 || bytes_eq(repl, &m.original) {
                return None;
            }
        },
        None => {},
    }
    let offset = match find_first(text, &m.original) {
        Some(p) => p,
        None => {
            let lower_text = ascii_lowercase(text);
            let lower_original = ascii_lowercase(&m.original);
            match find_first(&lower_text, &lower_original) {
                Some(p) => p,
                None => {
                    return None;
                },
            }
        },
    };
    Some(Suggestion::new(m.message, offset, m.original, m.replacement, m.severity))
}

/// A found first match really is a match.
pub proof fn lemma_first_match_is_match(text: Seq<u8>, pat: Seq<u8>, p: int, q: int)
    requires
        0 <= p,
        first_match_from(text, pat, p) == Some(q),
    ensures
        match_at(text, pat, q),
        p <= q,
    decreases text.len() - p + 1,
{
    if p + pat.len() > text.len() {
    } else if match_at(text, pat, p) {
    } else {
        lemma_first_match_is_match(text, pat, p + 1, q);
    }
}

/// A mapped character-offset suggestion's span lies inside the text it was
/// mapped against.
pub proof fn lemma_char_fields_in_text(text: Seq<u8>, m: CharMatch)
    requires
        char_match_fields(text, m) is Some,
    ensures
        0 <= char_match_fields(text, m).unwrap().offset,
        char_match_fields(text, m).unwrap().offset + char_match_fields(text, m).unwrap().original.len()
            <= text.len(),
{
    crate::text::lemma_char_boundaries_props(text);
    lemma_boundaries_monotone(text, m.start as int, m.end as int);
}

/// A mapped literal-substring suggestion's span lies inside the text it was
/// mapped against.
pub proof fn lemma_literal_fields_in_text(text: Seq<u8>, m: LlmMatch)
    requires
        literal_match_fields(text, m) is Some,
    ensures
        0 <= literal_match_fields(text, m).unwrap().offset,
        literal_match_fields(text, m).unwrap().offset + literal_match_fields(
            text,
            m,
        ).unwrap().original.len() <= text.len(),
{
    match first_match(text, m.original@) {
        Some(p) => {
            lemma_first_match_is_match(text, m.original@, 0, p);
        },
        None => {
            match first_match(lower_seq(text), lower_seq(m.original@)) {
                Some(p) => {
                    lemma_first_match_is_match(lower_seq(text), lower_seq(m.original@), 0, p);
                },
                None => {},
            }
        },
    }
}

/// `out` is exactly the list of suggestions that mapping `ms` one by one
/// produces, in order, each carrying the fields the mapper assigns (the
/// identifiers are free).
pub open spec fn literal_conversion(text: Seq<u8>, ms: Seq<LlmMatch>, out: Seq<Suggestion>) -> bool
    decreases ms.len(),
{
    if ms.len() == 0 {
        out.len() == 0
    } else {
        match literal_match_fields(text, ms.last()) {
            Some(f) => out.len() >= 1 && has_fields(out.last(), f) && literal_conversion(
                text,
                ms.drop_last(),
                out.drop_last(),
            ),
            None => literal_conversion(text, ms.drop_last(), out),
        }
    }
}

/// As `literal_conversion`, for character-offset matches.
pub open spec fn char_conversion(text: Seq<u8>, ms: Seq<CharMatch>, out: Seq<Suggestion>) -> bool
    decreases ms.len(),
{
    if ms.len() == 0 {
        out.len() == 0
    } else {
        match char_match_fields(text, ms.last()) {
            Some(f) => out.len() >= 1 && has_fields(out.last(), f) && char_conversion(
                text,
                ms.drop_last(),
                out.drop_last(),
            ),
            None => char_conversion(text, ms.drop_last(), out),
        }
    }
}

/// Map a batch of literal-substring matches and normalize the result:
/// matches that fail validation are silently dropped, the rest become
/// suggestions sorted by offset with all overlaps removed.
pub fn convert_matches_to_suggestions(text: &Vec<u8>, matches: Vec<LlmMatch>) -> (r: Vec<
    Suggestion,
>)
    ensures
        exists|mid: Seq<Suggestion>|
            #[trigger] literal_conversion(text@, matches@, mid) && r@ == normalize_spec(mid),
        sorted_by_offset(r@),
        non_overlapping(r@),
        spans_fit(r@),
{
    let text_len = text.len();
    let ghost all = matches@;
    let mut rest = matches;
    let mut mapped: Vec<Suggestion> = Vec::new();
    let ghost mut done = 0int;
    while rest.len() > 0
        invariant
            text_len == text@.len(),
            0 <= done <= all.len(),
            rest@ =~= all.subrange(done, all.len() as int),
            literal_conversion(text@, all.subrange(0, done), mapped@),
            spans_fit(mapped@),
        decreases rest@.len(),
    {
        let m = rest.remove(0);
        proof {
            assert(m == all[done]);
            assert(rest@ =~= all.subrange(done + 1, all.len() as int));
            assert(all.subrange(0, done + 1).drop_last() =~= all.subrange(0, done));
            assert(all.subrange(0, done + 1).last() == all[done]);
        }
        let ghost prev_mapped = mapped@;
        match map_literal_match(text, m) {
            Some(s) => {
                proof {
                    lemma_literal_fields_in_text(text@, m);
                    assert(crate::normalize::span_end(s) <= usize::MAX);
                }
                mapped.push(s);
                proof {
                    assert(mapped@.drop_last() =~= prev_mapped);
                    assert forall|i: int| 0 <= i < mapped@.len() implies crate::normalize::span_end(
                        #[trigger] mapped@[i],
                    ) <= usize::MAX by {
                        if i < prev_mapped.len() {
                            assert(mapped@[i] == prev_mapped[i]);
                        }
                    }
                }
            },
            None => {},
        }
        proof {
            assert(literal_conversion(text@, all.subrange(0, done + 1), mapped@));
            done = done + 1;
        }
    }
    proof {
        assert(all.subrange(0, all.len() as int) =~= all);
    }
    let ghost mid = mapped@;
    let r = normalize(mapped);
    proof {
        assert(literal_conversion(text@, all, mid) && r@ == normalize_spec(mid));
    }
    r
}

/// Map a batch of character-offset matches and normalize the result.
pub fn convert_llm_matches_to_suggestions(text: &Vec<u8>, matches: Vec<CharMatch>) -> (r: Vec<
    Suggestion,
>)
    ensures
        exists|mid: Seq<Suggestion>|
            #[trigger] char_conversion(text@, matches@, mid) && r@ == normalize_spec(mid),
        sorted_by_offset(r@),
        non_overlapping(r@),
        spans_fit(r@),
{
    let text_len = text.len();
    let ghost all = matches@;
    let mut rest = matches;
    let mut mapped: Vec<Suggestion> = Vec::new();
    let ghost mut done = 0int;
    while rest.len() > 0
        invariant
            text_len == text@.len(),
            0 <= done <= all.len(),
            rest@ =~= all.subrange(done, all.len() as int),
            char_conversion(text@, all.subrange(0, done), mapped@),
            spans_fit(mapped@),
        decreases rest@.len(),
    {
        let m = rest.remove(0);
        proof {
            assert(m == all[done]);
            assert(rest@ =~= all.subrange(done + 1, all.len() as int));
            assert(all.subrange(0, done + 1).drop_last() =~= all.subrange(0, done));
            assert(all.subrange(0, done + 1).last() == all[done]);
        }
        let ghost prev_mapped = mapped@;
        match map_char_match(text, m) {
            Some(s) => {
                proof {
                    lemma_char_fields_in_text(text@, m);
                    assert(crate::normalize::span_end(s) <= usize::MAX);
                }
                mapped.push(s);
                proof {
                    assert(mapped@.drop_last() =~= prev_mapped);
                    assert forall|i: int| 0 <= i < mapped@.len() implies crate::normalize::span_end(
                        #[trigger] mapped@[i],
                    ) <= usize::MAX by {
                        if i < prev_mapped.len() {
                            assert(mapped@[i] == prev_mapped[i]);
                        }
                    }
                }
            },
            None => {},
        }
        proof {
            assert(char_conversion(text@, all.subrange(0, done + 1), mapped@));
            done = done + 1;
        }
    }
    proof {
        assert(all.subrange(0, all.len() as int) =~= all);
    }
    let ghost mid = mapped@;
    let r = normalize(mapped);
    proof {
        assert(char_conversion(text@, all, mid) && r@ == normalize_spec(mid));
    }
    r
}

} // verus!
