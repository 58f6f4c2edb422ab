//! The suggestion normalizer: stable sort by offset, then a single
//! left-to-right sweep that drops every suggestion overlapping an
//! already-kept span.
//!
//! The presentation layer renders spans as non-overlapping highlighted
//! ranges, so the normalizer guarantees that no two returned suggestions
//! overlap; the sweep greedily favours earlier-starting spans and, among
//! spans with equal offsets, the one mentioned first.

use vstd::prelude::*;

use crate::suggestion::Suggestion;

verus! {

/// Exclusive end of the span of `s`.
pub open spec fn span_end(s: Suggestion) -> int {
    s.offset + s.length
}

/// The suggestions are ordered by ascending offset.
pub open spec fn sorted_by_offset(s: Seq<Suggestion>) -> bool {
    forall|i: int, j: int| 0 <= i < j < s.len() ==> #[trigger] s[i].offset <= #[trigger] s[j].offset
}

/// No two spans overlap: each span ends at or before the next begins.
pub open spec fn non_overlapping(s: Seq<Suggestion>) -> bool {
    forall|i: int, j: int|
        0 <= i < j < s.len() ==> span_end(#[trigger] s[i]) <= (#[trigger] s[j]).offset
}

/// Every span end fits in a `usize`.
pub open spec fn spans_fit(s: Seq<Suggestion>) -> bool {
    forall|i: int| 0 <= i < s.len() ==> span_end(#[trigger] s[i]) <= usize::MAX
}

/// `x` inserted after every element of `s` whose offset is at most
/// `x.offset`: the insertion step of a stable insertion sort.
pub open spec fn insert_by_offset(s: Seq<Suggestion>, x: Suggestion) -> Seq<Suggestion>
    decreases s.len(),
{
    if s.len() == 0 {
        seq![x]
    } else if s.last().offset <= x.offset {
        s.push(x)
    } else {
        insert_by_offset(s.drop_last(), x).push(s.last())
    }
}

/// Stable sort of `s` by ascending offset; elements with equal offsets keep
/// their input order.
pub open spec fn sort_by_offset(s: Seq<Suggestion>) -> Seq<Suggestion>
    decreases s.len(),
{
    if s.len() == 0 {
        Seq::empty()
    } else {
        insert_by_offset(sort_by_offset(s.drop_last()), s.last())
    }
}

/// The left-to-right sweep with cursor `last_end`: keep a suggestion only if
/// its offset is at or past the cursor, then advance the cursor to its span
/// end.
pub open spec fn sweep_from(s: Seq<Suggestion>, last_end: int) -> Seq<Suggestion>
    decreases s.len(),
{
    if s.len() == 0 {
        Seq::empty()
    } else if s.first().offset >= last_end {
        seq![s.first()] + sweep_from(s.drop_first(), span_end(s.first()))
    } else {
        sweep_from(s.drop_first(), last_end)
    }
}

/// What `normalize` returns.
pub open spec fn normalize_spec(s: Seq<Suggestion>) -> Seq<Suggestion> {
    sweep_from(sort_by_offset(s), 0)
}

/// The suggestions form a chain starting at or after `e`: each begins at or
/// after the previous span's end.
pub open spec fn chain_from(s: Seq<Suggestion>, e: int) -> bool
    decreases s.len(),
{
    s.len() == 0 || (s.first().offset >= e && chain_from(s.drop_first(), span_end(s.first())))
}

/// A chain is sorted, non-overlapping, and starts at or after `e`.
pub proof fn lemma_chain_props(s: Seq<Suggestion>, e: int)
    requires
        chain_from(s, e),
    ensures
        sorted_by_offset(s),
        non_overlapping(s),
        forall|i: int| 0 <= i < s.len() ==> e <= (#[trigger] s[i]).offset,
    decreases s.len(),
{
    if s.len() > 0 {
        lemma_chain_props(s.drop_first(), span_end(s.first()));
        assert forall|i: int, j: int| 0 <= i < j < s.len() implies span_end(#[trigger] s[i]) <= (
        #[trigger] s[j]).offset by {
            if i > 0 {
                assert(s[i] == s.drop_first()[i - 1]);
                assert(s[j] == s.drop_first()[j - 1]);
            } else {
                assert(s[j] == s.drop_first()[j - 1]);
            }
        }
        assert forall|i: int, j: int| 0 <= i < j < s.len() implies (#[trigger] s[i]).offset <= (
        #[trigger] s[j]).offset by {
            assert(span_end(s[i]) <= s[j].offset);
        }
        assert forall|i: int| 0 <= i < s.len() implies e <= (#[trigger] s[i]).offset by {
            if i > 0 {
                assert(s[i] == s.drop_first()[i - 1]);
            }
        }
    }
}

/// The sweep of a sorted sequence yields a chain.
pub proof fn lemma_sweep_chain(s: Seq<Suggestion>, e: int)
    requires
        sorted_by_offset(s),
    ensures
        chain_from(sweep_from(s, e), e),
    decreases s.len(),
{
    if s.len() > 0 {
        assert(sorted_by_offset(s.drop_first())) by {
            assert forall|i: int, j: int|
                0 <= i < j < s.drop_first().len() implies (#[trigger] s.drop_first()[i]).offset <= (
            #[trigger] s.drop_first()[j]).offset by {
                assert(s.drop_first()[i] == s[i + 1]);
                assert(s.drop_first()[j] == s[j + 1]);
            }
        }
        if s.first().offset >= e {
            lemma_sweep_chain(s.drop_first(), span_end(s.first()));
            let r = sweep_from(s, e);
            assert(r == seq![s.first()] + sweep_from(s.drop_first(), span_end(s.first())));
            assert(r.first() == s.first());
            assert(r.drop_first() =~= sweep_from(s.drop_first(), span_end(s.first())));
        } else {
            lemma_sweep_chain(s.drop_first(), e);
        }
    }
}

/// Sorting a sorted sequence changes nothing.
pub proof fn lemma_sort_of_sorted(s: Seq<Suggestion>)
    requires
        sorted_by_offset(s),
    ensures
        sort_by_offset(s) == s,
    decreases s.len(),
{
    if s.len() > 0 {
        assert(sorted_by_offset(s.drop_last())) by {
            assert forall|i: int, j: int|
                0 <= i < j < s.drop_last().len() implies (#[trigger] s.drop_last()[i]).offset <= (
            #[trigger] s.drop_last()[j]).offset by {
                assert(s.drop_last()[i] == s[i]);
                assert(s.drop_last()[j] == s[j]);
            }
        }
        lemma_sort_of_sorted(s.drop_last());
        if s.len() == 1 {
            assert(sort_by_offset(s) =~= s);
        } else {
            assert(s.drop_last().last().offset <= s.last().offset);
            assert(sort_by_offset(s) == s.drop_last().push(s.last()));
            assert(s.drop_last().push(s.last()) =~= s);
        }
    }
}

/// Sweeping a chain that already starts at or after `e` changes nothing.
pub proof fn lemma_sweep_of_chain(s: Seq<Suggestion>, e: int)
    requires
        chain_from(s, e),
    ensures
        sweep_from(s, e) == s,
    decreases s.len(),
{
    if s.len() > 0 {
        lemma_sweep_of_chain(s.drop_first(), span_end(s.first()));
        assert(sweep_from(s, e) =~= seq![s.first()] + s.drop_first());
        assert(seq![s.first()] + s.drop_first() =~= s);
    }
}

/// The normalizer is idempotent: normalizing an already-normalized sequence
/// returns it unchanged.
pub proof fn lemma_normalize_idempotent(s: Seq<Suggestion>)
    ensures
        normalize_spec(normalize_spec(s)) == normalize_spec(s),
{
    let sorted = sort_by_offset(s);
    lemma_sort_is_sorted(s);
    lemma_sweep_chain(sorted, 0);
    let r = normalize_spec(s);
    lemma_chain_props(r, 0);
    lemma_sort_of_sorted(r);
    lemma_sweep_of_chain(r, 0);
}

/// The result of a stable insertion is sorted when the input is.
proof fn lemma_insert_sorted(s: Seq<Suggestion>, x: Suggestion)
    requires
        sorted_by_offset(s),
    ensures
        sorted_by_offset(insert_by_offset(s, x)),
        insert_by_offset(s, x).len() == s.len() + 1,
    decreases s.len(),
{
    if s.len() == 0 {
    } else if s.last().offset <= x.offset {
        let r = s.push(x);
        assert forall|i: int, j: int| 0 <= i < j < r.len() implies (#[trigger] r[i]).offset <= (
        #[trigger] r[j]).offset by {
            if j < s.len() {
            } else {
                assert(r[j] == x);
                if i < s.len() - 1 {
                    assert(s[i].offset <= s.last().offset);
                }
            }
        }
    } else {
        assert(sorted_by_offset(s.drop_last())) by {
            assert forall|i: int, j: int|
                0 <= i < j < s.drop_last().len() implies (#[trigger] s.drop_last()[i]).offset <= (
            #[trigger] s.drop_last()[j]).offset by {
                assert(s.drop_last()[i] == s[i]);
                assert(s.drop_last()[j] == s[j]);
            }
        }
        lemma_insert_sorted(s.drop_last(), x);
        lemma_insert_elements(s.drop_last(), x);
        let inner = insert_by_offset(s.drop_last(), x);
        let r = inner.push(s.last());
        assert forall|i: int, j: int| 0 <= i < j < r.len() implies (#[trigger] r[i]).offset <= (
        #[trigger] r[j]).offset by {
            if j == r.len() - 1 {
                assert(r[j] == s.last());
                assert(r[i] == inner[i]);
                if inner[i] != x {
                    let k = choose|k: int| 0 <= k < s.drop_last().len() && inner[i]
                        == s.drop_last()[k];
                    assert(s.drop_last()[k] == s[k]);
                    assert(s[k].offset <= s.last().offset);
                }
            }
        }
    }
}

/// Every element of an insertion result is either from the input or the
/// inserted element.
proof fn lemma_insert_elements(s: Seq<Suggestion>, x: Suggestion)
    ensures
        forall|i: int|
            0 <= i < insert_by_offset(s, x).len() ==> #[trigger] insert_by_offset(s, x)[i] == x
                || exists|k: int| 0 <= k < s.len() && insert_by_offset(s, x)[i] == s[k],
    decreases s.len(),
{
    let r = insert_by_offset(s, x);
    if s.len() == 0 {
    } else if s.last().offset <= x.offset {
        assert forall|i: int| 0 <= i < r.len() implies #[trigger] r[i] == x || exists|k: int|
            0 <= k < s.len() && r[i] == s[k] by {
            if i < s.len() {
                assert(r[i] == s[i]);
            }
        }
    } else {
        lemma_insert_elements(s.drop_last(), x);
        let inner = insert_by_offset(s.drop_last(), x);
        assert forall|i: int| 0 <= i < r.len() implies #[trigger] r[i] == x || exists|k: int|
            0 <= k < s.len() && r[i] == s[k] by {
            if i < inner.len() {
                assert(r[i] == inner[i]);
                if inner[i] != x {
                    let k = choose|k: int| 0 <= k < s.drop_last().len() && inner[i]
                        == s.drop_last()[k];
                    assert(s.drop_last()[k] == s[k]);
                    assert(r[i] == s[k]);
                }
            } else {
                assert(r[i] == s.last());
                assert(s.last() == s[s.len() - 1]);
            }
        }
    }
}

/// A sort result is sorted.
pub proof fn lemma_sort_is_sorted(s: Seq<Suggestion>)
    ensures
        sorted_by_offset(sort_by_offset(s)),
        sort_by_offset(s).len() == s.len(),
    decreases s.len(),
{
    if s.len() > 0 {
        lemma_sort_is_sorted(s.drop_last());
        lemma_insert_sorted(sort_by_offset(s.drop_last()), s.last());
    }
}

/// A sorted insertion splits at the insertion point: everything before keeps
/// its place, `x` lands at `p`, everything after shifts up by one.
proof fn lemma_insert_at(s: Seq<Suggestion>, x: Suggestion, p: int)
    requires
        sorted_by_offset(s),
        0 <= p <= s.len(),
        forall|i: int| p <= i < s.len() ==> (#[trigger] s[i]).offset > x.offset,
        p > 0 ==> s[p - 1].offset <= x.offset,
    ensures
        insert_by_offset(s, x) == s.subrange(0, p) + seq![x] + s.subrange(p, s.len() as int),
    decreases s.len(),
{
    if s.len() == 0 {
        assert(insert_by_offset(s, x) =~= s.subrange(0, p) + seq![x] + s.subrange(
            p,
            s.len() as int,
        ));
    } else if s.last().offset <= x.offset {
        assert(p == s.len());
        assert(s.push(x) =~= s.subrange(0, p) + seq![x] + s.subrange(p, s.len() as int));
    } else {
        assert(sorted_by_offset(s.drop_last())) by {
            assert forall|i: int, j: int|
                0 <= i < j < s.drop_last().len() implies (#[trigger] s.drop_last()[i]).offset <= (
            #[trigger] s.drop_last()[j]).offset by {
                assert(s.drop_last()[i] == s[i]);
                assert(s.drop_last()[j] == s[j]);
            }
        }
        assert(p < s.len());
        assert forall|i: int| p <= i < s.drop_last().len() implies (#[trigger] s.drop_last()[
            i
        ]).offset > x.offset by {
            assert(s.drop_last()[i] == s[i]);
        }
        lemma_insert_at(s.drop_last(), x, p);
        assert(insert_by_offset(s.drop_last(), x).push(s.last()) =~= s.subrange(0, p) + seq![x]
            + s.subrange(p, s.len() as int));
    }
}

/// Normalize a suggestion list: stable-sort by offset, then keep only
/// suggestions that start at or past the end of the previously kept span.
/// Returns exactly `normalize_spec` of the input; the result never holds two
/// overlapping spans.
pub fn normalize(suggestions: Vec<Suggestion>) -> (r: Vec<Suggestion>)
    requires
        spans_fit(suggestions@),
    ensures
        r@ == normalize_spec(suggestions@),
        sorted_by_offset(r@),
        non_overlapping(r@),
        spans_fit(r@),
{
    let ghost input = suggestions@;
    let mut rest = suggestions;
    let mut sorted: Vec<Suggestion> = Vec::new();
    let ghost mut processed = 0int;
    while rest.len() > 0
        invariant
            0 <= processed <= input.len(),
            rest@ =~= input.subrange(processed, input.len() as int),
            sorted@ == sort_by_offset(input.subrange(0, processed)),
            sorted_by_offset(sorted@),
        decreases rest@.len(),
    {
        let ghost prev_rest = rest@;
        let x = rest.remove(0);
        proof {
            assert(x == input[processed]);
            assert(rest@ =~= input.subrange(processed + 1, input.len() as int));
        }
        // scan from the end for the stable insertion point
        let mut p: usize = sorted.len();
        while p > 0 && sorted[p - 1].offset > x.offset
            invariant
                0 <= p <= sorted@.len(),
                forall|i: int| p <= i < sorted@.len() ==> (#[trigger] sorted@[i]).offset > x.offset,
            decreases p,
        {
            p = p - 1;
        }
        let ghost prev_sorted = sorted@;
        proof {
            lemma_insert_at(prev_sorted, x, p as int);
            lemma_insert_sorted(prev_sorted, x);
            assert(input.subrange(0, processed + 1).drop_last() =~= input.subrange(0, processed));
            assert(input.subrange(0, processed + 1).last() == input[processed]);
        }
        sorted.insert(p, x);
        proof {
            assert(sorted@ =~= prev_sorted.subrange(0, p as int) + seq![x] + prev_sorted.subrange(
                p as int,
                prev_sorted.len() as int,
            ));
            assert(sorted@ == insert_by_offset(prev_sorted, x));
            assert(sorted@ == sort_by_offset(input.subrange(0, processed + 1)));
            processed = processed + 1;
        }
    }
    proof {
        assert(input.subrange(0, input.len() as int) =~= input);
        lemma_sort_elements_fit(input);
    }
    // the sweep
    let ghost sorted_full = sorted@;
    let mut rest2 = sorted;
    let mut kept: Vec<Suggestion> = Vec::new();
    let mut last_end: usize = 0;
    while rest2.len() > 0
        invariant
            sweep_from(sorted_full, 0) =~= kept@ + sweep_from(rest2@, last_end as int),
            spans_fit(rest2@),
        decreases rest2@.len(),
    {
        let ghost prev = rest2@;
        let s = rest2.remove(0);
        proof {
            assert(s == prev.first());
            assert(rest2@ =~= prev.drop_first());
            assert(span_end(s) <= usize::MAX);
            assert forall|i: int| 0 <= i < rest2@.len() implies span_end(#[trigger] rest2@[i])
                <= usize::MAX by {
                assert(rest2@[i] == prev[i + 1]);
            }
        }
        if s.offset >= last_end {
            let end = s.offset + s.length;
            proof {
                assert(sweep_from(prev, last_end as int) == seq![s] + sweep_from(
                    rest2@,
                    span_end(s),
                ));
                assert(kept@.push(s) + sweep_from(rest2@, span_end(s)) =~= kept@ + (seq![s]
                    + sweep_from(rest2@, span_end(s))));
            }
            kept.push(s);
            last_end = end;
        } else {
            proof {
                assert(sweep_from(prev, last_end as int) == sweep_from(rest2@, last_end as int));
            }
        }
    }
    proof {
        assert(sweep_from(rest2@, last_end as int) =~= Seq::<Suggestion>::empty());
        assert(kept@ =~= sweep_from(sorted_full, 0));
        lemma_sort_is_sorted(input);
        lemma_sweep_chain(sorted_full, 0);
        lemma_chain_props(kept@, 0);
        lemma_sweep_elements_fit(sorted_full, 0);
    }
    kept
}

/// Sorting preserves the bound on span ends.
proof fn lemma_sort_elements_fit(s: Seq<Suggestion>)
    requires
        spans_fit(s),
    ensures
        spans_fit(sort_by_offset(s)),
    decreases s.len(),
{
    if s.len() > 0 {
        assert(spans_fit(s.drop_last())) by {
            assert forall|i: int| 0 <= i < s.drop_last().len() implies span_end(
                #[trigger] s.drop_last()[i],
            ) <= usize::MAX by {
                assert(s.drop_last()[i] == s[i]);
            }
        }
        lemma_sort_elements_fit(s.drop_last());
        lemma_insert_elements_fit(sort_by_offset(s.drop_last()), s.last());
    }
}

/// Insertion preserves the bound on span ends.
proof fn lemma_insert_elements_fit(s: Seq<Suggestion>, x: Suggestion)
    requires
        spans_fit(s),
        span_end(x) <= usize::MAX,
    ensures
        spans_fit(insert_by_offset(s, x)),
    decreases s.len(),
{
    let r = insert_by_offset(s, x);
    if s.len() == 0 {
    } else if s.last().offset <= x.offset {
    } else {
        assert(spans_fit(s.drop_last())) by {
            assert forall|i: int| 0 <= i < s.drop_last().len() implies span_end(
                #[trigger] s.drop_last()[i],
            ) <= usize::MAX by {
                assert(s.drop_last()[i] == s[i]);
            }
        }
        lemma_insert_elements_fit(s.drop_last(), x);
        assert forall|i: int| 0 <= i < r.len() implies span_end(#[trigger] r[i])
            <= usize::MAX by {
            let inner = insert_by_offset(s.drop_last(), x);
            if i < inner.len() {
                assert(r[i] == inner[i]);
            } else {
                assert(r[i] == s.last());
                assert(s.last() == s[s.len() - 1]);
            }
        }
    }
}

/// The sweep keeps only elements of its input, so it preserves the bound on
/// span ends.
proof fn lemma_sweep_elements_fit(s: Seq<Suggestion>, e: int)
    requires
        spans_fit(s),
    ensures
        spans_fit(sweep_from(s, e)),
    decreases s.len(),
{
    if s.len() > 0 {
        assert(spans_fit(s.drop_first())) by {
            assert forall|i: int| 0 <= i < s.drop_first().len() implies span_end(
                #[trigger] s.drop_first()[i],
            ) <= usize::MAX by {
                assert(s.drop_first()[i] == s[i + 1]);
            }
        }
        if s.first().offset >= e {
            lemma_sweep_elements_fit(s.drop_first(), span_end(s.first()));
            let r = sweep_from(s, e);
            let inner = sweep_from(s.drop_first(), span_end(s.first()));
            assert forall|i: int| 0 <= i < r.len() implies span_end(#[trigger] r[i])
                <= usize::MAX by {
                if i > 0 {
                    assert(r[i] == inner[i - 1]);
                }
            }
        } else {
            lemma_sweep_elements_fit(s.drop_first(), e);
        }
    }
}

} // verus!
