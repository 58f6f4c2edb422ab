//! Highlight spans for the editor: which byte ranges of each line are drawn
//! in which colour. Severity picks the colour; the hovered suggestion is
//! drawn in its own.

use vstd::prelude::*;

use crate::normalize::spans_fit;
use crate::suggestion::{Severity, Suggestion};

verus! {

/// What colour a span is drawn in.
#[derive(Debug, Clone, Copy, PartialEq, Eq, Structural)]
pub enum Highlight {
    /// Grammar errors, typos.
    Error,
    /// Awkward phrasing.
    Warning,
    /// Minor improvements.
    Suggestion,
    /// The suggestion currently hovered.
    Hovered,
}

/// A highlighted byte range `[start, end)`.
#[derive(Debug, Clone, Copy, PartialEq, Eq, Structural)]
pub struct Span {
    /// First highlighted byte.
    pub start: usize,
    /// One past the last highlighted byte.
    pub end: usize,
    /// The colour class.
    pub kind: Highlight,
}

/// What the highlighter needs to know about the document: where each line
/// starts, and which document-wide spans to draw.
#[derive(Debug)]
pub struct Settings {
    /// Byte offset of the start of each line, ascending, starting with 0.
    pub line_starts: Vec<usize>,
    /// The spans to draw, in document byte offsets.
    pub spans: Vec<Span>,
}

impl Clone for Settings {
    /// The copy carries the same line starts and spans.
    fn clone(&self) -> (r: Self)
        ensures
            r.line_starts@ == self.line_starts@,
            r.spans@ == self.spans@,
    {
        let r = Settings { line_starts: self.line_starts.clone(), spans: self.spans.clone() };
        proof {
            assert(r.line_starts@ =~= self.line_starts@);
            assert(r.spans@ =~= self.spans@);
        }
        r
    }
}

/// The line-start offsets of `text` at or after position `i`, ascending: a
/// line starts right after every line feed.
pub open spec fn line_starts_from(text: Seq<u8>, i: int) -> Seq<int>
    decreases text.len() - i when 0 <= i <= text.len()
{
    if i >= text.len() {
        Seq::empty()
    } else if text[i] == 0x0a {
        seq![i + 1] + line_starts_from(text, i + 1)
    } else {
        line_starts_from(text, i + 1)
    }
}

/// All line-start offsets of `text`: position 0, then one after every line
/// feed.
pub open spec fn line_starts_spec(text: Seq<u8>) -> Seq<int> {
    seq![0int] + line_starts_from(text, 0)
}

/// Byte offsets at which the lines of `text` begin: 0, then one past every
/// line feed.
pub fn compute_line_starts(text: &Vec<u8>) -> (r: Vec<usize>)
    ensures
        r@.len() == line_starts_spec(text@).len(),
        forall|k: int| 0 <= k < r@.len() ==> #[trigger] r@[k] as int == line_starts_spec(text@)[k],
{
    let ghost whole = line_starts_spec(text@);
    let mut r: Vec<usize> = Vec::new();
    r.push(0);
    let mut i: usize = 0;
    while i < text.len()
        invariant
            0 <= i <= text@.len(),
            whole == line_starts_spec(text@),
            whole =~= r@.map_values(|x: usize| x as int) + line_starts_from(text@, i as int),
        decreases text@.len() - i,
    {
        if text[i] == 0x0a {
            r.push(i + 1);
            proof {
                assert(r@.map_values(|x: usize| x as int) =~= r@.drop_last().map_values(
                    |x: usize| x as int,
                ) + seq![i + 1]);
            }
        }
        i = i + 1;
    }
    proof {
        assert(whole =~= r@.map_values(|x: usize| x as int));
        assert forall|k: int| 0 <= k < r@.len() implies #[trigger] r@[k] as int == line_starts_spec(
            text@,
        )[k] by {
            assert(r@.map_values(|x: usize| x as int)[k] == r@[k] as int);
        }
    }
    r
}

/// The colour for a suggestion: the hover colour when it is the hovered one,
/// otherwise its severity's colour.
pub open spec fn kind_of(s: Suggestion, hovered: Option<Seq<char>>) -> Highlight {
    if hovered matches Some(h) && s.id@ == h {
        Highlight::Hovered
    } else {
        match s.severity {
            Severity::Error => Highlight::Error,
            Severity::Warning => Highlight::Warning,
            Severity::Suggestion => Highlight::Suggestion,
        }
    }
}

/// The spans the suggestions paint, in order, with zero-length suggestions
/// skipped.
pub open spec fn spans_spec(ss: Seq<Suggestion>, hovered: Option<Seq<char>>) -> Seq<Span>
    decreases ss.len(),
{
    if ss.len() == 0 {
        Seq::empty()
    } else {
        let rest = spans_spec(ss.drop_first(), hovered);
        let s = ss.first();
        if s.length == 0 {
            rest
        } else {
            seq![
                Span {
                    start: s.offset,
                    end: (s.offset + s.length) as usize,
                    kind: kind_of(s, hovered),
                },
            ] + rest
        }
    }
}

/// The view of the hovered identifier.
pub open spec fn hovered_view(hovered_id: Option<&String>) -> Option<Seq<char>> {
    match hovered_id {
        Some(h) => Some(h@),
        None => None,
    }
}

/// One highlight span per actionable suggestion, coloured by severity, the
/// hovered one in the hover colour; zero-length suggestions paint nothing.
pub fn spans_from_suggestions(suggestions: &Vec<Suggestion>, hovered_id: Option<&String>) -> (r:
    Vec<Span>)
    requires
        spans_fit(suggestions@),
    ensures
        r@ == spans_spec(suggestions@, hovered_view(hovered_id)),
{
    let ghost all = suggestions@;
    let ghost hov = hovered_view(hovered_id);
    let mut r: Vec<Span> = Vec::new();
    let mut i: usize = 0;
    proof {
        assert(all.subrange(0, all.len() as int) =~= all);
    }
    while i < suggestions.len()
        invariant
            0 <= i <= all.len(),
            all == suggestions@,
            spans_fit(all),
            hov == hovered_view(hovered_id),
            spans_spec(all, hov) =~= r@ + spans_spec(all.subrange(i as int, all.len() as int), hov),
        decreases all.len() - i,
    {
        proof {
            assert(all.subrange(i as int, all.len() as int).first() == all[i as int]);
            assert(all.subrange(i as int, all.len() as int).drop_first() =~= all.subrange(
                i + 1,
                all.len() as int,
            ));
        }
        let s = &suggestions[i];
        if s.length > 0 {
            let hit = match hovered_id {
                Some(h) => s.id == *h,
                None => false,
            };
            let kind = if hit {
                Highlight::Hovered
            } else {
                match s.severity {
                    Severity::Error => Highlight::Error,
                    Severity::Warning => Highlight::Warning,
                    Severity::Suggestion => Highlight::Suggestion,
                }
            };
            let span = Span { start: s.offset, end: s.offset + s.length, kind };
            proof {
                assert(span == Span {
                    start: all[i as int].offset,
                    end: (all[i as int].offset + all[i as int].length) as usize,
                    kind: kind_of(all[i as int], hov),
                });
            }
            r.push(span);
        }
        i = i + 1;
    }
    proof {
        assert(all.subrange(all.len() as int, all.len() as int) =~= Seq::<Suggestion>::empty());
        assert(r@ =~= spans_spec(all, hov));
    }
    r
}

/// `a + b`, stopping at the largest `usize`.
pub open spec fn sat_add(a: int, b: int) -> int {
    if a + b <= usize::MAX {
        a + b
    } else {
        usize::MAX as int
    }
}

/// `a - b`, stopping at zero.
pub open spec fn sat_sub(a: int, b: int) -> int {
    if a >= b {
        a - b
    } else {
        0
    }
}

/// The smaller of `a` and `b`.
pub open spec fn min_int(a: int, b: int) -> int {
    if a <= b {
        a
    } else {
        b
    }
}

/// A document span clipped to the line beginning at `start_offset` with
/// `line_len` bytes, in line-local coordinates.
pub open spec fn clipped(span: Span, start_offset: int, line_len: int) -> Span {
    Span {
        start: min_int(sat_sub(span.start as int, start_offset), line_len) as usize,
        end: min_int(sat_sub(span.end as int, start_offset), line_len) as usize,
        ..span
    }
}

/// The document spans that overlap the line, clipped to it; spans that clip
/// to nothing are dropped.
pub open spec fn line_spans(spans: Seq<Span>, start_offset: int, line_len: int) -> Seq<Span>
    decreases spans.len(),
{
    if spans.len() == 0 {
        Seq::empty()
    } else {
        let rest = line_spans(spans.drop_first(), start_offset, line_len);
        let sp = spans.first();
        if sp.end as int <= start_offset || sp.start as int >= sat_add(start_offset, line_len) {
            rest
        } else {
            let c = clipped(sp, start_offset, line_len);
            if c.start < c.end {
                seq![c] + rest
            } else {
                rest
            }
        }
    }
}

/// `x` inserted after every span whose start is at most `x.start`: the
/// insertion step of a stable insertion sort.
pub open spec fn insert_span(s: Seq<Span>, x: Span) -> Seq<Span>
    decreases s.len(),
{
    if s.len() == 0 {
        seq![x]
    } else if s.last().start <= x.start {
        s.push(x)
    } else {
        insert_span(s.drop_last(), x).push(s.last())
    }
}

/// Stable sort of spans by ascending start.
pub open spec fn sort_spans(s: Seq<Span>) -> Seq<Span>
    decreases s.len(),
{
    if s.len() == 0 {
        Seq::empty()
    } else {
        insert_span(sort_spans(s.drop_last()), s.last())
    }
}

/// A sorted insertion splits at the insertion point.
proof fn lemma_insert_span_at(s: Seq<Span>, x: Span, p: int)
    requires
        0 <= p <= s.len(),
        forall|i: int| p <= i < s.len() ==> (#[trigger] s[i]).start > x.start,
        p > 0 ==> s[p - 1].start <= x.start,
    ensures
        insert_span(s, x) == s.subrange(0, p) + seq![x] + s.subrange(p, s.len() as int),
    decreases s.len(),
{
    if s.len() == 0 {
        assert(insert_span(s, x) =~= s.subrange(0, p) + seq![x] + s.subrange(p, s.len() as int));
    } else if s.last().start <= x.start {
        assert(p == s.len());
        assert(s.push(x) =~= s.subrange(0, p) + seq![x] + s.subrange(p, s.len() as int));
    } else {
        assert(p < s.len());
        assert forall|i: int| p <= i < s.drop_last().len() implies (
        #[trigger] s.drop_last()[i]).start > x.start by {
            assert(s.drop_last()[i] == s[i]);
        }
        lemma_insert_span_at(s.drop_last(), x, p);
        assert(insert_span(s.drop_last(), x).push(s.last()) =~= s.subrange(0, p) + seq![x]
            + s.subrange(p, s.len() as int));
    }
}

/// Feeds the editor the highlight spans of one line at a time. The editor
/// walks the document line by line, calling `highlight_line` for each; when
/// the settings change, the walk restarts from the top.
#[derive(Debug)]
pub struct SuggestionHighlighter {
    settings: Settings,
    current_line: usize,
}

impl SuggestionHighlighter {
    /// The settings the highlighter paints from.
    pub closed spec fn settings_view(self) -> Settings {
        self.settings
    }

    /// The index of the line the next `highlight_line` call is for.
    pub closed spec fn line_view(self) -> int {
        self.current_line as int
    }

    /// A highlighter over the given settings, starting at the first line.
    pub fn new(settings: &Settings) -> (h: SuggestionHighlighter)
        ensures
            h.settings_view().line_starts@ == settings.line_starts@,
            h.settings_view().spans@ == settings.spans@,
            h.line_view() == 0,
    {
        SuggestionHighlighter { settings: settings.clone(), current_line: 0 }
    }

    /// Adopt new settings; when they differ from the current ones, restart
    /// from the first line so the editor re-feeds every line.
    pub fn update(&mut self, new_settings: &Settings)
        ensures
            final(self).settings_view().line_starts@ == new_settings.line_starts@,
            final(self).settings_view().spans@ == new_settings.spans@,
            old(self).settings_view().line_starts@ == new_settings.line_starts@ && old(
                self,
            ).settings_view().spans@ == new_settings.spans@ ==> final(self).line_view() == old(
                self,
            ).line_view(),
            !(old(self).settings_view().line_starts@ == new_settings.line_starts@ && old(
                self,
            ).settings_view().spans@ == new_settings.spans@) ==> final(self).line_view() == 0,
    {
        let same = settings_eq(&self.settings, new_settings);
        if !same {
            self.current_line = 0;
        }
        self.settings = new_settings.clone();
    }

    /// Jump to the given line.
    pub fn change_line(&mut self, line: usize)
        ensures
            final(self).line_view() == line,
            final(self).settings_view() == old(self).settings_view(),
    {
        self.current_line = line;
    }

    /// The index of the line the next `highlight_line` call is for.
    pub fn current_line(&self) -> (r: usize)
        ensures
            r == self.line_view(),
    {
        self.current_line
    }

    /// The highlight spans of the current line, in line-local byte offsets,
    /// sorted by start: every document span that overlaps the line, clipped
    /// to it. Advances to the next line.
    pub fn highlight_line(&mut self, line: &Vec<u8>) -> (r: Vec<Span>)
        ensures
            final(self).settings_view() == old(self).settings_view(),
            final(self).line_view() == sat_add(old(self).line_view(), 1),
            r@ == highlight_line_spec(old(self).settings_view(), old(self).line_view(), line@),
    {
        let line_index = self.current_line;
        self.current_line =
        if self.current_line < usize::MAX {
            self.current_line + 1
        } else {
            usize::MAX
        };
        let start_offset: usize = if line_index < self.settings.line_starts.len() {
            self.settings.line_starts[line_index]
        } else {
            0
        };
        let line_len = line.len();
        if line_len == 0 {
            return Vec::new();
        }
        // collect the spans that overlap this line, clipped to it
        let ghost all = self.settings.spans@;
        let mut relevant: Vec<Span> = Vec::new();
        let mut i: usize = 0;
        proof {
            assert(all.subrange(0, all.len() as int) =~= all);
        }
        while i < self.settings.spans.len()
            invariant
                0 <= i <= all.len(),
                all == self.settings.spans@,
                line_len == line@.len(),
                line_len > 0,
                line_spans(all, start_offset as int, line_len as int) =~= relevant@ + line_spans(
                    all.subrange(i as int, all.len() as int),
                    start_offset as int,
                    line_len as int,
                ),
            decreases all.len() - i,
        {
            proof {
                assert(all.subrange(i as int, all.len() as int).first() == all[i as int]);
                assert(all.subrange(i as int, all.len() as int).drop_first() =~= all.subrange(
                    i + 1,
                    all.len() as int,
                ));
            }
            let sp = self.settings.spans[i];
            let line_end = if start_offset <= usize::MAX - line_len {
                start_offset + line_len
            } else {
                usize::MAX
            };
            if !(sp.end <= start_offset || sp.start >= line_end) {
                let local_start_raw = if sp.start >= start_offset {
                    sp.start - start_offset
                } else {
                    0
                };
                let local_start = if local_start_raw <= line_len {
                    local_start_raw
                } else {
                    line_len
                };
                let local_end_raw = if sp.end >= start_offset {
                    sp.end - start_offset
                } else {
                    0
                };
                let local_end = if local_end_raw <= line_len {
                    local_end_raw
                } else {
                    line_len
                };
                if local_start < local_end {
                    let c = Span { start: local_start, end: local_end, kind: sp.kind };
                    proof {
                        assert(c == clipped(all[i as int], start_offset as int, line_len as int));
                    }
                    relevant.push(c);
                }
            }
            i = i + 1;
        }
        proof {
            assert(all.subrange(all.len() as int, all.len() as int) =~= Seq::<Span>::empty());
            assert(relevant@ =~= line_spans(all, start_offset as int, line_len as int));
        }
        // stable insertion sort by start position
        let ghost unsorted = relevant@;
        let mut rest = relevant;
        let mut sorted: Vec<Span> = Vec::new();
        let ghost mut done = 0int;
        while rest.len() > 0
            invariant
                0 <= done <= unsorted.len(),
                rest@ =~= unsorted.subrange(done, unsorted.len() as int),
                sorted@ == sort_spans(unsorted.subrange(0, done)),
                forall|a: int, b: int|
                    0 <= a < b < sorted@.len() ==> (#[trigger] sorted@[a]).start <= (
                    #[trigger] sorted@[b]).start,
            decreases rest@.len(),
        {
            let x = rest.remove(0);
            proof {
                assert(x == unsorted[done]);
                assert(rest@ =~= unsorted.subrange(done + 1, unsorted.len() as int));
                assert(unsorted.subrange(0, done + 1).drop_last() =~= unsorted.subrange(0, done));
                assert(unsorted.subrange(0, done + 1).last() == unsorted[done]);
            }
            let mut p: usize = sorted.len();
            while p > 0 && sorted[p - 1].start > x.start
                invariant
                    0 <= p <= sorted@.len(),
                    forall|a: int| p <= a < sorted@.len() ==> (#[trigger] sorted@[a]).start > x.start,
                decreases p,
            {
                p = p - 1;
            }
            let ghost prev_sorted = sorted@;
            proof {
                lemma_insert_span_at(prev_sorted, x, p as int);
            }
            sorted.insert(p, x);
            proof {
                assert(sorted@ =~= prev_sorted.subrange(0, p as int) + seq![x]
                    + prev_sorted.subrange(p as int, prev_sorted.len() as int));
                assert(sorted@ == insert_span(prev_sorted, x));
                assert(sorted@ == sort_spans(unsorted.subrange(0, done + 1)));
                assert forall|a: int, b: int| 0 <= a < b < sorted@.len() implies (
                #[trigger] sorted@[a]).start <= (#[trigger] sorted@[b]).start by {
                    let within = |q: int| {
                        if q < p {
                            prev_sorted[q]
                        } else if q == p {
                            x
                        } else {
                            prev_sorted[q - 1]
                        }
                    };
                    assert(sorted@[a] == within(a));
                    assert(sorted@[b] == within(b));
                }
                done = done + 1;
            }
        }
        proof {
            assert(unsorted.subrange(0, unsorted.len() as int) =~= unsorted);
        }
        sorted
    }
}

/// The spans `highlight_line` paints for line `line_index` with the given
/// byte content: nothing for an empty line, otherwise the overlapping spans
/// clipped to the line and stable-sorted by start.
pub open spec fn highlight_line_spec(settings: Settings, line_index: int, line: Seq<u8>) -> Seq<
    Span,
> {
    let start_offset: int = if 0 <= line_index < settings.line_starts@.len() {
        settings.line_starts@[line_index] as int
    } else {
        0
    };
    if line.len() == 0 {
        Seq::empty()
    } else {
        sort_spans(line_spans(settings.spans@, start_offset, line.len() as int))
    }
}


/// The settings compare equal exactly when their line starts and spans do.
pub fn settings_eq(a: &Settings, b: &Settings) -> (r: bool)
    ensures
        r == (a.line_starts@ == b.line_starts@ && a.spans@ == b.spans@),
{
    if a.line_starts.len() != b.line_starts.len() || a.spans.len() != b.spans.len() {
        proof {
            assert(a.line_starts@ == b.line_starts@ ==> a.line_starts@.len()
                == b.line_starts@.len());
            assert(a.spans@ == b.spans@ ==> a.spans@.len() == b.spans@.len());
        }
        return false;
    }
    let mut i: usize = 0;
    while i < a.line_starts.len()
        invariant
            a.line_starts@.len() == b.line_starts@.len(),
            a.spans@.len() == b.spans@.len(),
            0 <= i <= a.line_starts@.len(),
            forall|k: int| 0 <= k < i ==> a.line_starts@[k] == b.line_starts@[k],
        decreases a.line_starts@.len() - i,
    {
        if a.line_starts[i] != b.line_starts[i] {
            return false;
        }
        i = i + 1;
    }
    let mut j: usize = 0;
    while j < a.spans.len()
        invariant
            a.line_starts@.len() == b.line_starts@.len(),
            a.spans@.len() == b.spans@.len(),
            forall|k: int| 0 <= k < a.line_starts@.len() ==> a.line_starts@[k] == b.line_starts@[k],
            0 <= j <= a.spans@.len(),
            forall|k: int| 0 <= k < j ==> a.spans@[k] == b.spans@[k],
        decreases a.spans@.len() - j,
    {
        let sa = a.spans[j];
        let sb = b.spans[j];
        if !(sa.start == sb.start && sa.end == sb.end && sa.kind == sb.kind) {
            proof {
                assert(a.spans@[j as int] != b.spans@[j as int]);
            }
            return false;
        }
        j = j + 1;
    }
    proof {
        assert(a.line_starts@ =~= b.line_starts@);
        assert(a.spans@ =~= b.spans@);
    }
    true
}

} // verus!
