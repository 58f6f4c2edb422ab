use grammy::highlight::{compute_line_starts, spans_from_suggestions, Highlight, Settings, Span, SuggestionHighlighter};
use grammy::suggestion::{Severity, Suggestion};

fn sug(offset: usize, original: &str, severity: Severity) -> Suggestion {
    Suggestion::new(
        "note".to_string(),
        offset,
        original.as_bytes().to_vec(),
        Some("fix".as_bytes().to_vec()),
        severity,
    )
}

#[test]
fn line_starts_follow_every_line_feed() {
    let text = "ab\ncd\n\nef".as_bytes().to_vec();
    assert_eq!(compute_line_starts(&text), vec![0, 3, 6, 7]);
    assert_eq!(compute_line_starts(&Vec::new()), vec![0]);
    assert_eq!(compute_line_starts(&"x\n".as_bytes().to_vec()), vec![0, 2]);
}

#[test]
fn spans_take_their_colour_from_severity_or_hover() {
    let error = sug(0, "ab", Severity::Error);
    let warning = sug(3, "cd", Severity::Warning);
    let minor = sug(6, "ef", Severity::Suggestion);
    let hovered_id = warning.id.clone();
    let suggestions = vec![error, warning, minor];

    let plain = spans_from_suggestions(&suggestions, None);
    assert_eq!(plain.len(), 3);
    assert_eq!(plain[0], Span { start: 0, end: 2, kind: Highlight::Error });
    assert_eq!(plain[1], Span { start: 3, end: 5, kind: Highlight::Warning });
    assert_eq!(plain[2], Span { start: 6, end: 8, kind: Highlight::Suggestion });

    let hovered = spans_from_suggestions(&suggestions, Some(&hovered_id));
    assert_eq!(hovered[1], Span { start: 3, end: 5, kind: Highlight::Hovered });
}

#[test]
fn zero_length_suggestions_paint_nothing() {
    let empty = sug(4, "", Severity::Error);
    let spans = spans_from_suggestions(&vec![empty], None);
    assert_eq!(spans.len(), 0);
}

#[test]
fn highlight_line_clips_spans_to_the_line() {
    // document "abcde\nfghij": a span crossing the line break is clipped on
    // each line
    let text = "abcde\nfghij".as_bytes().to_vec();
    let settings = Settings {
        line_starts: compute_line_starts(&text),
        spans: vec![Span { start: 3, end: 8, kind: Highlight::Error }],
    };
    let mut h = SuggestionHighlighter::new(&settings);
    assert_eq!(h.current_line(), 0);
    let first = h.highlight_line(&"abcde".as_bytes().to_vec());
    assert_eq!(first, vec![Span { start: 3, end: 5, kind: Highlight::Error }]);
    assert_eq!(h.current_line(), 1);
    let second = h.highlight_line(&"fghij".as_bytes().to_vec());
    assert_eq!(second, vec![Span { start: 0, end: 2, kind: Highlight::Error }]);
}

#[test]
fn highlight_line_sorts_spans_and_skips_empty_lines() {
    let text = "abcdefgh".as_bytes().to_vec();
    let settings = Settings {
        line_starts: compute_line_starts(&text),
        spans: vec![
            Span { start: 5, end: 7, kind: Highlight::Warning },
            Span { start: 1, end: 3, kind: Highlight::Error },
        ],
    };
    let mut h = SuggestionHighlighter::new(&settings);
    let spans = h.highlight_line(&text);
    assert_eq!(
        spans,
        vec![
            Span { start: 1, end: 3, kind: Highlight::Error },
            Span { start: 5, end: 7, kind: Highlight::Warning },
        ]
    );
    let mut h2 = SuggestionHighlighter::new(&settings);
    assert_eq!(h2.highlight_line(&Vec::new()), vec![]);
}

#[test]
fn changed_settings_restart_the_line_walk() {
    let settings = Settings { line_starts: vec![0], spans: vec![] };
    let mut h = SuggestionHighlighter::new(&settings);
    h.change_line(4);
    assert_eq!(h.current_line(), 4);
    // unchanged settings keep the position
    h.update(&Settings { line_starts: vec![0], spans: vec![] });
    assert_eq!(h.current_line(), 4);
    // changed settings restart from the top
    h.update(&Settings { line_starts: vec![0, 5], spans: vec![] });
    assert_eq!(h.current_line(), 0);
}
