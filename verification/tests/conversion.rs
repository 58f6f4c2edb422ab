use grammy::mapper::{convert_llm_matches_to_suggestions, convert_matches_to_suggestions, map_char_match, map_literal_match, CharMatch};
use grammy::suggestion::{LlmMatch, Severity};

fn lm(message: &str, original: &str, replacement: Option<&str>, severity: Severity) -> LlmMatch {
    LlmMatch {
        message: message.to_string(),
        original: original.as_bytes().to_vec(),
        replacement: replacement.map(|r| r.as_bytes().to_vec()),
        severity,
    }
}

#[test]
fn test_normal_suggestion() {
    let text = "I has a cat.".as_bytes().to_vec();
    let matches = vec![lm("grammar error", "has", Some("have"), Severity::Error)];

    let suggestions = convert_matches_to_suggestions(&text, matches);
    assert_eq!(suggestions.len(), 1);
    assert_eq!(suggestions[0].original, "has".as_bytes().to_vec());
    assert_eq!(suggestions[0].replacement, Some("have".as_bytes().to_vec()));
}

#[test]
fn test_comment_only_suggestion() {
    let text = "I has a cat.".as_bytes().to_vec();
    let matches = vec![lm("ambiguous phrasing", "has", None, Severity::Warning)];

    let suggestions = convert_matches_to_suggestions(&text, matches);
    assert_eq!(suggestions.len(), 1);
    assert_eq!(suggestions[0].original, "has".as_bytes().to_vec());
    assert!(suggestions[0].replacement.is_none());
}

#[test]
fn test_empty_replacement_ignored() {
    let text = "I has a cat.".as_bytes().to_vec();
    let matches = vec![lm("test", "has", Some(""), Severity::Error)];

    let suggestions = convert_matches_to_suggestions(&text, matches);
    assert_eq!(suggestions.len(), 0);
}

#[test]
fn test_overlapping_suggestions() {
    let text = "I has a cat.".as_bytes().to_vec();
    // "I has" (0..5) and "has" (2..5): sorted by offset, overlaps dropped
    let matches = vec![
        lm("long", "I has", Some("I have"), Severity::Error),
        lm("short", "has", Some("have"), Severity::Error),
    ];

    let suggestions = convert_matches_to_suggestions(&text, matches);
    // "I has" starts at 0 and is kept; "has" at 2 overlaps last_end = 5
    assert_eq!(suggestions.len(), 1);
    assert_eq!(suggestions[0].original, "I has".as_bytes().to_vec());
}

#[test]
fn literal_match_offsets_and_lengths_are_byte_exact() {
    let text = "I has a cat.".as_bytes().to_vec();
    let m = lm("grammar error", "has", Some("have"), Severity::Error);
    let s = map_literal_match(&text, m).expect("mapped");
    assert_eq!(s.offset, 2);
    assert_eq!(s.length, 3);
    assert_eq!(&text[s.offset..s.offset + s.length], "has".as_bytes());
    assert_eq!(s.severity, Severity::Error);
    assert_eq!(s.message, "grammar error".to_string());
}

#[test]
fn literal_match_falls_back_to_case_insensitive_search() {
    let text = "Hello World".as_bytes().to_vec();
    let m = lm("case", "hello", Some("hi"), Severity::Warning);
    let s = map_literal_match(&text, m).expect("mapped");
    assert_eq!(s.offset, 0);
    assert_eq!(s.original, "hello".as_bytes().to_vec());
}

#[test]
fn literal_match_unresolvable_or_degenerate_is_dropped() {
    let text = "I has a cat.".as_bytes().to_vec();
    // nowhere in the document
    assert!(map_literal_match(&text, lm("m", "dog", Some("cat"), Severity::Error)).is_none());
    // empty original
    assert!(map_literal_match(&text, lm("m", "", Some("x"), Severity::Error)).is_none());
    // replacement equal to original is a no-op
    assert!(map_literal_match(&text, lm("m", "has", Some("has"), Severity::Error)).is_none());
}

#[test]
fn literal_match_picks_first_occurrence_only() {
    let text = "a cat and a cat".as_bytes().to_vec();
    let s = map_literal_match(&text, lm("m", "cat", Some("dog"), Severity::Error)).expect("mapped");
    assert_eq!(s.offset, 2);
}

fn cm(message: &str, start: usize, end: usize, replacement: &str) -> CharMatch {
    CharMatch {
        message: message.to_string(),
        start,
        end,
        replacement: replacement.as_bytes().to_vec(),
    }
}

#[test]
fn char_match_converts_scalar_offsets_to_byte_offsets_unicode_safe() {
    // "Hi 😀 there": the emoji is scalar 3 and occupies bytes 3..7
    let text = "Hi 😀 there".as_bytes().to_vec();
    let s = map_char_match(&text, cm("Change", 3, 4, "🙂")).expect("mapped");
    assert_eq!(s.original, "😀".as_bytes().to_vec());
    assert_eq!(s.replacement, Some("🙂".as_bytes().to_vec()));
    assert_eq!(&text[s.offset..s.offset + s.length], "😀".as_bytes());
    assert_eq!(s.offset, 3);
    assert_eq!(s.length, 4);
}

#[test]
fn char_match_round_trips_multibyte_ranges() {
    // "aé😀b": scalars a(1 byte), é(2 bytes), 😀(4 bytes), b
    let text = "aé😀b".as_bytes().to_vec();
    let s = map_char_match(&text, cm("m", 1, 3, "x")).expect("mapped");
    assert_eq!(s.offset, 1);
    assert_eq!(s.length, 6);
    assert_eq!(s.original, "é😀".as_bytes().to_vec());
}

#[test]
fn char_match_rejects_out_of_range_offsets() {
    let text = "Hi 😀 there".as_bytes().to_vec();
    // start past end
    assert!(map_char_match(&text, cm("m", 4, 3, "x")).is_none());
    // end past the scalar count (10 scalars)
    assert!(map_char_match(&text, cm("m", 0, 11, "x")).is_none());
    // whole-document range is fine
    assert!(map_char_match(&text, cm("m", 0, 10, "x")).is_some());
}

#[test]
fn char_match_rejects_no_op_edits() {
    let text = "Hi 😀 there".as_bytes().to_vec();
    assert!(map_char_match(&text, cm("m", 3, 4, "😀")).is_none());
}

#[test]
fn char_batch_is_sorted_and_overlap_free() {
    let text = "one two three".as_bytes().to_vec();
    let matches = vec![
        cm("b", 4, 7, "2"),
        cm("a", 0, 5, "1"),
        cm("c", 8, 13, "3"),
    ];
    let out = convert_llm_matches_to_suggestions(&text, matches);
    // "two" (4..7) is mapped first but sorting puts 0..5 first, and 4..7
    // overlaps it; 8..13 survives
    assert_eq!(out.len(), 2);
    assert_eq!(out[0].offset, 0);
    assert_eq!(out[0].length, 5);
    assert_eq!(out[1].offset, 8);
    assert_eq!(out[1].length, 5);
}
