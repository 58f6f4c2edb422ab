use grammy::normalize::normalize;
use grammy::reconcile::{apply_edit, ApplyStatus};
use grammy::suggestion::{Severity, Suggestion};

fn sug(message: &str, offset: usize, original: &str, replacement: Option<&str>) -> Suggestion {
    Suggestion::new(
        message.to_string(),
        offset,
        original.as_bytes().to_vec(),
        replacement.map(|r| r.as_bytes().to_vec()),
        Severity::Error,
    )
}

#[test]
fn normalize_sorts_by_offset_and_drops_overlaps() {
    let xs = vec![
        sug("c", 8, "cat", Some("dog")),
        sug("a", 0, "I has", Some("I have")),
        sug("b", 2, "has", Some("have")),
    ];
    let out = normalize(xs);
    assert_eq!(out.len(), 2);
    assert_eq!(out[0].offset, 0);
    assert_eq!(out[1].offset, 8);
    // no two kept spans overlap
    for w in out.windows(2) {
        assert!(w[0].offset + w[0].length <= w[1].offset);
    }
}

#[test]
fn normalize_is_idempotent_on_concrete_values() {
    let xs = vec![
        sug("c", 8, "cat", Some("dog")),
        sug("a", 0, "I has", Some("I have")),
        sug("b", 2, "has", Some("have")),
        sug("d", 8, "cat.", None),
    ];
    let once = normalize(xs);
    let copies: Vec<Suggestion> = once.iter().map(Suggestion::clone).collect();
    let twice = normalize(copies);
    assert_eq!(twice.len(), once.len());
    for (a, b) in once.iter().zip(twice.iter()) {
        assert_eq!(a.id, b.id);
        assert_eq!(a.offset, b.offset);
        assert_eq!(a.length, b.length);
        assert_eq!(a.original, b.original);
    }
}

#[test]
fn normalize_keeps_input_order_on_equal_offsets() {
    // two annotations at the same offset: the first-mentioned zero-length one
    // stays first
    let first = sug("first", 4, "", None);
    let second = sug("second", 4, "word", Some("term"));
    let first_id = first.id.clone();
    let second_id = second.id.clone();
    let out = normalize(vec![first, second]);
    assert_eq!(out.len(), 2);
    assert_eq!(out[0].id, first_id);
    assert_eq!(out[1].id, second_id);
}

#[test]
fn apply_splices_and_shifts_later_suggestions() {
    // document "I has a cat." with "has" -> "have" and a pending "cat" at 8
    let document = "I has a cat.".as_bytes().to_vec();
    let target = sug("grammar", 2, "has", Some("have"));
    let other = sug("style", 8, "cat", Some("dog"));
    let target_id = target.id.clone();
    let other_id = other.id.clone();
    let suggestions = normalize(vec![target, other]);
    assert_eq!(suggestions.len(), 2);

    let r = apply_edit(&document, suggestions, &target_id);
    assert_eq!(r.status, ApplyStatus::Applied);
    let new_document = r.document.expect("new document");
    assert_eq!(new_document, "I have a cat.".as_bytes().to_vec());
    assert_eq!(r.suggestions.len(), 1);
    assert_eq!(r.suggestions[0].id, other_id);
    // the untouched suggestion shifts from 8 to 9 and still matches
    assert_eq!(r.suggestions[0].offset, 9);
    let s = &r.suggestions[0];
    assert_eq!(&new_document[s.offset..s.offset + s.length], "cat".as_bytes());
}

#[test]
fn apply_leaves_earlier_suggestions_in_place() {
    let document = "I has a cat.".as_bytes().to_vec();
    let earlier = sug("subject", 0, "I", Some("We"));
    let target = sug("style", 8, "cat", Some("alligator"));
    let earlier_id = earlier.id.clone();
    let target_id = target.id.clone();
    let suggestions = normalize(vec![earlier, target]);

    let r = apply_edit(&document, suggestions, &target_id);
    assert_eq!(r.status, ApplyStatus::Applied);
    assert_eq!(r.document.unwrap(), "I has a alligator.".as_bytes().to_vec());
    assert_eq!(r.suggestions.len(), 1);
    assert_eq!(r.suggestions[0].id, earlier_id);
    assert_eq!(r.suggestions[0].offset, 0);
}

#[test]
fn apply_refuses_a_conflicting_span() {
    // the document changed after the check: the span no longer matches
    let document = "I had a cat.".as_bytes().to_vec();
    let target = sug("grammar", 2, "has", Some("have"));
    let target_id = target.id.clone();
    let r = apply_edit(&document, vec![target], &target_id);
    assert_eq!(r.status, ApplyStatus::Conflict);
    assert!(r.document.is_none());
    assert_eq!(r.suggestions.len(), 1);
}

#[test]
fn apply_refuses_an_out_of_range_span() {
    let document = "short".as_bytes().to_vec();
    let target = sug("grammar", 3, "long tail", Some("x"));
    let target_id = target.id.clone();
    let r = apply_edit(&document, vec![target], &target_id);
    assert_eq!(r.status, ApplyStatus::InvalidRange);
    assert!(r.document.is_none());
}

#[test]
fn apply_refuses_a_comment_only_suggestion() {
    let document = "I has a cat.".as_bytes().to_vec();
    let target = sug("just a note", 2, "has", None);
    let target_id = target.id.clone();
    let r = apply_edit(&document, vec![target], &target_id);
    assert_eq!(r.status, ApplyStatus::CommentOnly);
    assert!(r.document.is_none());
    assert_eq!(r.suggestions.len(), 1);
}

#[test]
fn apply_with_an_unknown_identifier_is_a_no_op() {
    let document = "I has a cat.".as_bytes().to_vec();
    let target = sug("grammar", 2, "has", Some("have"));
    let r = apply_edit(&document, vec![target], &"no-such-id".to_string());
    assert_eq!(r.status, ApplyStatus::NotFound);
    assert!(r.document.is_none());
    assert_eq!(r.suggestions.len(), 1);
}

#[test]
fn apply_keeps_remaining_spans_clear_of_the_edited_region() {
    // a shrinking edit: "have" -> "had" shifts the later span left
    let document = "We have a cat.".as_bytes().to_vec();
    let target = sug("tense", 3, "have", Some("had"));
    let other = sug("style", 10, "cat", Some("dog"));
    let target_id = target.id.clone();
    let suggestions = normalize(vec![target, other]);
    let r = apply_edit(&document, suggestions, &target_id);
    assert_eq!(r.status, ApplyStatus::Applied);
    let new_document = r.document.unwrap();
    assert_eq!(new_document, "We had a cat.".as_bytes().to_vec());
    let s = &r.suggestions[0];
    assert_eq!(s.offset, 9);
    assert_eq!(&new_document[s.offset..s.offset + s.length], "cat".as_bytes());
    // the edited region [3, 6) is clear of the remaining span
    assert!(s.offset >= 3 + "had".len());
}
