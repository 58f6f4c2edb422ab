use grammy::history::MessageHistory;

#[test]
fn test_push_and_get() {
    let mut history = MessageHistory::new(3);
    history.push_pair("user1".into(), "assistant1".into());
    history.push_pair("user2".into(), "assistant2".into());

    let entries = history.get_entries();
    assert_eq!(entries.len(), 4);
    assert_eq!(entries[0].role, "user");
    assert_eq!(entries[0].content, "user1");
    assert_eq!(entries[1].role, "assistant");
    assert_eq!(entries[1].content, "assistant1");
}

#[test]
fn test_capacity_limit() {
    let mut history = MessageHistory::new(2);
    history.push_pair("user1".into(), "assistant1".into());
    history.push_pair("user2".into(), "assistant2".into());
    history.push_pair("user3".into(), "assistant3".into());

    let entries = history.get_entries();
    assert_eq!(entries.len(), 4); // 2 pairs = 4 entries
    assert_eq!(entries[0].content, "user2"); // oldest pair removed
}

#[test]
fn test_clear() {
    let mut history = MessageHistory::new(5);
    history.push_pair("user1".into(), "assistant1".into());
    history.clear();
    assert!(history.is_empty());
}

#[test]
fn default_history_keeps_five_pairs() {
    let mut history = MessageHistory::default();
    for i in 0..7 {
        history.push_pair(format!("user{}", i), format!("assistant{}", i));
    }
    let entries = history.get_entries();
    assert_eq!(entries.len(), 10);
    assert_eq!(entries[0].content, "user2");
    assert_eq!(entries[9].content, "assistant6");
}
