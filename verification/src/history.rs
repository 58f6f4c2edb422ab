//! A rolling window of user/assistant message pairs sent along with each
//! check request, so the model sees its own recent answers and avoids
//! repetitive or cyclic suggestions.

use std::collections::VecDeque;

use vstd::prelude::*;

verus! {

/// A single message in the conversation history.
#[derive(Debug)]
pub struct HistoryEntry {
    /// `"user"` or `"assistant"`.
    pub role: String,
    /// The message text.
    pub content: String,
}

/// Tracks the last `max_pairs` user/assistant message pairs; the oldest pair
/// falls out when a new one would exceed the capacity.
#[derive(Debug)]
pub struct MessageHistory {
    entries: VecDeque<HistoryEntry>,
    max_pairs: usize,
}

impl MessageHistory {
    /// The stored messages, oldest first.
    pub closed spec fn entries_view(self) -> Seq<HistoryEntry> {
        self.entries@
    }

    /// The capacity, in pairs.
    pub closed spec fn capacity_pairs(self) -> int {
        self.max_pairs as int
    }

    /// Messages always arrive in pairs and never exceed the capacity.
    pub open spec fn wf(self) -> bool {
        &&& 1 <= self.capacity_pairs() <= usize::MAX / 2
        &&& self.entries_view().len() % 2 == 0
        &&& self.entries_view().len() <= 2 * self.capacity_pairs()
    }

    /// A new history with capacity for `max_pairs` user/assistant pairs.
    pub fn new(max_pairs: usize) -> (h: MessageHistory)
        requires
            1 <= max_pairs <= usize::MAX / 2,
        ensures
            h.wf(),
            h.entries_view().len() == 0,
            h.capacity_pairs() == max_pairs,
    {
        MessageHistory { entries: VecDeque::with_capacity(max_pairs * 2), max_pairs }
    }

    /// Add a user/assistant message pair, dropping the oldest pair first when
    /// the history is full.
    pub fn push_pair(&mut self, user_content: String, assistant_content: String)
        requires
            old(self).wf(),
        ensures
            final(self).wf(),
            final(self).capacity_pairs() == old(self).capacity_pairs(),
            ({
                let base = if old(self).entries_view().len() == 2 * old(self).capacity_pairs() {
                    old(self).entries_view().skip(2)
                } else {
                    old(self).entries_view()
                };
                &&& final(self).entries_view().len() == base.len() + 2
                &&& forall|i: int|
                    0 <= i < base.len() ==> #[trigger] final(self).entries_view()[i] == base[i]
                &&& final(self).entries_view()[base.len() as int].role@ == "user"@
                &&& final(self).entries_view()[base.len() as int].content == user_content
                &&& final(self).entries_view()[base.len() as int + 1].role@ == "assistant"@
                &&& final(self).entries_view()[base.len() as int + 1].content == assistant_content
            }),
    {
        let ghost orig = self.entries@;
        while self.entries.len() >= self.max_pairs * 2
            invariant
                old(self).wf(),
                self.max_pairs == old(self).max_pairs,
                orig == old(self).entries@,
                self.entries@ == orig || (orig.len() == 2 * self.max_pairs && self.entries@
                    =~= orig.skip(2)),
                self.entries@.len() % 2 == 0,
            decreases self.entries@.len(),
        {
            let ghost before = self.entries@;
            let _ = self.entries.pop_front();
            let _ = self.entries.pop_front();
            proof {
                assert(before.len() >= 2);
                assert(self.entries@ =~= before.skip(2));
                assert(before == orig);
            }
        }
        self.entries.push_back(HistoryEntry { role: "user".to_owned(), content: user_content });
        self.entries.push_back(
            HistoryEntry { role: "assistant".to_owned(), content: assistant_content },
        );
    }

    /// All history entries, oldest first, for inclusion in a request.
    pub fn get_entries(&self) -> (r: Vec<&HistoryEntry>)
        ensures
            r@.len() == self.entries_view().len(),
            forall|i: int| 0 <= i < r@.len() ==> *r@[i] == self.entries_view()[i],
    {
        let mut r: Vec<&HistoryEntry> = Vec::new();
        let mut i: usize = 0;
        while i < self.entries.len()
            invariant
                0 <= i <= self.entries@.len(),
                r@.len() == i,
                forall|k: int| 0 <= k < i ==> *(#[trigger] r@[k]) == self.entries@[k],
            decreases self.entries@.len() - i,
        {
            r.push(&self.entries[i]);
            i = i + 1;
        }
        r
    }

    /// Forget everything, e.g. when starting fresh.
    pub fn clear(&mut self)
        requires
            old(self).wf(),
        ensures
            final(self).wf(),
            final(self).capacity_pairs() == old(self).capacity_pairs(),
            final(self).entries_view().len() == 0,
    {
        self.entries.clear();
    }

    /// True when no pair has been recorded.
    pub fn is_empty(&self) -> (r: bool)
        ensures
            r == (self.entries_view().len() == 0),
    {
        self.entries.len() == 0
    }
}

impl Default for MessageHistory {
    /// The default rolling window keeps five pairs.
    fn default() -> (h: MessageHistory)
        ensures
            h.wf(),
            h.entries_view().len() == 0,
            h.capacity_pairs() == 5,
    {
        MessageHistory::new(5)
    }
}

} // verus!
