//! Two-level progress counters: one overall counter across all items and
//! one sub-counter per started item.

use vstd::prelude::*;

verus! {

/// The sub-counter of one item.
#[derive(Clone, Debug, PartialEq, Eq)]
pub struct ItemProgress {
    /// What the counter is shown as.
    pub label: String,
    /// Estimated number of units the item will take.
    pub length: u64,
    /// Units processed so far.
    pub position: u64,
    /// Whether the counter is terminal.
    pub finished: bool,
    /// The final label, once finished.
    pub message: Option<String>,
}

/// `position + n`, stopping at the largest `u64`.
pub open spec fn saturating_sum(position: u64, n: u64) -> u64 {
    if position + n > u64::MAX {
        u64::MAX
    } else {
        (position + n) as u64
    }
}

impl ItemProgress {
    /// The counter after `n` more units: a terminal counter no longer moves.
    pub open spec fn advanced(self, n: u64) -> ItemProgress {
        if self.finished {
            self
        } else {
            ItemProgress { position: saturating_sum(self.position, n), ..self }
        }
    }

    /// The counter after it was marked terminal with `message`; the first
    /// mark stands.
    pub open spec fn closed_with(self, message: String) -> ItemProgress {
        if self.finished {
            self
        } else {
            ItemProgress { finished: true, message: Some(message), ..self }
        }
    }
}

/// The mathematical value of a [`ProgressTracker`].
pub ghost struct ProgressView {
    /// Number of items in the run.
    pub total: nat,
    /// Number of items completed so far.
    pub completed: nat,
    /// The sub-counters, indexed by handle.
    pub items: Seq<ItemProgress>,
}

impl ProgressView {
    /// The overall counter never exceeds its total.
    pub open spec fn wf(self) -> bool {
        self.completed <= self.total
    }

    /// The state after one more completion was signalled.
    pub open spec fn overall_advanced(self) -> ProgressView {
        if self.completed < self.total {
            ProgressView { completed: self.completed + 1, ..self }
        } else {
            self
        }
    }

    /// The state after a sub-counter was created.
    pub open spec fn with_item(self, label: String, estimated_units: u64) -> ProgressView {
        ProgressView {
            items: self.items.push(
                ItemProgress {
                    label,
                    length: estimated_units,
                    position: 0,
                    finished: false,
                    message: None,
                },
            ),
            ..self
        }
    }

    /// Whether `handle` names a sub-counter that still moves.
    pub open spec fn live(self, handle: int) -> bool {
        0 <= handle < self.items.len() && !self.items[handle].finished
    }

    /// The state after `n` units were added to the sub-counter `handle`.
    pub open spec fn item_advanced(self, handle: int, n: u64) -> ProgressView {
        if self.live(handle) {
            ProgressView {
                items: self.items.update(handle, self.items[handle].advanced(n)),
                ..self
            }
        } else {
            self
        }
    }

    /// The state after the sub-counter `handle` was marked terminal.
    pub open spec fn item_finished(self, handle: int, message: String) -> ProgressView {
        if self.live(handle) {
            ProgressView {
                items: self.items.update(handle, self.items[handle].closed_with(message)),
                ..self
            }
        } else {
            self
        }
    }
}

/// One call on the progress counters.
pub ghost enum ProgressOp {
    /// One completion is signalled.
    IncOverall,
    /// A sub-counter is created.
    NewItem { label: String, estimated_units: u64 },
    /// Units are added to a sub-counter.
    IncItem { handle: int, n: u64 },
    /// A sub-counter is marked terminal.
    FinishItem { handle: int, message: String },
}

impl ProgressView {
    /// The counters after `op`.
    pub open spec fn after(self, op: ProgressOp) -> ProgressView {
        match op {
            ProgressOp::IncOverall => self.overall_advanced(),
            ProgressOp::NewItem { label, estimated_units } => self.with_item(
                label,
                estimated_units,
            ),
            ProgressOp::IncItem { handle, n } => self.item_advanced(handle, n),
            ProgressOp::FinishItem { handle, message } => self.item_finished(handle, message),
        }
    }

    /// The counters after the calls `ops`, in order.
    pub open spec fn after_all(self, ops: Seq<ProgressOp>) -> ProgressView
        decreases ops.len(),
    {
        if ops.len() == 0 {
            self
        } else {
            self.after(ops.first()).after_all(ops.drop_first())
        }
    }
}

/// Whatever calls reach the counters, the overall counter never falls
/// and never passes its total, and the total never changes.
pub proof fn lemma_overall_is_monotone(progress: ProgressView, ops: Seq<ProgressOp>)
    requires
        progress.wf(),
    ensures
        progress.completed <= progress.after_all(ops).completed <= progress.total,
        progress.after_all(ops).total == progress.total,
    decreases ops.len(),
{
    if ops.len() > 0 {
        lemma_overall_is_monotone(progress.after(ops.first()), ops.drop_first());
    }
}

/// Whatever calls reach the counters, a handle keeps naming the same
/// sub-counter: its label and its length stay, its position never falls,
/// and once it is terminal nothing about it changes any more.
pub proof fn lemma_handles_are_stable(progress: ProgressView, ops: Seq<ProgressOp>, handle: int)
    requires
        0 <= handle < progress.items.len(),
    ensures
        handle < progress.after_all(ops).items.len(),
        progress.after_all(ops).items[handle].label == progress.items[handle].label,
        progress.after_all(ops).items[handle].length == progress.items[handle].length,
        progress.after_all(ops).items[handle].position >= progress.items[handle].position,
        progress.items[handle].finished ==> progress.after_all(ops).items[handle]
            == progress.items[handle],
    decreases ops.len(),
{
    if ops.len() > 0 {
        lemma_handles_are_stable(progress.after(ops.first()), ops.drop_first(), handle);
    }
}

/// Process-wide progress counters of one run.
#[derive(Clone, Debug, PartialEq, Eq)]
pub struct ProgressTracker {
    total: u64,
    completed: u64,
    items: Vec<ItemProgress>,
}

impl View for ProgressTracker {
    type V = ProgressView;

    closed spec fn view(&self) -> ProgressView {
        ProgressView {
            total: self.total as nat,
            completed: self.completed as nat,
            items: self.items@,
        }
    }
}

impl ProgressTracker {
    /// Counters for a run of `total` items: nothing completed, no
    /// sub-counter yet.
    pub fn new_overall(total: u64) -> (tracker: ProgressTracker)
        ensures
            tracker@ == (ProgressView { total: total as nat, completed: 0, items: Seq::empty() }),
            tracker@.wf(),
    {
        ProgressTracker { total, completed: 0, items: Vec::new() }
    }

    /// Number of items in the run.
    pub fn total(&self) -> (total: u64)
        ensures
            total == self@.total,
    {
        self.total
    }

    /// Number of items completed so far.
    pub fn completed(&self) -> (completed: u64)
        ensures
            completed == self@.completed,
    {
        self.completed
    }

    /// Number of sub-counters created so far.
    pub fn item_count(&self) -> (count: usize)
        ensures
            count == self@.items.len(),
    {
        self.items.len()
    }

    /// The sub-counter `handle`, if there is one.
    pub fn item(&self, handle: usize) -> (item: Option<&ItemProgress>)
        ensures
            handle < self@.items.len() ==> item == Some(&self@.items[handle as int]),
            handle >= self@.items.len() ==> item is None,
    {
        if handle < self.items.len() {
            Some(&self.items[handle])
        } else {
            None
        }
    }

    /// Signals one completion. The counter moves by one unless it already
    /// stands at its total; the result says whether it moved.
    pub fn inc_overall(&mut self) -> (moved: bool)
        ensures
            moved == (old(self)@.completed < old(self)@.total),
            final(self)@ == old(self)@.overall_advanced(),
            old(self)@.wf() ==> final(self)@.wf(),
    {
        if self.completed < self.total {
            self.completed = self.completed + 1;
            true
        } else {
            false
        }
    }

    /// Creates a sub-counter at position 0 and returns its handle.
    pub fn new_item(&mut self, label: String, estimated_units: u64) -> (handle: usize)
        ensures
            handle == old(self)@.items.len(),
            final(self)@ == old(self)@.with_item(label, estimated_units),
    {
        let handle = self.items.len();
        self.items.push(
            ItemProgress {
                label,
                length: estimated_units,
                position: 0,
                finished: false,
                message: None,
            },
        );
        handle
    }

    /// Adds `n` units to the sub-counter `handle`. Returns whether the
    /// handle names a sub-counter that still moves; otherwise nothing
    /// changes.
    pub fn inc_item(&mut self, handle: usize, n: u64) -> (moved: bool)
        ensures
            moved == old(self)@.live(handle as int),
            final(self)@ == old(self)@.item_advanced(handle as int, n),
    {
        if handle < self.items.len() && !self.items[handle].finished {
            let position = self.items[handle].position;
            self.items[handle].position = position.saturating_add(n);
            true
        } else {
            false
        }
    }

    /// Marks the sub-counter `handle` terminal with its final label.
    /// Returns whether the handle names a sub-counter that was still
    /// moving; otherwise nothing changes.
    pub fn finish_item(&mut self, handle: usize, message: String) -> (closed: bool)
        ensures
            closed == old(self)@.live(handle as int),
            final(self)@ == old(self)@.item_finished(handle as int, message),
    {
        if handle < self.items.len() && !self.items[handle].finished {
            self.items[handle].finished = true;
            self.items[handle].message = Some(message);
            assert(self.items@ =~= old(self).items@.update(
                handle as int,
                old(self).items@[handle as int].closed_with(message),
            ));
            true
        } else {
            false
        }
    }
}

} // verus!
