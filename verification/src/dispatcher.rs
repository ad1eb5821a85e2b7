//! Fans the items of a run out to walkers, at most `cap` at a time.
//!
//! The dispatcher owns the admission gate, the progress counters and one
//! walker per started item. It is told what happened (the run started, a
//! sleep ended, a fetch came back, the run was cancelled) and answers with
//! what to do next for each item. It never sleeps, fetches or writes
//! itself.

use vstd::prelude::*;
use crate::gate::{ConcurrencyGate, GateView};
use crate::progress::{ProgressTracker, ProgressView};
use crate::record::{FetchError, Item, Page};
use crate::throttle::ThrottleView;
use crate::walker::{
    conclusion_of, response_view, Conclusion, ConfigView, PaginationWalker, ResponseView,
    WalkAction, WalkPhase, WalkerConfig, WalkerView,
};

verus! {

/// Where one item of a run stands, as a mathematical value.
pub ghost enum SlotView {
    /// Not started yet.
    Queued,
    /// Holds a slot of the admission gate; its walker is paging.
    Active(WalkerView),
    /// Its walker ended in this phase and the slot was given back.
    Done(WalkPhase),
}

/// Whether the slot holds a slot of the admission gate.
pub open spec fn holds_slot(slot: SlotView) -> bool {
    slot is Active
}

/// Whether the slot counts as a completed item: its walker ended by
/// itself, not by cancellation.
pub open spec fn is_completed(slot: SlotView) -> bool {
    slot matches SlotView::Done(phase) && !(phase is Cancelled)
}

/// The number of slots of `slots` for which `pred` holds.
pub open spec fn count_where(slots: Seq<SlotView>, pred: spec_fn(SlotView) -> bool) -> nat
    decreases slots.len(),
{
    if slots.len() == 0 {
        0
    } else {
        count_where(slots.drop_last(), pred) + if pred(slots.last()) {
            1nat
        } else {
            0nat
        }
    }
}

/// The predicate [`holds_slot`] as a value.
pub open spec fn holding() -> spec_fn(SlotView) -> bool {
    |slot: SlotView| holds_slot(slot)
}

/// The predicate [`is_completed`] as a value.
pub open spec fn completed() -> spec_fn(SlotView) -> bool {
    |slot: SlotView| is_completed(slot)
}

/// A count never exceeds the number of slots.
pub proof fn lemma_count_bound(slots: Seq<SlotView>, pred: spec_fn(SlotView) -> bool)
    ensures
        count_where(slots, pred) <= slots.len(),
    decreases slots.len(),
{
    if slots.len() > 0 {
        lemma_count_bound(slots.drop_last(), pred);
    }
}

/// Replacing one slot moves the count by what the old and the new slot
/// contribute.
pub proof fn lemma_count_update(
    slots: Seq<SlotView>,
    pred: spec_fn(SlotView) -> bool,
    i: int,
    slot: SlotView,
)
    requires
        0 <= i < slots.len(),
    ensures
        count_where(slots.update(i, slot), pred) + (if pred(slots[i]) {
            1nat
        } else {
            0nat
        }) == count_where(slots, pred) + (if pred(slot) {
            1nat
        } else {
            0nat
        }),
    decreases slots.len(),
{
    let updated = slots.update(i, slot);
    if i == slots.len() - 1 {
        assert(updated.drop_last() =~= slots.drop_last());
    } else {
        assert(updated.drop_last() =~= slots.drop_last().update(i, slot));
        lemma_count_update(slots.drop_last(), pred, i, slot);
    }
}

/// Two rows of slots that agree on `pred` slot by slot have the same
/// count.
pub proof fn lemma_count_agree(
    left: Seq<SlotView>,
    right: Seq<SlotView>,
    pred: spec_fn(SlotView) -> bool,
)
    requires
        left.len() == right.len(),
        forall|i: int| 0 <= i < left.len() ==> pred(left[i]) == pred(right[i]),
    ensures
        count_where(left, pred) == count_where(right, pred),
    decreases left.len(),
{
    if left.len() > 0 {
        lemma_count_agree(left.drop_last(), right.drop_last(), pred);
    }
}

/// The count is zero exactly when `pred` holds of no slot.
pub proof fn lemma_count_zero(slots: Seq<SlotView>, pred: spec_fn(SlotView) -> bool)
    ensures
        count_where(slots, pred) == 0 <==> forall|i: int| 0 <= i < slots.len() ==> !pred(slots[i]),
    decreases slots.len(),
{
    if slots.len() > 0 {
        lemma_count_zero(slots.drop_last(), pred);
        if count_where(slots, pred) == 0 {
            assert forall|i: int| 0 <= i < slots.len() implies !pred(slots[i]) by {
                if i < slots.len() - 1 {
                    assert(slots.drop_last()[i] == slots[i]);
                }
            }
        } else if forall|i: int| 0 <= i < slots.len() ==> !pred(slots[i]) {
            assert forall|i: int| 0 <= i < slots.drop_last().len() implies !pred(
                slots.drop_last()[i],
            ) by {
                assert(slots.drop_last()[i] == slots[i]);
            }
        }
    }
}

/// One item let in by the admission gate, with the first thing to do for
/// it.
#[derive(Clone, Copy, Debug, PartialEq, Eq)]
pub struct Admission {
    /// Index of the item in the run.
    pub item: usize,
    /// What to do for it now; `Finished` if it was done before it started.
    pub action: WalkAction,
}

/// The mathematical value of a [`Dispatcher`].
pub ghost struct DispatcherView {
    /// The items of the run, in the order given.
    pub items: Seq<Item>,
    /// The author whose records are kept.
    pub target: i64,
    /// The configuration every walker gets.
    pub config: ConfigView,
    /// The throttle delay every walker gets.
    pub delay: nat,
    /// The admission gate.
    pub gate: GateView,
    /// The progress counters.
    pub progress: ProgressView,
    /// One slot per item.
    pub slots: Seq<SlotView>,
    /// Index of the first item not started yet.
    pub next: nat,
    /// Whether the run was cancelled.
    pub cancelled: bool,
}

impl DispatcherView {
    /// Number of items that hold a slot of the admission gate.
    pub open spec fn active(self) -> nat {
        count_where(self.slots, holding())
    }

    /// Number of items whose walker ended by itself.
    pub open spec fn completions(self) -> nat {
        count_where(self.slots, completed())
    }

    /// What holds of every dispatcher between two calls.
    pub open spec fn wf(self) -> bool {
        &&& self.config.wf()
        &&& self.slots.len() == self.items.len()
        &&& self.items.len() <= usize::MAX
        &&& self.next <= self.items.len()
        &&& forall|i: int|
            0 <= i < self.slots.len() ==> (i >= self.next <==> self.slots[i] is Queued)
        &&& self.walkers_run()
        &&& 0 < self.gate.cap
        &&& self.gate.holders == self.active()
        &&& self.gate.wf()
        &&& self.progress.total == self.items.len()
        &&& self.progress.completed == self.completions()
        &&& self.progress.items.len() == self.next
        &&& self.counters_match()
        &&& self.cancelled ==> self.active() == 0
        &&& !self.cancelled ==> forall|i: int|
            0 <= i < self.slots.len() ==> !(#[trigger] self.slots[i] matches SlotView::Done(phase)
                && phase is Cancelled)
    }

    /// Every active item has a walker that is at work on it.
    pub open spec fn walkers_run(self) -> bool {
        forall|i: int|
            0 <= i < self.slots.len() ==> (#[trigger] self.slots[i] matches SlotView::Active(walker)
                ==> self.runs(i, walker))
    }

    /// The sub-counter of a started item is closed exactly when the item
    /// is completed.
    pub open spec fn counters_match(self) -> bool {
        forall|i: int|
            0 <= i < self.next ==> (#[trigger] self.progress.items[i].finished <==> is_completed(
                self.slots[i],
            ))
    }

    /// What holds of the walker of the active item `i`.
    pub open spec fn runs(self, i: int, walker: WalkerView) -> bool {
        &&& walker.wf()
        &&& walker.active()
        &&& walker.item == self.items[i]
        &&& walker.target == self.target
        &&& walker.config == self.config
        &&& walker.throttle.delay == self.delay
    }

    /// A dispatcher that has started nothing.
    pub open spec fn initial(
        items: Seq<Item>,
        target: i64,
        cap: nat,
        config: ConfigView,
        delay: nat,
    ) -> DispatcherView {
        DispatcherView {
            items,
            target,
            config,
            delay,
            gate: GateView { cap, holders: 0 },
            progress: ProgressView { total: items.len(), completed: 0, items: Seq::empty() },
            slots: Seq::new(items.len(), |i: int| SlotView::Queued),
            next: 0,
            cancelled: false,
        }
    }

    /// Whether the next queued item can start now.
    pub open spec fn can_admit(self) -> bool {
        !self.cancelled && self.next < self.items.len() && self.gate.admits()
    }

    /// The walker that `item` gets when it is admitted at `now`.
    pub open spec fn fresh_for(self, item: int, now: nat) -> WalkerView {
        WalkerView::initial(
            self.items[item],
            self.target,
            self.config,
            ThrottleView { delay: self.delay, last_release: now },
        )
    }

    /// The walker of the next queued item as it is made at `now`.
    pub open spec fn fresh(self, now: nat) -> WalkerView {
        self.fresh_for(self.next as int, now)
    }

    /// What the caller is told of the item admitted at `now`.
    pub open spec fn admission(self, now: nat) -> Admission {
        Admission { item: self.next as usize, action: self.fresh(now).action_at(now) }
    }

    /// The dispatcher after the next queued item was admitted at `now`.
    /// The item gets a sub-counter and a walker, which is polled at once.
    /// An item that is done before it starts takes no slot and counts as
    /// completed.
    pub open spec fn admit_one(self, now: nat) -> DispatcherView {
        let i = self.next as int;
        let fresh = self.fresh(now);
        let counted = self.progress.with_item(self.items[i].name, self.config.max_pages() as u64);
        if fresh.active() {
            DispatcherView {
                gate: self.gate.acquired(),
                progress: counted,
                slots: self.slots.update(i, SlotView::Active(fresh.polled(now))),
                next: self.next + 1,
                ..self
            }
        } else {
            DispatcherView {
                progress: counted.item_finished(i, self.items[i].name).overall_advanced(),
                slots: self.slots.update(i, SlotView::Done(fresh.phase)),
                next: self.next + 1,
                ..self
            }
        }
    }

    /// The dispatcher after every queued item that the admission gate lets
    /// in was admitted at `now`.
    pub open spec fn admit_all(self, now: nat) -> DispatcherView
        decreases self.items.len() - self.next,
    {
        if self.can_admit() {
            self.admit_one(now).admit_all(now)
        } else {
            self
        }
    }

    /// The items admitted by [`Self::admit_all`], in order.
    pub open spec fn admissions(self, now: nat) -> Seq<Admission>
        decreases self.items.len() - self.next,
    {
        if self.can_admit() {
            seq![self.admission(now)] + self.admit_one(now).admissions(now)
        } else {
            Seq::empty()
        }
    }

    /// Whether `item` has a walker.
    pub open spec fn is_active(self, item: int) -> bool {
        0 <= item < self.slots.len() && self.slots[item] is Active
    }

    /// The walker of the active item `item`.
    pub open spec fn walker(self, item: int) -> WalkerView {
        self.slots[item]->Active_0
    }

    /// The dispatcher after the sleep of `item` ended at `now`: its walker
    /// is polled. For an item without a walker nothing changes.
    pub open spec fn woken(self, item: int, now: nat) -> DispatcherView {
        if self.is_active(item) {
            DispatcherView {
                slots: self.slots.update(item, SlotView::Active(self.walker(item).polled(now))),
                ..self
            }
        } else {
            self
        }
    }

    /// Whether an answer for `item` is expected.
    pub open spec fn awaits(self, item: int) -> bool {
        self.is_active(item) && self.walker(item).phase is Fetching
    }

    /// The walker of `item` after `response` was delivered to it.
    pub open spec fn answered(self, item: int, response: ResponseView) -> WalkerView {
        self.walker(item).delivered(response)
    }

    /// The dispatcher after `response` was handed to the walker of `item`,
    /// which still pages after it: the sub-counter takes the units of the
    /// answer and the walker is polled at `now`.
    pub open spec fn advanced(self, item: int, response: ResponseView, now: nat) -> DispatcherView {
        DispatcherView {
            progress: self.progress.item_advanced(
                item,
                self.walker(item).units(response) as u64,
            ),
            slots: self.slots.update(
                item,
                SlotView::Active(self.answered(item, response).polled(now)),
            ),
            ..self
        }
    }

    /// The dispatcher after `response` ended the walker of `item`: the
    /// sub-counter takes the units of the answer and is closed, the slot
    /// is given back and the completion is counted.
    pub open spec fn settled(self, item: int, response: ResponseView) -> DispatcherView {
        DispatcherView {
            gate: self.gate.released(),
            progress: self.progress.item_advanced(
                item,
                self.walker(item).units(response) as u64,
            ).item_finished(item, self.items[item].name).overall_advanced(),
            slots: self.slots.update(item, SlotView::Done(self.answered(item, response).phase)),
            ..self
        }
    }

    /// The dispatcher after the fetch of `item` came back with `response`
    /// at `now`. The walker takes the answer and the sub-counter moves. A
    /// walker that still pages is polled; one that ended is retired, and
    /// queued items are admitted into the slot it gave back. An answer
    /// that is not expected changes nothing.
    pub open spec fn responded(
        self,
        item: int,
        response: ResponseView,
        now: nat,
    ) -> DispatcherView {
        if self.awaits(item) {
            if self.answered(item, response).active() {
                self.advanced(item, response, now)
            } else {
                self.settled(item, response).admit_all(now)
            }
        } else {
            self
        }
    }

    /// The dispatcher after the run was cancelled: every active item is
    /// dropped with its slot, and nothing starts any more.
    pub open spec fn cancelled(self) -> DispatcherView {
        DispatcherView {
            gate: self.gate.emptied(),
            slots: Seq::new(
                self.slots.len(),
                |i: int|
                    if self.slots[i] is Active {
                        SlotView::Done(WalkPhase::Cancelled)
                    } else {
                        self.slots[i]
                    },
            ),
            cancelled: true,
            ..self
        }
    }

    /// The phase of the walker of `item`, if the item has started.
    pub open spec fn phase_of(self, item: int) -> Option<WalkPhase> {
        if 0 <= item < self.slots.len() {
            match self.slots[item] {
                SlotView::Queued => None,
                SlotView::Active(walker) => Some(walker.phase),
                SlotView::Done(phase) => Some(phase),
            }
        } else {
            None
        }
    }

    /// Whether the run is over: nothing is active and nothing will start.
    pub open spec fn drained(self) -> bool {
        self.gate.holders == 0 && (self.cancelled || self.next == self.items.len())
    }
}

/// A walker that is polled, or handed an answer, stays well formed and
/// keeps its item, target, configuration and throttle delay.
pub proof fn lemma_walker_step(walker: WalkerView, response: ResponseView, now: nat)
    requires
        walker.wf(),
    ensures
        walker.polled(now).wf(),
        walker.polled(now).active() == walker.active(),
        walker.polled(now).item == walker.item,
        walker.polled(now).target == walker.target,
        walker.polled(now).config == walker.config,
        walker.polled(now).throttle.delay == walker.throttle.delay,
        walker.delivered(response).wf(),
        walker.delivered(response).item == walker.item,
        walker.delivered(response).target == walker.target,
        walker.delivered(response).config == walker.config,
        walker.delivered(response).throttle == walker.throttle,
        walker.delivered(response).concluded == walker.concluded,
        walker.phase is Fetching ==> !(walker.delivered(response).phase is Cancelled) && !(
        walker.delivered(response).phase is Fetching),
{
}

/// Replacing the slot of one item by a slot that is not active, or whose
/// walker is at work on the item, leaves every active item with a walker
/// that is at work on it.
proof fn lemma_walkers_run(d: DispatcherView, after: DispatcherView, item: int)
    requires
        d.walkers_run(),
        0 <= item < d.slots.len(),
        after.slots == d.slots.update(item, after.slots[item]),
        after.items == d.items,
        after.target == d.target,
        after.config == d.config,
        after.delay == d.delay,
        after.slots[item] matches SlotView::Active(walker) ==> after.runs(item, walker),
    ensures
        after.walkers_run(),
{
    assert forall|j: int| 0 <= j < after.slots.len() implies (
    #[trigger] after.slots[j] matches SlotView::Active(walker) ==> after.runs(j, walker)) by {
        if j != item {
            assert(after.slots[j] == d.slots[j]);
        }
    }
}

/// Changing the slot and the sub-counter of one item only, so that the
/// two agree, leaves the sub-counters in step with the slots.
proof fn lemma_counters_match(d: DispatcherView, after: DispatcherView, item: int)
    requires
        d.counters_match(),
        d.slots.len() == d.items.len(),
        d.progress.items.len() == d.next <= d.slots.len(),
        0 <= item < after.next,
        item < d.slots.len(),
        after.next <= d.next + 1,
        after.slots == d.slots.update(item, after.slots[item]),
        after.progress.items.len() == after.next,
        forall|j: int|
            0 <= j < d.next && j != item ==> #[trigger] after.progress.items[j]
                == d.progress.items[j],
        after.next == d.next + 1 ==> item == d.next,
        after.progress.items[item].finished <==> is_completed(after.slots[item]),
    ensures
        after.counters_match(),
{
    assert forall|j: int| 0 <= j < after.next implies (#[trigger] after.progress.items[j].finished
        <==> is_completed(after.slots[j])) by {
        if j != item {
            assert(after.slots[j] == d.slots[j]);
            assert(after.progress.items[j] == d.progress.items[j]);
        }
    }
}

/// A dispatcher that has started nothing is well formed.
pub proof fn lemma_initial_wf(
    items: Seq<Item>,
    target: i64,
    cap: nat,
    config: ConfigView,
    delay: nat,
)
    requires
        0 < cap,
        config.wf(),
        items.len() <= usize::MAX,
    ensures
        DispatcherView::initial(items, target, cap, config, delay).wf(),
{
    let d = DispatcherView::initial(items, target, cap, config, delay);
    lemma_count_zero(d.slots, holding());
    lemma_count_zero(d.slots, completed());
}

/// Admitting the next queued item keeps the dispatcher well formed.
pub proof fn lemma_admit_one_wf(d: DispatcherView, now: nat)
    requires
        d.wf(),
        d.can_admit(),
    ensures
        d.admit_one(now).wf(),
        d.admit_one(now).next == d.next + 1,
        d.admit_one(now).items == d.items,
{
    let i = d.next as int;
    let fresh = d.fresh(now);
    let after = d.admit_one(now);
    assert(d.slots[i] is Queued);
    assert(fresh.pages * fresh.config.page_size == 0) by (nonlinear_arith)
        requires
            fresh.pages == 0,
    ;
    lemma_walker_step(fresh, Err(FetchError::Transport), now);
    lemma_count_update(d.slots, holding(), i, after.slots[i]);
    lemma_count_update(d.slots, completed(), i, after.slots[i]);
    lemma_count_bound(after.slots, completed());
    lemma_walkers_run(d, after, i);
    lemma_counters_match(d, after, i);
}

/// Admitting every item that the admission gate lets in keeps the
/// dispatcher well formed and leaves nothing that could still be admitted.
pub proof fn lemma_admit_all_wf(d: DispatcherView, now: nat)
    requires
        d.wf(),
    ensures
        d.admit_all(now).wf(),
        !d.admit_all(now).can_admit(),
        d.admit_all(now).items == d.items,
    decreases d.items.len() - d.next,
{
    if d.can_admit() {
        lemma_admit_one_wf(d, now);
        lemma_admit_all_wf(d.admit_one(now), now);
    }
}

/// Polling the walker of an item keeps the dispatcher well formed.
pub proof fn lemma_woken_wf(d: DispatcherView, item: int, now: nat)
    requires
        d.wf(),
    ensures
        d.woken(item, now).wf(),
{
    if d.is_active(item) {
        let after = d.woken(item, now);
        lemma_walker_step(d.walker(item), Err(FetchError::Transport), now);
        lemma_count_update(d.slots, holding(), item, after.slots[item]);
        lemma_count_update(d.slots, completed(), item, after.slots[item]);
        lemma_walkers_run(d, after, item);
        lemma_counters_match(d, after, item);
    }
}

/// Ending the walker of an item keeps the dispatcher well formed,
/// touches no other slot, and moves the overall counter up by one.
pub proof fn lemma_settled_wf(d: DispatcherView, item: int, response: ResponseView)
    requires
        d.wf(),
        d.awaits(item),
        !d.answered(item, response).active(),
    ensures
        d.settled(item, response).wf(),
        d.settled(item, response).progress.completed == d.progress.completed + 1,
        d.settled(item, response).next == d.next,
        is_completed(d.settled(item, response).slots[item]),
        forall|j: int|
            0 <= j < d.slots.len() && j != item ==> #[trigger] d.settled(item, response).slots[j]
                == d.slots[j],
{
    let after = d.settled(item, response);
    lemma_walker_step(d.walker(item), response, 0);
    lemma_count_update(d.slots, holding(), item, after.slots[item]);
    lemma_count_update(d.slots, completed(), item, after.slots[item]);
    lemma_count_bound(after.slots, completed());
    lemma_walkers_run(d, after, item);
    lemma_counters_match(d, after, item);
}

/// Handing an answer to a walker that still pages after it keeps the
/// dispatcher well formed.
pub proof fn lemma_advanced_wf(d: DispatcherView, item: int, response: ResponseView, now: nat)
    requires
        d.wf(),
        d.awaits(item),
        d.answered(item, response).active(),
    ensures
        d.advanced(item, response, now).wf(),
{
    let after = d.advanced(item, response, now);
    lemma_walker_step(d.walker(item), response, now);
    lemma_walker_step(d.answered(item, response), response, now);
    lemma_count_update(d.slots, holding(), item, after.slots[item]);
    lemma_count_update(d.slots, completed(), item, after.slots[item]);
    lemma_walkers_run(d, after, item);
    lemma_counters_match(d, after, item);
}

/// Taking the answer to a fetch keeps the dispatcher well formed.
pub proof fn lemma_responded_wf(d: DispatcherView, item: int, response: ResponseView, now: nat)
    requires
        d.wf(),
    ensures
        d.responded(item, response, now).wf(),
{
    if d.awaits(item) {
        if d.answered(item, response).active() {
            lemma_advanced_wf(d, item, response, now);
        } else {
            lemma_settled_wf(d, item, response);
            lemma_admit_all_wf(d.settled(item, response), now);
        }
    }
}

/// Cancelling the run keeps the dispatcher well formed and leaves it
/// drained.
pub proof fn lemma_cancelled_wf(d: DispatcherView)
    requires
        d.wf(),
    ensures
        d.cancelled().wf(),
        d.cancelled().drained(),
{
    let after = d.cancelled();
    lemma_count_zero(after.slots, holding());
    lemma_count_agree(d.slots, after.slots, completed());
}

/// Why a run could not be set up.
#[derive(Clone, Copy, Debug, PartialEq, Eq)]
pub enum SetupError {
    /// A gate without room would never admit an item.
    ZeroConcurrency,
}

/// What the caller does after the answer to a fetch was taken.
#[derive(Debug)]
pub struct Reaction {
    /// Units by which the sub-counter of the item moved.
    pub units: u32,
    /// How the item ended and what to flush, if it ended with this answer.
    pub conclusion: Option<Conclusion>,
    /// What to do next for the item, if it still pages.
    pub next: Option<WalkAction>,
    /// The items admitted into the slot that the item gave back.
    pub admitted: Vec<Admission>,
}

/// What `reaction` says after `response` for `item` reached a dispatcher
/// that stood at `d`, at `now`.
pub open spec fn reaction_of(
    d: DispatcherView,
    item: int,
    response: ResponseView,
    now: nat,
    reaction: Reaction,
) -> bool {
    if d.awaits(item) {
        let walker = d.answered(item, response);
        &&& reaction.units == d.walker(item).units(response)
        &&& if walker.active() {
            &&& reaction.conclusion is None
            &&& reaction.next == Some(walker.action_at(now))
            &&& reaction.admitted@ == Seq::<Admission>::empty()
        } else {
            &&& conclusion_of(walker, reaction.conclusion)
            &&& reaction.next is None
            &&& reaction.admitted@ == d.settled(item, response).admissions(now)
        }
    } else {
        &&& reaction.units == 0
        &&& reaction.conclusion is None
        &&& reaction.next is None
        &&& reaction.admitted@ == Seq::<Admission>::empty()
    }
}

/// Where one item of a run stands.
#[derive(Debug)]
enum Slot {
    Queued,
    Active(PaginationWalker),
    Done(WalkPhase),
}

impl View for Slot {
    type V = SlotView;

    closed spec fn view(&self) -> SlotView {
        match self {
            Slot::Queued => SlotView::Queued,
            Slot::Active(walker) => SlotView::Active(walker@),
            Slot::Done(phase) => SlotView::Done(*phase),
        }
    }
}

/// Drives a run: admits items through its gate, steers their walkers and
/// keeps the progress counters.
#[derive(Debug)]
pub struct Dispatcher {
    items: Vec<Item>,
    target: i64,
    config: WalkerConfig,
    delay_ms: u64,
    gate: ConcurrencyGate,
    progress: ProgressTracker,
    slots: Vec<Slot>,
    next: usize,
    cancelled: bool,
}

impl View for Dispatcher {
    type V = DispatcherView;

    closed spec fn view(&self) -> DispatcherView {
        DispatcherView {
            items: self.items@,
            target: self.target,
            config: self.config@,
            delay: self.delay_ms as nat,
            gate: self.gate@,
            progress: self.progress@,
            slots: self.slots@.map_values(|slot: Slot| slot@),
            next: self.next as nat,
            cancelled: self.cancelled,
        }
    }
}

impl Dispatcher {
    /// A dispatcher for a run over `items` that keeps the records written
    /// by `target` and lets at most `cap` items page at a time. A cap of
    /// zero is refused. Nothing is started yet.
    pub fn new(
        items: Vec<Item>,
        target: i64,
        cap: usize,
        config: WalkerConfig,
        delay_ms: u64,
    ) -> (made: Result<Dispatcher, SetupError>)
        ensures
            cap == 0 ==> made is Err && made->Err_0 == SetupError::ZeroConcurrency,
            cap != 0 ==> made is Ok && made->Ok_0@ == DispatcherView::initial(
                items@,
                target,
                cap as nat,
                config@,
                delay_ms as nat,
            ) && made->Ok_0@.wf(),
    {
        if cap == 0 {
            return Err(SetupError::ZeroConcurrency);
        }
        let total = items.len();
        let mut slots: Vec<Slot> = Vec::new();
        while slots.len() < total
            invariant
                slots.len() <= total,
                forall|i: int| 0 <= i < slots.len() ==> slots[i] is Queued,
            decreases total - slots.len(),
        {
            slots.push(Slot::Queued);
        }
        let dispatcher = Dispatcher {
            items,
            target,
            config,
            delay_ms,
            gate: ConcurrencyGate::new(cap),
            progress: ProgressTracker::new_overall(total as u64),
            slots,
            next: 0,
            cancelled: false,
        };
        proof {
            use_type_invariant(&config);
            assert(dispatcher@.slots =~= Seq::new(items@.len(), |i: int| SlotView::Queued));
            lemma_initial_wf(items@, target, cap as nat, config@, delay_ms as nat);
        }
        Ok(dispatcher)
    }

    /// Number of items in the run.
    pub fn item_count(&self) -> (count: usize)
        ensures
            count == self@.items.len(),
    {
        self.items.len()
    }

    /// Number of items started so far.
    pub fn started(&self) -> (started: usize)
        ensures
            started == self@.next,
    {
        self.next
    }

    /// Number of items holding a gate slot.
    pub fn holders(&self) -> (holders: usize)
        ensures
            holders == self@.gate.holders,
    {
        self.gate.holders()
    }

    /// The cap of the admission gate.
    pub fn capacity(&self) -> (cap: usize)
        ensures
            cap == self@.gate.cap,
    {
        self.gate.capacity()
    }

    /// The progress counters.
    pub fn progress(&self) -> (progress: &ProgressTracker)
        ensures
            progress@ == self@.progress,
    {
        &self.progress
    }

    /// The phase of the walker of `item`: where it stands if the item is
    /// active, how it ended if the item is done, and nothing if the item
    /// is queued or not part of the run.
    pub fn phase_of(&self, item: usize) -> (phase: Option<WalkPhase>)
        ensures
            phase == self@.phase_of(item as int),
    {
        if item >= self.slots.len() {
            return None;
        }
        match &self.slots[item] {
            Slot::Queued => None,
            Slot::Active(walker) => Some(walker.phase()),
            Slot::Done(phase) => Some(*phase),
        }
    }

    /// Whether the run was cancelled.
    pub fn is_cancelled(&self) -> (cancelled: bool)
        ensures
            cancelled == self@.cancelled,
    {
        self.cancelled
    }

    /// Whether the run is over: nothing is active and nothing will start.
    pub fn is_drained(&self) -> (drained: bool)
        ensures
            drained == self@.drained(),
    {
        self.gate.holders() == 0 && (self.cancelled || self.next == self.items.len())
    }

    /// Whether the next queued item can start now.
    fn can_admit(&self) -> (can: bool)
        ensures
            can == self@.can_admit(),
    {
        !self.cancelled && self.next < self.items.len() && self.gate.holders()
            < self.gate.capacity()
    }

    /// Admits the next queued item at `now_ms`.
    fn admit_next(&mut self, now_ms: u64) -> (admission: Admission)
        requires
            old(self)@.wf(),
            old(self)@.can_admit(),
        ensures
            final(self)@ == old(self)@.admit_one(now_ms as nat),
            admission == old(self)@.admission(now_ms as nat),
            final(self)@.wf(),
    {
        let i = self.next;
        assert(i < self.items.len());
        let estimate = self.config.max_pages() as u64;
        let _ = self.progress.new_item(self.items[i].name.clone(), estimate);
        let mut walker = PaginationWalker::new(
            self.items[i].duplicate(),
            self.target,
            self.config,
            self.delay_ms,
            now_ms,
        );
        let ghost fresh = walker@;
        let action = walker.poll(now_ms);
        proof {
            lemma_walker_step(fresh, Err(FetchError::Transport), now_ms as nat);
            lemma_admit_one_wf(old(self)@, now_ms as nat);
        }
        if walker.is_active() {
            let _ = self.gate.try_acquire();
            self.slots[i] = Slot::Active(walker);
        } else {
            let _ = self.progress.finish_item(i, self.items[i].name.clone());
            let _ = self.progress.inc_overall();
            self.slots[i] = Slot::Done(walker.phase());
        }
        self.next = i + 1;
        assert(self@.slots =~= old(self)@.admit_one(now_ms as nat).slots);
        Admission { item: i, action }
    }

    /// Starts the run, or goes on with it, at `now_ms`: admits every
    /// queued item that the admission gate lets in, in the order of the
    /// run, and returns them with the first thing to do for each.
    pub fn start(&mut self, now_ms: u64) -> (admitted: Vec<Admission>)
        requires
            old(self)@.wf(),
        ensures
            final(self)@ == old(self)@.admit_all(now_ms as nat),
            admitted@ == old(self)@.admissions(now_ms as nat),
            final(self)@.wf(),
    {
        let mut admitted: Vec<Admission> = Vec::new();
        while self.can_admit()
            invariant
                self@.wf(),
                self@.admit_all(now_ms as nat) == old(self)@.admit_all(now_ms as nat),
                admitted@ + self@.admissions(now_ms as nat) == old(self)@.admissions(
                    now_ms as nat,
                ),
            decreases self@.items.len() - self@.next,
        {
            let ghost before = self@;
            let ghost so_far = admitted@;
            let admission = self.admit_next(now_ms);
            admitted.push(admission);
            proof {
                lemma_admit_one_wf(before, now_ms as nat);
                assert(admitted@ + self@.admissions(now_ms as nat) =~= so_far + before.admissions(
                    now_ms as nat,
                ));
            }
        }
        assert(admitted@ + self@.admissions(now_ms as nat) =~= admitted@);
        admitted
    }

    /// The sleep of `item` ended at `now_ms`: polls its walker and returns
    /// what to do next for it. For an item without a walker nothing
    /// changes and nothing is returned.
    pub fn on_wake(&mut self, item: usize, now_ms: u64) -> (action: Option<WalkAction>)
        requires
            old(self)@.wf(),
        ensures
            final(self)@ == old(self)@.woken(item as int, now_ms as nat),
            action == if old(self)@.is_active(item as int) {
                Some(old(self)@.walker(item as int).action_at(now_ms as nat))
            } else {
                None
            },
            final(self)@.wf(),
    {
        proof {
            lemma_woken_wf(self@, item as int, now_ms as nat);
        }
        if item >= self.slots.len() {
            return None;
        }
        let action = match &mut self.slots[item] {
            Slot::Active(walker) => Some(walker.poll(now_ms)),
            _ => None,
        };
        assert(self@.slots =~= old(self)@.woken(item as int, now_ms as nat).slots);
        action
    }

    /// The fetch of `item` came back with `response` at `now_ms`. The
    /// walker takes the answer and the sub-counter moves. A walker that
    /// still pages is polled; one that ended is concluded, its slot is
    /// given back, its completion is counted, and queued items are
    /// admitted. An answer that is not expected changes nothing.
    pub fn on_response(
        &mut self,
        item: usize,
        response: Result<Page, FetchError>,
        now_ms: u64,
    ) -> (reaction: Reaction)
        requires
            old(self)@.wf(),
        ensures
            final(self)@ == old(self)@.responded(
                item as int,
                response_view(response),
                now_ms as nat,
            ),
            reaction_of(
                old(self)@,
                item as int,
                response_view(response),
                now_ms as nat,
                reaction,
            ),
            final(self)@.wf(),
    {
        proof {
            lemma_responded_wf(self@, item as int, response_view(response), now_ms as nat);
        }
        let idle = Reaction { units: 0, conclusion: None, next: None, admitted: Vec::new() };
        if item >= self.slots.len() {
            return idle;
        }
        let expected = match &self.slots[item] {
            Slot::Active(walker) => match walker.phase() {
                WalkPhase::Fetching => true,
                _ => false,
            },
            _ => false,
        };
        if !expected {
            return idle;
        }
        let ghost before = self@.walker(item as int);
        let (units, next, conclusion) = match &mut self.slots[item] {
            Slot::Active(walker) => {
                let units = walker.deliver(response);
                proof {
                    lemma_walker_step(before, response_view(response), now_ms as nat);
                }
                if walker.is_active() {
                    (units, Some(walker.poll(now_ms)), None)
                } else {
                    (units, None, walker.conclude())
                }
            },
            _ => (0, None, None),
        };
        let _ = self.progress.inc_item(item, units as u64);
        match conclusion {
            None => {
                assert(self@.slots =~= old(self)@.advanced(
                    item as int,
                    response_view(response),
                    now_ms as nat,
                ).slots);
                Reaction { units, conclusion: None, next, admitted: Vec::new() }
            },
            Some(conclusion) => {
                let _ = self.gate.release();
                let _ = self.progress.finish_item(item, self.items[item].name.clone());
                let _ = self.progress.inc_overall();
                self.slots[item] = Slot::Done(conclusion.outcome);
                proof {
                    let settled = old(self)@.settled(item as int, response_view(response));
                    assert(self@.slots =~= settled.slots);
                    assert(self@ == settled);
                    lemma_settled_wf(old(self)@, item as int, response_view(response));
                }
                let admitted = self.start(now_ms);
                Reaction { units, conclusion: Some(conclusion), next: None, admitted }
            },
        }
    }

    /// Cancels the run: every active item is dropped with its slot and
    /// what it had accumulated, and nothing starts any more.
    pub fn cancel(&mut self)
        requires
            old(self)@.wf(),
        ensures
            final(self)@ == old(self)@.cancelled(),
            final(self)@.wf(),
            final(self)@.drained(),
    {
        proof {
            lemma_cancelled_wf(self@);
        }
        self.cancelled = true;
        let mut i: usize = 0;
        while i < self.slots.len()
            invariant
                i <= self.slots.len(),
                self.slots.len() == old(self).slots.len(),
                forall|j: int|
                    0 <= j < i ==> #[trigger] self.slots[j]@ == old(self)@.cancelled().slots[j],
                forall|j: int| i <= j < self.slots.len() ==> self.slots[j] == old(self).slots[j],
                self.items == old(self).items,
                self.target == old(self).target,
                self.config == old(self).config,
                self.delay_ms == old(self).delay_ms,
                self.gate == old(self).gate,
                self.progress == old(self).progress,
                self.next == old(self).next,
                self.cancelled,
            decreases self.slots.len() - i,
        {
            let active = match &self.slots[i] {
                Slot::Active(_) => true,
                _ => false,
            };
            if active {
                self.slots[i] = Slot::Done(WalkPhase::Cancelled);
            }
            i = i + 1;
        }
        self.gate.release_all();
        assert(self@.slots =~= old(self)@.cancelled().slots);
    }
}

} // verus!
