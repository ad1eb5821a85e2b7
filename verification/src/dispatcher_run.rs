//! Runs of a dispatcher: what holds of every sequence of events that can
//! reach one.

use vstd::prelude::*;
use crate::dispatcher::{
    completed, count_where, holding, is_completed, lemma_admit_all_wf, lemma_admit_one_wf,
    lemma_cancelled_wf, lemma_count_bound, lemma_count_zero, lemma_initial_wf,
    lemma_responded_wf, lemma_settled_wf, lemma_walker_step, lemma_woken_wf, DispatcherView,
    SlotView,
};
use crate::record::{Item, Record};
use crate::walker::{ConfigView, PageRequest, ResponseView, WalkAction, WalkPhase};
use crate::walker_run::{gathered, lemma_fetch_below_hard_stop, WalkOp};

verus! {

/// One event that reaches a dispatcher.
pub ghost enum DispatchEvent {
    /// The run starts, or goes on, at `now`.
    Start { now: nat },
    /// The sleep of `item` ended at `now`.
    Wake { item: int, now: nat },
    /// The fetch of `item` came back with `response` at `now`.
    Response { item: int, response: ResponseView, now: nat },
    /// The run is cancelled.
    Cancel,
}

impl DispatcherView {
    /// The dispatcher after `event`.
    pub open spec fn after(self, event: DispatchEvent) -> DispatcherView {
        match event {
            DispatchEvent::Start { now } => self.admit_all(now),
            DispatchEvent::Wake { item, now } => self.woken(item, now),
            DispatchEvent::Response { item, response, now } => self.responded(item, response, now),
            DispatchEvent::Cancel => self.cancelled(),
        }
    }

    /// Whether `event` makes the dispatcher hand the result of `item` to
    /// the sink.
    pub open spec fn hands_out(self, event: DispatchEvent, item: int) -> bool {
        event matches DispatchEvent::Response { item: answered, response, now } && answered == item
            && self.awaits(item) && self.answered(item, response).flushes()
    }

    /// Whether `event` hands a response to the walker of `item`.
    pub open spec fn takes(self, event: DispatchEvent, item: int) -> bool {
        event matches DispatchEvent::Response { item: answered, response, now } && answered == item
            && self.awaits(item)
    }

    /// Whether admitting at `now` starts `item`.
    pub open spec fn starts(self, item: int, now: nat) -> bool {
        self.next <= item < self.admit_all(now).next
    }

    /// What the caller is told to do for `item` in answer to `event`, if
    /// anything: the first action of an item that the event starts, or
    /// the next action of an active item that the event is about.
    pub open spec fn told(self, event: DispatchEvent, item: int) -> Option<WalkAction> {
        match event {
            DispatchEvent::Start { now } => if self.starts(item, now) {
                Some(self.fresh_for(item, now).action_at(now))
            } else {
                None
            },
            DispatchEvent::Wake { item: woken, now } => if woken == item && self.is_active(item) {
                Some(self.walker(item).action_at(now))
            } else {
                None
            },
            DispatchEvent::Response { item: answered, response, now } => if !self.awaits(
                answered,
            ) {
                None
            } else if self.answered(answered, response).active() {
                if answered == item {
                    Some(self.answered(item, response).action_at(now))
                } else {
                    None
                }
            } else if self.settled(answered, response).starts(item, now) {
                Some(self.fresh_for(item, now).action_at(now))
            } else {
                None
            },
            DispatchEvent::Cancel => None,
        }
    }

    /// The request that the caller is told to make for `item` in answer
    /// to `event`, if it is told to make one.
    pub open spec fn fetch_told(self, event: DispatchEvent, item: int) -> Option<PageRequest> {
        match self.told(event, item) {
            Some(WalkAction::Fetch(request)) => Some(request),
            _ => None,
        }
    }

    /// The request for page number `k` of `item`.
    pub open spec fn request_for(self, item: int, k: nat) -> PageRequest {
        PageRequest {
            item_id: self.items[item].id,
            limit: self.config.page_size as u32,
            offset: (k * self.config.page_size) as u32,
        }
    }

    /// The operations that `event` applies to the walker of `item`.
    pub open spec fn walker_ops(self, event: DispatchEvent, item: int) -> Seq<WalkOp> {
        match event {
            DispatchEvent::Wake { item: woken, now } => if woken == item {
                seq![WalkOp::Poll { now }]
            } else {
                Seq::empty()
            },
            DispatchEvent::Response { item: answered, response, now } => if answered == item
                && self.awaits(item) {
                seq![WalkOp::Deliver { response }, WalkOp::Poll { now }]
            } else {
                Seq::empty()
            },
            _ => Seq::empty(),
        }
    }
}

/// The dispatcher after the events `events`, in order.
pub open spec fn run(d: DispatcherView, events: Seq<DispatchEvent>) -> DispatcherView
    decreases events.len(),
{
    if events.len() == 0 {
        d
    } else {
        run(d.after(events.first()), events.drop_first())
    }
}

/// How many times the result of `item` is handed to the sink along
/// `events`.
pub open spec fn flush_count(d: DispatcherView, events: Seq<DispatchEvent>, item: int) -> nat
    decreases events.len(),
{
    if events.len() == 0 {
        0
    } else {
        flush_count(d.after(events.first()), events.drop_first(), item) + if d.hands_out(
            events.first(),
            item,
        ) {
            1nat
        } else {
            0nat
        }
    }
}

/// The requests that the caller is told to make for `item` along
/// `events`, in order.
pub open spec fn asked(d: DispatcherView, events: Seq<DispatchEvent>, item: int) -> Seq<
    PageRequest,
>
    decreases events.len(),
{
    if events.len() == 0 {
        Seq::empty()
    } else if d.fetch_told(events.first(), item) is Some {
        seq![d.fetch_told(events.first(), item)->Some_0] + asked(
            d.after(events.first()),
            events.drop_first(),
            item,
        )
    } else {
        asked(d.after(events.first()), events.drop_first(), item)
    }
}

/// The responses that the walker of `item` takes in along `events`, in
/// order.
pub open spec fn taken_by(d: DispatcherView, events: Seq<DispatchEvent>, item: int) -> Seq<
    ResponseView,
>
    decreases events.len(),
{
    if events.len() == 0 {
        Seq::empty()
    } else if d.takes(events.first(), item) {
        seq![events.first()->Response_response] + taken_by(
            d.after(events.first()),
            events.drop_first(),
            item,
        )
    } else {
        taken_by(d.after(events.first()), events.drop_first(), item)
    }
}

/// The records that are handed to the sink for `item` along `events`, if
/// any are.
pub open spec fn handed_out(d: DispatcherView, events: Seq<DispatchEvent>, item: int) -> Option<
    Seq<Record>,
>
    decreases events.len(),
{
    if events.len() == 0 {
        None
    } else if d.hands_out(events.first(), item) {
        Some(d.answered(item, events.first()->Response_response).collected)
    } else {
        handed_out(d.after(events.first()), events.drop_first(), item)
    }
}

/// Admitting items touches no slot of an item that has started, and
/// changes neither the items, the cap nor whether the run is cancelled;
/// the overall counter does not fall.
pub proof fn lemma_admit_all_frame(d: DispatcherView, now: nat)
    requires
        d.wf(),
    ensures
        d.admit_all(now).slots.len() == d.slots.len(),
        d.admit_all(now).items == d.items,
        forall|i: int| 0 <= i < d.next ==> #[trigger] d.admit_all(now).slots[i] == d.slots[i],
        d.admit_all(now).gate.cap == d.gate.cap,
        d.admit_all(now).cancelled == d.cancelled,
        d.admit_all(now).next >= d.next,
        d.admit_all(now).progress.completed >= d.progress.completed,
    decreases d.items.len() - d.next,
{
    if d.can_admit() {
        let one = d.admit_one(now);
        lemma_admit_one_wf(d, now);
        lemma_admit_all_frame(one, now);
        assert(d.admit_all(now) == one.admit_all(now));
        assert forall|i: int| 0 <= i < d.next implies #[trigger] d.admit_all(now).slots[i]
            == d.slots[i] by {
            assert(one.admit_all(now).slots[i] == one.slots[i]);
            assert(one.slots[i] == d.slots[i]);
        }
    }
}

/// Every event leaves a well-formed dispatcher well formed, with the cap
/// it had.
pub proof fn lemma_after_wf(d: DispatcherView, event: DispatchEvent)
    requires
        d.wf(),
    ensures
        d.after(event).wf(),
        d.after(event).gate.cap == d.gate.cap,
        d.after(event).items == d.items,
{
    match event {
        DispatchEvent::Start { now } => {
            lemma_admit_all_wf(d, now);
            lemma_admit_all_frame(d, now);
        },
        DispatchEvent::Wake { item, now } => {
            lemma_woken_wf(d, item, now);
        },
        DispatchEvent::Response { item, response, now } => {
            lemma_responded_wf(d, item, response, now);
            if d.awaits(item) && !d.answered(item, response).active() {
                lemma_settled_wf(d, item, response);
                lemma_admit_all_frame(d.settled(item, response), now);
            }
        },
        DispatchEvent::Cancel => {
            lemma_cancelled_wf(d);
        },
    }
}

/// Every run leaves a well-formed dispatcher well formed, with the cap
/// and the items it had.
pub proof fn lemma_run_wf(d: DispatcherView, events: Seq<DispatchEvent>)
    requires
        d.wf(),
    ensures
        run(d, events).wf(),
        run(d, events).gate.cap == d.gate.cap,
        run(d, events).items == d.items,
    decreases events.len(),
{
    if events.len() > 0 {
        lemma_after_wf(d, events.first());
        lemma_run_wf(d.after(events.first()), events.drop_first());
    }
}

/// In a well-formed dispatcher the admission gate counts the items that have a
/// walker, and they are never more than the cap.
pub proof fn lemma_holders_within_cap(d: DispatcherView)
    requires
        d.wf(),
    ensures
        d.gate.holders == d.active(),
        d.active() <= d.gate.cap,
        d.active() <= d.items.len(),
{
    lemma_count_bound(d.slots, holding());
}

/// Whatever events reach a run of any number of items under any cap, the
/// items that hold a gate slot at the same time are never more than the
/// cap.
pub proof fn lemma_never_more_than_cap(
    items: Seq<Item>,
    target: i64,
    cap: nat,
    config: ConfigView,
    delay: nat,
    events: Seq<DispatchEvent>,
)
    requires
        0 < cap,
        config.wf(),
        items.len() <= usize::MAX,
    ensures
        run(DispatcherView::initial(items, target, cap, config, delay), events).active() <= cap,
        run(DispatcherView::initial(items, target, cap, config, delay), events).gate.holders
            == run(DispatcherView::initial(items, target, cap, config, delay), events).active(),
{
    let d = DispatcherView::initial(items, target, cap, config, delay);
    lemma_initial_wf(items, target, cap, config, delay);
    lemma_run_wf(d, events);
    lemma_holders_within_cap(run(d, events));
}

/// An item that is done stays done, and nothing is handed out for it any
/// more.
pub proof fn lemma_done_stays_done(d: DispatcherView, events: Seq<DispatchEvent>, item: int)
    requires
        d.wf(),
        0 <= item < d.slots.len(),
        d.slots[item] is Done,
    ensures
        run(d, events).slots[item] == d.slots[item],
        flush_count(d, events, item) == 0,
        handed_out(d, events, item) is None,
        taken_by(d, events, item) == Seq::<ResponseView>::empty(),
        asked(d, events, item) == Seq::<PageRequest>::empty(),
    decreases events.len(),
{
    if events.len() > 0 {
        let event = events.first();
        lemma_after_wf(d, event);
        lemma_event_keeps_done(d, event, item);
        lemma_done_stays_done(d.after(event), events.drop_first(), item);
    }
}

/// No event changes the slot of an item that is done.
pub proof fn lemma_event_keeps_done(d: DispatcherView, event: DispatchEvent, item: int)
    requires
        d.wf(),
        0 <= item < d.slots.len(),
        d.slots[item] is Done,
    ensures
        d.after(event).slots[item] == d.slots[item],
{
    match event {
        DispatchEvent::Start { now } => {
            lemma_admit_all_frame(d, now);
        },
        DispatchEvent::Wake { item: woken, now } => {},
        DispatchEvent::Response { item: answered, response, now } => {
            if d.awaits(answered) && !d.answered(answered, response).active() {
                lemma_settled_wf(d, answered, response);
                lemma_admit_all_frame(d.settled(answered, response), now);
            }
        },
        DispatchEvent::Cancel => {},
    }
}

/// Along any run the result of an item is handed to the sink at most
/// once.
pub proof fn lemma_flush_at_most_once(d: DispatcherView, events: Seq<DispatchEvent>, item: int)
    requires
        d.wf(),
    ensures
        flush_count(d, events, item) <= 1,
    decreases events.len(),
{
    if events.len() > 0 {
        let event = events.first();
        lemma_after_wf(d, event);
        if d.hands_out(event, item) {
            let response = event->Response_response;
            let now = event->Response_now;
            lemma_settled_wf(d, item, response);
            lemma_admit_all_frame(d.settled(item, response), now);
            lemma_done_stays_done(d.after(event), events.drop_first(), item);
        } else {
            lemma_flush_at_most_once(d.after(event), events.drop_first(), item);
        }
    }
}

/// In a cancelled run no event starts or moves anything, and nothing is
/// handed to the sink.
pub proof fn lemma_cancelled_stays_silent(
    d: DispatcherView,
    events: Seq<DispatchEvent>,
    item: int,
)
    requires
        d.wf(),
        d.cancelled,
    ensures
        flush_count(d, events, item) == 0,
        run(d, events).cancelled,
        run(d, events).drained(),
    decreases events.len(),
{
    lemma_count_zero(d.slots, holding());
    if events.len() > 0 {
        let event = events.first();
        lemma_after_wf(d, event);
        if event is Cancel {
            lemma_cancelled_wf(d);
        }
        lemma_cancelled_stays_silent(d.after(event), events.drop_first(), item);
    }
}

/// After a cancellation nothing is handed to the sink any more, for any
/// item and whatever events follow: what had not completed before the
/// signal is never flushed.
pub proof fn lemma_cancel_discards(d: DispatcherView, events: Seq<DispatchEvent>, item: int)
    requires
        d.wf(),
    ensures
        flush_count(d.cancelled(), events, item) == 0,
        run(d.cancelled(), events).drained(),
{
    lemma_cancelled_wf(d);
    lemma_cancelled_stays_silent(d.cancelled(), events, item);
}

/// The overall counter never falls and never passes its total; items are
/// started in the order of the run and never started again.
pub proof fn lemma_progress_is_monotone(d: DispatcherView, event: DispatchEvent)
    requires
        d.wf(),
    ensures
        d.progress.completed <= d.after(event).progress.completed <= d.items.len(),
        d.next <= d.after(event).next <= d.items.len(),
{
    lemma_after_wf(d, event);
    lemma_count_bound(d.after(event).slots, completed());
    match event {
        DispatchEvent::Start { now } => {
            lemma_admit_all_frame(d, now);
        },
        DispatchEvent::Wake { item, now } => {},
        DispatchEvent::Response { item, response, now } => {
            if d.awaits(item) && !d.answered(item, response).active() {
                lemma_settled_wf(d, item, response);
                lemma_admit_all_frame(d.settled(item, response), now);
            }
        },
        DispatchEvent::Cancel => {},
    }
}

/// An item whose walker ends is counted: the answer that ends the walker
/// of `item` moves the overall counter up, whether or not anything is
/// flushed, and leaves the item done in the phase its walker ended in.
pub proof fn lemma_ending_is_counted(d: DispatcherView, item: int, response: ResponseView, now: nat)
    requires
        d.wf(),
        d.awaits(item),
        !d.answered(item, response).active(),
    ensures
        d.responded(item, response, now).progress.completed > d.progress.completed,
        d.responded(item, response, now).slots[item] == SlotView::Done(
            d.answered(item, response).phase,
        ),
{
    lemma_settled_wf(d, item, response);
    lemma_admit_all_frame(d.settled(item, response), now);
}

/// The items admitted at one time are the queued items in the order of
/// the run, without gaps, each with the first action of its new walker.
pub proof fn lemma_admissions_in_order(d: DispatcherView, now: nat, k: int)
    requires
        d.wf(),
        0 <= k < d.admissions(now).len(),
    ensures
        d.admissions(now).len() == d.admit_all(now).next - d.next,
        d.admissions(now)[k].item == d.next + k,
        d.admissions(now)[k].action == d.fresh_for(d.next + k, now).action_at(now),
        d.starts(d.next + k, now),
    decreases d.items.len() - d.next,
{
    lemma_admit_one_wf(d, now);
    lemma_admissions_count(d, now);
    if k > 0 {
        lemma_admissions_in_order(d.admit_one(now), now, k - 1);
    }
}

/// As many items are admitted at one time as the run moves on by.
pub proof fn lemma_admissions_count(d: DispatcherView, now: nat)
    requires
        d.wf(),
    ensures
        d.admissions(now).len() == d.admit_all(now).next - d.next,
    decreases d.items.len() - d.next,
{
    if d.can_admit() {
        lemma_admit_one_wf(d, now);
        lemma_admissions_count(d.admit_one(now), now);
    }
}

/// What admitting at `now` makes of an item that has not started: it is
/// left queued, or it is started with a new walker that was polled once,
/// or, if that walker is done before it starts, it is done at once.
pub proof fn lemma_admitted_slot(d: DispatcherView, now: nat, item: int)
    requires
        d.wf(),
        d.next <= item < d.slots.len(),
    ensures
        d.admit_all(now).slots[item] == if !d.starts(item, now) {
            SlotView::Queued
        } else if d.fresh_for(item, now).active() {
            SlotView::Active(d.fresh_for(item, now).polled(now))
        } else {
            SlotView::Done(d.fresh_for(item, now).phase)
        },
    decreases d.items.len() - d.next,
{
    if d.can_admit() {
        let one = d.admit_one(now);
        lemma_admit_one_wf(d, now);
        lemma_admit_all_frame(one, now);
        if item == d.next {
            assert(one.admit_all(now).slots[item] == one.slots[item]);
        } else {
            lemma_admitted_slot(one, now, item);
        }
    }
}

/// A count that takes in every slot is the number of slots.
proof fn lemma_count_all(slots: Seq<SlotView>, pred: spec_fn(SlotView) -> bool)
    requires
        forall|i: int| 0 <= i < slots.len() ==> pred(slots[i]),
    ensures
        count_where(slots, pred) == slots.len(),
    decreases slots.len(),
{
    if slots.len() > 0 {
        assert forall|i: int| 0 <= i < slots.drop_last().len() implies pred(
            slots.drop_last()[i],
        ) by {
            assert(slots.drop_last()[i] == slots[i]);
        }
        lemma_count_all(slots.drop_last(), pred);
    }
}

/// A run that is over without having been cancelled has dropped no item:
/// every walker has ended by itself and the overall counter stands at its
/// total.
pub proof fn lemma_drained_is_complete(d: DispatcherView)
    requires
        d.wf(),
        d.drained(),
        !d.cancelled,
    ensures
        forall|i: int| 0 <= i < d.slots.len() ==> is_completed(#[trigger] d.slots[i]),
        d.progress.completed == d.items.len(),
        d.progress.completed == d.progress.total,
{
    lemma_count_zero(d.slots, holding());
    assert forall|i: int| 0 <= i < d.slots.len() implies is_completed(#[trigger] d.slots[i]) by {
        assert(!holding()(d.slots[i]));
    }
    assert forall|i: int| 0 <= i < d.slots.len() implies completed()(d.slots[i]) by {
        assert(is_completed(d.slots[i]));
    }
    lemma_count_all(d.slots, completed());
}

/// Items do not interfere: what an event does to the walker of an active
/// item is to apply that item's own operations to it, and an event for
/// another item applies none.
pub proof fn lemma_items_do_not_interfere(d: DispatcherView, event: DispatchEvent, item: int)
    requires
        d.wf(),
        d.is_active(item),
    ensures
        d.after(event).is_active(item) ==> d.after(event).walker(item) == crate::walker_run::run(
            d.walker(item),
            d.walker_ops(event, item),
        ),
        !d.after(event).is_active(item) ==> d.after(event).slots[item] is Done && (event is Cancel
            || (event matches DispatchEvent::Response { item: answered, response, now }
            && answered == item && d.after(event).slots[item] == SlotView::Done(
            d.walker(item).delivered(response).phase,
        ))),
        d.after(event).is_active(item) ==> d.after(event).walker(item).collected == if d.takes(
            event,
            item,
        ) {
            d.answered(item, event->Response_response).collected
        } else {
            d.walker(item).collected
        },
{
    let walker = d.walker(item);
    match event {
        DispatchEvent::Start { now } => {
            lemma_admit_all_frame(d, now);
        },
        DispatchEvent::Wake { item: woken, now } => {
            if woken == item {
                let ops = seq![WalkOp::Poll { now }];
                assert(ops.drop_first() =~= Seq::<WalkOp>::empty());
                reveal_with_fuel(crate::walker_run::run, 2);
            }
        },
        DispatchEvent::Response { item: answered, response, now } => {
            if d.awaits(answered) {
                if answered == item {
                    let ops = seq![WalkOp::Deliver { response }, WalkOp::Poll { now }];
                    assert(ops.drop_first() =~= seq![WalkOp::Poll { now }]);
                    assert(ops.drop_first().drop_first() =~= Seq::<WalkOp>::empty());
                    reveal_with_fuel(crate::walker_run::run, 3);
                }
                if !d.answered(answered, response).active() {
                    lemma_settled_wf(d, answered, response);
                    lemma_admit_all_frame(d.settled(answered, response), now);
                }
            }
        },
        DispatchEvent::Cancel => {},
    }
}

/// What is handed to the sink for an active item is what its walker had
/// accumulated, followed by the matching records of the responses that
/// the item takes in from here on.
pub proof fn lemma_active_result_is_gathered(
    d: DispatcherView,
    events: Seq<DispatchEvent>,
    item: int,
)
    requires
        d.wf(),
        d.is_active(item),
        handed_out(d, events, item) is Some,
    ensures
        handed_out(d, events, item)->Some_0 == d.walker(item).collected + gathered(
            d.target,
            taken_by(d, events, item),
        ),
    decreases events.len(),
{
    let event = events.first();
    let rest = events.drop_first();
    let after = d.after(event);
    let walker = d.walker(item);
    lemma_after_wf(d, event);
    lemma_items_do_not_interfere(d, event, item);
    lemma_target_is_kept(d, event);
    if d.hands_out(event, item) {
        let response = event->Response_response;
        lemma_ending_is_counted(d, item, response, event->Response_now);
        lemma_done_stays_done(after, rest, item);
        let taken = seq![response] + taken_by(after, rest, item);
        assert(taken.drop_first() =~= Seq::<ResponseView>::empty());
        reveal_with_fuel(gathered, 2);
        assert(handed_out(d, events, item)->Some_0 =~= walker.collected + gathered(
            d.target,
            taken,
        ));
    } else if after.is_active(item) {
        lemma_active_result_is_gathered(after, rest, item);
        if d.takes(event, item) {
            let response = event->Response_response;
            let later = taken_by(after, rest, item);
            assert((seq![response] + later).drop_first() =~= later);
            assert(after.walker(item).collected + gathered(d.target, later) =~= walker.collected
                + gathered(d.target, seq![response] + later));
        }
    } else {
        lemma_done_stays_done(after, rest, item);
    }
}

/// No event changes the author whose records are kept.
pub proof fn lemma_target_is_kept(d: DispatcherView, event: DispatchEvent)
    requires
        d.wf(),
    ensures
        d.after(event).target == d.target,
{
    match event {
        DispatchEvent::Start { now } => {
            lemma_admit_all_target(d, now);
        },
        DispatchEvent::Wake { item, now } => {},
        DispatchEvent::Response { item, response, now } => {
            if d.awaits(item) && !d.answered(item, response).active() {
                lemma_settled_wf(d, item, response);
                lemma_admit_all_target(d.settled(item, response), now);
            }
        },
        DispatchEvent::Cancel => {},
    }
}

/// Admitting items does not change the author whose records are kept.
proof fn lemma_admit_all_target(d: DispatcherView, now: nat)
    requires
        d.wf(),
    ensures
        d.admit_all(now).target == d.target,
    decreases d.items.len() - d.next,
{
    if d.can_admit() {
        lemma_admit_one_wf(d, now);
        lemma_admit_all_target(d.admit_one(now), now);
    }
}

/// What is handed to the sink for an item that has not started yet is
/// the matching records of the responses that the item takes in.
pub proof fn lemma_queued_result_is_gathered(
    d: DispatcherView,
    events: Seq<DispatchEvent>,
    item: int,
)
    requires
        d.wf(),
        0 <= item < d.slots.len(),
        d.slots[item] is Queued,
        handed_out(d, events, item) is Some,
    ensures
        handed_out(d, events, item)->Some_0 == gathered(d.target, taken_by(d, events, item)),
    decreases events.len(),
{
    let event = events.first();
    let rest = events.drop_first();
    let after = d.after(event);
    lemma_after_wf(d, event);
    lemma_target_is_kept(d, event);
    match event {
        DispatchEvent::Start { now } => {
            lemma_admitted_slot(d, now, item);
        },
        DispatchEvent::Wake { item: woken, now } => {},
        DispatchEvent::Response { item: answered, response, now } => {
            if d.awaits(answered) && !d.answered(answered, response).active() {
                lemma_settled_wf(d, answered, response);
                lemma_admitted_slot(d.settled(answered, response), now, item);
            }
        },
        DispatchEvent::Cancel => {},
    }
    if after.slots[item] is Queued {
        lemma_queued_result_is_gathered(after, rest, item);
    } else if after.is_active(item) {
        lemma_active_result_is_gathered(after, rest, item);
        let later = gathered(d.target, taken_by(after, rest, item));
        assert(Seq::<Record>::empty() + later =~= later);
    } else {
        lemma_done_stays_done(after, rest, item);
    }
}

/// In a run of any number of items under any cap, whatever the order in
/// which events arrive, what is handed to the sink for an item is the
/// matching records of the responses which that item took in, in the
/// order it took them in. Nothing else enters: not the cap, not the
/// times, not what happens to other items.
pub proof fn lemma_result_is_gathered(
    items: Seq<Item>,
    target: i64,
    cap: nat,
    config: ConfigView,
    delay: nat,
    events: Seq<DispatchEvent>,
    item: int,
)
    requires
        0 < cap,
        config.wf(),
        items.len() <= usize::MAX,
        0 <= item < items.len(),
        handed_out(DispatcherView::initial(items, target, cap, config, delay), events, item)
            is Some,
    ensures
        handed_out(
            DispatcherView::initial(items, target, cap, config, delay),
            events,
            item,
        )->Some_0 == gathered(
            target,
            taken_by(DispatcherView::initial(items, target, cap, config, delay), events, item),
        ),
{
    let d = DispatcherView::initial(items, target, cap, config, delay);
    lemma_initial_wf(items, target, cap, config, delay);
    lemma_queued_result_is_gathered(d, events, item);
}

/// Two runs that hand the same responses to an item hand the same
/// records to the sink for it, whatever their caps, their delays, their
/// other items and the order of their events.
pub proof fn lemma_same_pages_same_flush(
    left: DispatcherView,
    left_events: Seq<DispatchEvent>,
    left_item: int,
    right: DispatcherView,
    right_events: Seq<DispatchEvent>,
    right_item: int,
)
    requires
        left.wf(),
        right.wf(),
        left.target == right.target,
        0 <= left_item < left.slots.len(),
        0 <= right_item < right.slots.len(),
        left.slots[left_item] is Queued,
        right.slots[right_item] is Queued,
        handed_out(left, left_events, left_item) is Some,
        handed_out(right, right_events, right_item) is Some,
        taken_by(left, left_events, left_item) == taken_by(right, right_events, right_item),
    ensures
        handed_out(left, left_events, left_item) == handed_out(right, right_events, right_item),
{
    lemma_queued_result_is_gathered(left, left_events, left_item);
    lemma_queued_result_is_gathered(right, right_events, right_item);
}

/// The requests that the caller is told to make for an active item
/// from here on are the pages of the item in order, without gaps,
/// starting at the page its walker stands at, each for the item itself,
/// with the configured page size and below the hard stop.
pub proof fn lemma_active_asks_in_order(
    d: DispatcherView,
    events: Seq<DispatchEvent>,
    item: int,
    k: int,
)
    requires
        d.wf(),
        d.is_active(item),
        0 <= k < asked(d, events, item).len(),
    ensures
        asked(d, events, item)[k] == d.request_for(
            item,
            d.walker(item).next_page() + k as nat,
        ),
        (d.walker(item).next_page() + k) * d.config.page_size < d.config.max_offset,
    decreases events.len(),
{
    let event = events.first();
    let rest = events.drop_first();
    let after = d.after(event);
    let walker = d.walker(item);
    lemma_after_wf(d, event);
    lemma_items_do_not_interfere(d, event, item);
    lemma_config_is_kept(d, event);
    match event {
        DispatchEvent::Start { now } => {
            lemma_admit_all_frame(d, now);
        },
        DispatchEvent::Wake { item: woken, now } => {
            if woken == item {
                if walker.action_at(now) is Fetch {
                    lemma_fetch_below_hard_stop(walker, now);
                }
            }
        },
        DispatchEvent::Response { item: answered, response, now } => {
            if d.awaits(answered) {
                if answered == item && d.answered(item, response).active() {
                    lemma_walker_step(walker, response, now);
                    if d.answered(item, response).action_at(now) is Fetch {
                        lemma_fetch_below_hard_stop(d.answered(item, response), now);
                    }
                }
                if !d.answered(answered, response).active() {
                    lemma_settled_wf(d, answered, response);
                    lemma_admit_all_frame(d.settled(answered, response), now);
                }
            }
        },
        DispatchEvent::Cancel => {},
    }
    if after.is_active(item) {
        if d.fetch_told(event, item) is Some {
            if k > 0 {
                lemma_active_asks_in_order(after, rest, item, k - 1);
            }
        } else {
            lemma_active_asks_in_order(after, rest, item, k);
        }
    } else {
        lemma_done_stays_done(after, rest, item);
    }
}

/// A short page ends the item: the caller is told to make no further
/// request for it, neither in answer to the short page nor ever after,
/// and the item is done as exhausted.
pub proof fn lemma_short_page_ends_item(
    d: DispatcherView,
    item: int,
    response: ResponseView,
    now: nat,
    events: Seq<DispatchEvent>,
)
    requires
        d.wf(),
        d.awaits(item),
        response matches Ok(page) && page.raw_count < d.config.page_size,
    ensures
        d.fetch_told(DispatchEvent::Response { item, response, now }, item) is None,
        d.responded(item, response, now).slots[item] == SlotView::Done(WalkPhase::Exhausted),
        asked(d.responded(item, response, now), events, item) == Seq::<PageRequest>::empty(),
{
    let event = DispatchEvent::Response { item, response, now };
    lemma_after_wf(d, event);
    lemma_ending_is_counted(d, item, response, now);
    lemma_settled_wf(d, item, response);
    lemma_admit_all_frame(d.settled(item, response), now);
    lemma_done_stays_done(d.responded(item, response, now), events, item);
}

/// A failed fetch ends the item without a retry: the caller is told to
/// make no further request for it, and the item is done as failed.
pub proof fn lemma_error_ends_item(
    d: DispatcherView,
    item: int,
    response: ResponseView,
    now: nat,
    events: Seq<DispatchEvent>,
)
    requires
        d.wf(),
        d.awaits(item),
        response is Err,
    ensures
        d.fetch_told(DispatchEvent::Response { item, response, now }, item) is None,
        d.responded(item, response, now).slots[item] == SlotView::Done(
            WalkPhase::Failed(response->Err_0),
        ),
        asked(d.responded(item, response, now), events, item) == Seq::<PageRequest>::empty(),
{
    let event = DispatchEvent::Response { item, response, now };
    lemma_after_wf(d, event);
    lemma_ending_is_counted(d, item, response, now);
    lemma_settled_wf(d, item, response);
    lemma_admit_all_frame(d.settled(item, response), now);
    lemma_done_stays_done(d.responded(item, response, now), events, item);
}

/// No event changes the items, the configuration or the delay of a run.
pub proof fn lemma_config_is_kept(d: DispatcherView, event: DispatchEvent)
    requires
        d.wf(),
    ensures
        d.after(event).items == d.items,
        d.after(event).config == d.config,
        d.after(event).delay == d.delay,
        d.after(event).target == d.target,
{
    lemma_after_wf(d, event);
    lemma_target_is_kept(d, event);
    match event {
        DispatchEvent::Start { now } => {
            lemma_admit_all_config(d, now);
        },
        DispatchEvent::Wake { item, now } => {},
        DispatchEvent::Response { item, response, now } => {
            if d.awaits(item) && !d.answered(item, response).active() {
                lemma_settled_wf(d, item, response);
                lemma_admit_all_config(d.settled(item, response), now);
            }
        },
        DispatchEvent::Cancel => {},
    }
}

/// Admitting items changes neither the configuration nor the delay.
proof fn lemma_admit_all_config(d: DispatcherView, now: nat)
    requires
        d.wf(),
    ensures
        d.admit_all(now).config == d.config,
        d.admit_all(now).delay == d.delay,
    decreases d.items.len() - d.next,
{
    if d.can_admit() {
        lemma_admit_one_wf(d, now);
        lemma_admit_all_config(d.admit_one(now), now);
    }
}

/// The requests that the caller is told to make for an item that has
/// not started are its pages in order from the first: the `k`-th asks
/// for the offset `k * page_size`, which lies below the hard stop.
pub proof fn lemma_queued_asks_in_order(
    d: DispatcherView,
    events: Seq<DispatchEvent>,
    item: int,
    k: int,
)
    requires
        d.wf(),
        0 <= item < d.slots.len(),
        d.slots[item] is Queued,
        0 <= k < asked(d, events, item).len(),
    ensures
        asked(d, events, item)[k] == d.request_for(item, k as nat),
        k * d.config.page_size < d.config.max_offset,
    decreases events.len(),
{
    let event = events.first();
    let rest = events.drop_first();
    let after = d.after(event);
    lemma_after_wf(d, event);
    lemma_config_is_kept(d, event);
    let started = match event {
        DispatchEvent::Start { now } => {
            lemma_admitted_slot(d, now, item);
            d.starts(item, now)
        },
        DispatchEvent::Wake { item: woken, now } => false,
        DispatchEvent::Response { item: answered, response, now } => {
            if d.awaits(answered) && !d.answered(answered, response).active() {
                lemma_settled_wf(d, answered, response);
                lemma_admitted_slot(d.settled(answered, response), now, item);
                d.settled(answered, response).starts(item, now)
            } else {
                false
            }
        },
        DispatchEvent::Cancel => false,
    };
    if !started {
        lemma_queued_asks_in_order(after, rest, item, k);
    } else {
        let now = match event {
            DispatchEvent::Start { now } => now,
            DispatchEvent::Response { item: answered, response, now } => now,
            _ => 0,
        };
        let fresh = d.fresh_for(item, now);
        if fresh.active() {
            assert(fresh.pages * fresh.config.page_size == 0) by (nonlinear_arith)
                requires
                    fresh.pages == 0,
            ;
            if fresh.action_at(now) is Fetch {
                lemma_fetch_below_hard_stop(fresh, now);
                if k > 0 {
                    lemma_active_asks_in_order(after, rest, item, k - 1);
                }
            } else {
                lemma_active_asks_in_order(after, rest, item, k);
            }
        } else {
            lemma_done_stays_done(after, rest, item);
        }
    }
}

/// In a run of any number of items under any cap, whatever events arrive
/// and whatever the server answers, the requests that the caller is told
/// to make for an item are for that item, with the configured page size,
/// at the offsets `0, page_size, 2 * page_size, ..` in this order, and
/// none of them at or beyond the hard stop.
pub proof fn lemma_asks_in_order(
    items: Seq<Item>,
    target: i64,
    cap: nat,
    config: ConfigView,
    delay: nat,
    events: Seq<DispatchEvent>,
    item: int,
    k: int,
)
    requires
        0 < cap,
        config.wf(),
        items.len() <= usize::MAX,
        0 <= item < items.len(),
        0 <= k < asked(
            DispatcherView::initial(items, target, cap, config, delay),
            events,
            item,
        ).len(),
    ensures
        ({
            let request = asked(
                DispatcherView::initial(items, target, cap, config, delay),
                events,
                item,
            )[k];
            &&& request.item_id == items[item].id
            &&& request.limit == config.page_size
            &&& request.offset == k * config.page_size
            &&& request.offset < config.max_offset
        }),
{
    let d = DispatcherView::initial(items, target, cap, config, delay);
    lemma_initial_wf(items, target, cap, config, delay);
    lemma_queued_asks_in_order(d, events, item, k);
}

} // verus!
