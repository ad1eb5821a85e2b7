//! Runs of a walker: what holds of every sequence of operations that a
//! caller can apply to one.

use vstd::prelude::*;
use crate::record::{matching, Record};
use crate::walker::{PageRequest, ResponseView, WalkAction, WalkerView};

verus! {

/// One operation on a walker.
pub ghost enum WalkOp {
    /// The walker is polled at `now`.
    Poll { now: nat },
    /// The walker is handed `response`.
    Deliver { response: ResponseView },
    /// The walker is cancelled.
    Cancel,
    /// The walker is asked to conclude.
    Conclude,
}

impl WalkerView {
    /// The walker after `op`.
    pub open spec fn after(self, op: WalkOp) -> WalkerView {
        match op {
            WalkOp::Poll { now } => self.polled(now),
            WalkOp::Deliver { response } => self.delivered(response),
            WalkOp::Cancel => self.cancelled(),
            WalkOp::Conclude => self.concluded(),
        }
    }

    /// Whether `op` makes the walker issue a request.
    pub open spec fn issues(self, op: WalkOp) -> bool {
        op matches WalkOp::Poll { now } && self.action_at(now) is Fetch
    }

    /// Whether `op` makes the walker take in a response.
    pub open spec fn takes(self, op: WalkOp) -> bool {
        op is Deliver && self.phase is Fetching
    }

    /// Whether `op` makes the walker hand a result to the sink.
    pub open spec fn hands_out(self, op: WalkOp) -> bool {
        op is Conclude && self.flushes()
    }

    /// The page number of the next request that the walker can issue.
    pub open spec fn next_page(self) -> nat {
        if self.phase is Fetching {
            self.pages + 1
        } else {
            self.pages
        }
    }

    /// The request for page number `k` of the walker's item.
    pub open spec fn request_for(self, k: nat) -> PageRequest {
        PageRequest {
            item_id: self.item.id,
            limit: self.config.page_size as u32,
            offset: (k * self.config.page_size) as u32,
        }
    }
}

/// The walker after the operations `ops`, applied in order.
pub open spec fn run(walker: WalkerView, ops: Seq<WalkOp>) -> WalkerView
    decreases ops.len(),
{
    if ops.len() == 0 {
        walker
    } else {
        run(walker.after(ops.first()), ops.drop_first())
    }
}

/// The requests that the walker issues along `ops`, in order.
pub open spec fn requests(walker: WalkerView, ops: Seq<WalkOp>) -> Seq<PageRequest>
    decreases ops.len(),
{
    if ops.len() == 0 {
        Seq::empty()
    } else if walker.issues(ops.first()) {
        seq![walker.request()] + requests(walker.after(ops.first()), ops.drop_first())
    } else {
        requests(walker.after(ops.first()), ops.drop_first())
    }
}

/// The times at which the walker issues its requests along `ops`, in
/// order.
pub open spec fn issue_times(walker: WalkerView, ops: Seq<WalkOp>) -> Seq<nat>
    decreases ops.len(),
{
    if ops.len() == 0 {
        Seq::empty()
    } else if walker.issues(ops.first()) {
        seq![ops.first()->now] + issue_times(walker.after(ops.first()), ops.drop_first())
    } else {
        issue_times(walker.after(ops.first()), ops.drop_first())
    }
}

/// The responses that the walker takes in along `ops`, in order.
pub open spec fn taken(walker: WalkerView, ops: Seq<WalkOp>) -> Seq<ResponseView>
    decreases ops.len(),
{
    if ops.len() == 0 {
        Seq::empty()
    } else if walker.takes(ops.first()) {
        seq![ops.first()->response] + taken(walker.after(ops.first()), ops.drop_first())
    } else {
        taken(walker.after(ops.first()), ops.drop_first())
    }
}

/// How many results the walker hands to the sink along `ops`.
pub open spec fn flush_count(walker: WalkerView, ops: Seq<WalkOp>) -> nat
    decreases ops.len(),
{
    if ops.len() == 0 {
        0
    } else {
        flush_count(walker.after(ops.first()), ops.drop_first()) + if walker.hands_out(
            ops.first(),
        ) {
            1nat
        } else {
            0nat
        }
    }
}

/// The matching records of the pages among `responses`, in order.
pub open spec fn gathered(target: i64, responses: Seq<ResponseView>) -> Seq<Record>
    decreases responses.len(),
{
    if responses.len() == 0 {
        Seq::empty()
    } else {
        (match responses.first() {
            Ok(page) => matching(page.records, target),
            Err(_) => Seq::empty(),
        }) + gathered(target, responses.drop_first())
    }
}

/// Whether `ops` holds polls and deliveries only.
pub open spec fn undisturbed(ops: Seq<WalkOp>) -> bool {
    forall|i: int| 0 <= i < ops.len() ==> (#[trigger] ops[i] is Poll || ops[i] is Deliver)
}

/// Every operation leaves a well-formed walker well formed.
pub proof fn lemma_after_wf(walker: WalkerView, op: WalkOp)
    requires
        walker.wf(),
    ensures
        walker.after(op).wf(),
        walker.after(op).item == walker.item,
        walker.after(op).target == walker.target,
        walker.after(op).config == walker.config,
{
}

/// Every run leaves a well-formed walker well formed.
pub proof fn lemma_run_wf(walker: WalkerView, ops: Seq<WalkOp>)
    requires
        walker.wf(),
    ensures
        run(walker, ops).wf(),
    decreases ops.len(),
{
    if ops.len() > 0 {
        lemma_after_wf(walker, ops.first());
        lemma_run_wf(walker.after(ops.first()), ops.drop_first());
    }
}

/// The requests of a run are the pages in order, without gaps: the `k`-th
/// request that a walker issues from where it stands asks for the page
/// `k` pages further on, with the configured page size, and its offset
/// lies below the hard stop.
pub proof fn lemma_requests_in_order(walker: WalkerView, ops: Seq<WalkOp>, k: int)
    requires
        walker.wf(),
        0 <= k < requests(walker, ops).len(),
    ensures
        walker.active(),
        requests(walker, ops)[k] == walker.request_for(walker.next_page() + k as nat),
        (walker.next_page() + k) * walker.config.page_size < walker.config.max_offset,
    decreases ops.len(),
{
    let op = ops.first();
    let next = walker.after(op);
    let rest = ops.drop_first();
    lemma_after_wf(walker, op);
    if walker.issues(op) {
        if k > 0 {
            lemma_requests_in_order(next, rest, k - 1);
        }
    } else {
        lemma_requests_in_order(next, rest, k);
    }
}

/// A walker that was made just now asks for the offsets
/// `0, page_size, 2 * page_size, ..` in this order, each below the hard
/// stop.
pub proof fn lemma_offsets_from_zero(walker: WalkerView, ops: Seq<WalkOp>, k: int)
    requires
        walker.wf(),
        walker.pages == 0,
        !(walker.phase is Fetching),
        0 <= k < requests(walker, ops).len(),
    ensures
        requests(walker, ops)[k].item_id == walker.item.id,
        requests(walker, ops)[k].limit == walker.config.page_size,
        requests(walker, ops)[k].offset == k * walker.config.page_size,
        requests(walker, ops)[k].offset < walker.config.max_offset,
{
    lemma_requests_in_order(walker, ops, k);
}

/// The offsets of the requests of a run increase strictly.
pub proof fn lemma_offsets_increase(walker: WalkerView, ops: Seq<WalkOp>, j: int, k: int)
    requires
        walker.wf(),
        0 <= j < k < requests(walker, ops).len(),
    ensures
        requests(walker, ops)[j].offset < requests(walker, ops)[k].offset,
{
    lemma_requests_in_order(walker, ops, j);
    lemma_requests_in_order(walker, ops, k);
    let base = walker.next_page();
    let size = walker.config.page_size;
    assert((base + j) * size < (base + k) * size) by (nonlinear_arith)
        requires
            0 <= j < k,
            0 < size,
    ;
}

/// The first request of a run is issued no sooner than the throttle
/// delay after the last release of the throttle.
pub proof fn lemma_first_request_waits(walker: WalkerView, ops: Seq<WalkOp>)
    requires
        issue_times(walker, ops).len() > 0,
    ensures
        issue_times(walker, ops)[0] >= walker.throttle.last_release + walker.throttle.delay,
        issue_times(walker, ops).len() == requests(walker, ops).len(),
    decreases ops.len(),
{
    lemma_one_time_per_request(walker, ops);
    if !walker.issues(ops.first()) {
        lemma_first_request_waits(walker.after(ops.first()), ops.drop_first());
    }
}

/// Every request has its time of issue.
pub proof fn lemma_one_time_per_request(walker: WalkerView, ops: Seq<WalkOp>)
    ensures
        issue_times(walker, ops).len() == requests(walker, ops).len(),
    decreases ops.len(),
{
    if ops.len() > 0 {
        lemma_one_time_per_request(walker.after(ops.first()), ops.drop_first());
    }
}

/// The requests of one walker are throttled: any two successive requests
/// are issued at least the throttle delay apart.
pub proof fn lemma_requests_are_spaced(walker: WalkerView, ops: Seq<WalkOp>, k: int)
    requires
        1 <= k < issue_times(walker, ops).len(),
    ensures
        issue_times(walker, ops)[k] >= issue_times(walker, ops)[k - 1] + walker.throttle.delay,
    decreases ops.len(),
{
    let next = walker.after(ops.first());
    let rest = ops.drop_first();
    if walker.issues(ops.first()) {
        if k == 1 {
            lemma_first_request_waits(next, rest);
        } else {
            lemma_requests_are_spaced(next, rest, k - 1);
        }
    } else {
        lemma_requests_are_spaced(next, rest, k);
    }
}

/// Whenever a walker asks for a fetch, it asks for the page it stands at:
/// for its own item, with the configured page size, at an offset below
/// the hard stop.
pub proof fn lemma_fetch_below_hard_stop(walker: WalkerView, now: nat)
    requires
        walker.wf(),
        walker.action_at(now) is Fetch,
    ensures
        walker.action_at(now) == WalkAction::Fetch(walker.request_for(walker.pages)),
        walker.action_at(now)->Fetch_0.item_id == walker.item.id,
        walker.action_at(now)->Fetch_0.limit == walker.config.page_size,
        walker.action_at(now)->Fetch_0.offset == walker.pages * walker.config.page_size,
        walker.action_at(now)->Fetch_0.offset < walker.config.max_offset,
{
}

/// However long a run goes on and whatever the server answers, a walker
/// issues no more requests than its configuration has pages.
pub proof fn lemma_requests_are_bounded(walker: WalkerView, ops: Seq<WalkOp>)
    requires
        walker.wf(),
    ensures
        requests(walker, ops).len() <= walker.config.max_pages(),
        requests(walker, ops).len() > 0 ==> walker.next_page() + requests(walker, ops).len()
            <= walker.config.max_pages(),
{
    let count = requests(walker, ops).len() as int;
    if count > 0 {
        lemma_requests_in_order(walker, ops, count - 1);
        let last = walker.next_page() + count - 1;
        let size = walker.config.page_size as int;
        let stop = walker.config.max_offset as int;
        assert(last + 1 <= (stop + size - 1) / size) by (nonlinear_arith)
            requires
                0 <= last,
                0 < size,
                last * size < stop,
        ;
    }
}

/// A walker that no longer pages issues no request, whatever follows.
pub proof fn lemma_stopped_stays_silent(walker: WalkerView, ops: Seq<WalkOp>)
    requires
        !walker.active(),
    ensures
        requests(walker, ops) == Seq::<PageRequest>::empty(),
        !run(walker, ops).active(),
    decreases ops.len(),
{
    if ops.len() > 0 {
        lemma_stopped_stays_silent(walker.after(ops.first()), ops.drop_first());
    }
}

/// A short page ends the paging: after it the walker is exhausted and
/// issues no further request, whatever follows.
pub proof fn lemma_short_page_stops(walker: WalkerView, response: ResponseView, ops: Seq<WalkOp>)
    requires
        walker.phase is Fetching,
        response matches Ok(page) && page.raw_count < walker.config.page_size,
    ensures
        walker.delivered(response).phase is Exhausted,
        requests(walker.delivered(response), ops) == Seq::<PageRequest>::empty(),
{
    lemma_stopped_stays_silent(walker.delivered(response), ops);
}

/// A failed fetch ends the paging and is not retried: after it the walker
/// issues no further request, whatever follows, and keeps what it had.
pub proof fn lemma_error_stops(walker: WalkerView, response: ResponseView, ops: Seq<WalkOp>)
    requires
        walker.phase is Fetching,
        response is Err,
    ensures
        walker.delivered(response).phase == crate::walker::WalkPhase::Failed(response->Err_0),
        walker.delivered(response).collected == walker.collected,
        requests(walker.delivered(response), ops) == Seq::<PageRequest>::empty(),
{
    lemma_stopped_stays_silent(walker.delivered(response), ops);
}

/// A result is handed to the sink only once the walker has ended by
/// itself: exhausted, stopped at the hard stop, or failed. A walker that
/// still pages or was cancelled hands nothing out, and neither does one
/// that kept no record.
pub proof fn lemma_flush_only_after_the_end(walker: WalkerView)
    requires
        walker.flushes(),
    ensures
        walker.phase is Exhausted || walker.phase is HardStopped || walker.phase is Failed,
        walker.collected.len() > 0,
        !walker.concluded,
{
}

/// A walker that has concluded hands nothing out any more.
pub proof fn lemma_concluded_stays_silent(walker: WalkerView, ops: Seq<WalkOp>)
    requires
        walker.concluded || walker.phase is Cancelled,
    ensures
        flush_count(walker, ops) == 0,
    decreases ops.len(),
{
    if ops.len() > 0 {
        lemma_concluded_stays_silent(walker.after(ops.first()), ops.drop_first());
    }
}

/// Along any run a walker hands a result to the sink at most once.
pub proof fn lemma_flush_at_most_once(walker: WalkerView, ops: Seq<WalkOp>)
    ensures
        flush_count(walker, ops) <= 1,
    decreases ops.len(),
{
    if ops.len() > 0 {
        let next = walker.after(ops.first());
        if walker.hands_out(ops.first()) {
            lemma_concluded_stays_silent(next, ops.drop_first());
        } else {
            lemma_flush_at_most_once(next, ops.drop_first());
        }
    }
}

/// After a cancellation a walker hands nothing to the sink, whatever
/// follows.
pub proof fn lemma_cancel_discards(walker: WalkerView, ops: Seq<WalkOp>)
    ensures
        flush_count(walker.cancelled(), ops) == 0,
{
    lemma_concluded_stays_silent(walker.cancelled(), ops);
}

/// Gathering distributes over a first response.
proof fn lemma_gathered_first(target: i64, first: ResponseView, rest: Seq<ResponseView>)
    ensures
        gathered(target, seq![first] + rest) == (match first {
            Ok(page) => matching(page.records, target),
            Err(_) => Seq::empty(),
        }) + gathered(target, rest),
{
    assert((seq![first] + rest).drop_first() =~= rest);
}

/// What a walker has accumulated after a run of polls and deliveries is
/// what it had, followed by the matching records of the responses it took
/// in: nothing else enters, neither the times of the polls nor what was
/// ignored.
pub proof fn lemma_collected_is_gathered(walker: WalkerView, ops: Seq<WalkOp>)
    requires
        undisturbed(ops),
    ensures
        run(walker, ops).collected == walker.collected + gathered(
            walker.target,
            taken(walker, ops),
        ),
        run(walker, ops).target == walker.target,
    decreases ops.len(),
{
    if ops.len() == 0 {
        assert(walker.collected + Seq::<Record>::empty() =~= walker.collected);
    } else {
        let op = ops.first();
        let next = walker.after(op);
        let rest = ops.drop_first();
        assert(ops[0] is Poll || ops[0] is Deliver);
        assert forall|i: int| 0 <= i < rest.len() implies (#[trigger] rest[i] is Poll
            || rest[i] is Deliver) by {
            assert(rest[i] == ops[i + 1]);
        }
        lemma_collected_is_gathered(next, rest);
        if walker.takes(op) {
            lemma_gathered_first(walker.target, op->response, taken(next, rest));
            assert(next.collected + gathered(walker.target, taken(next, rest)) =~= walker.collected
                + gathered(walker.target, taken(walker, ops)));
        }
    }
}

/// Two walkers with the same target that start with the same records and
/// take in the same responses end with the same records, however their
/// polls and ignored deliveries were timed or interleaved.
pub proof fn lemma_same_pages_same_result(
    left: WalkerView,
    left_ops: Seq<WalkOp>,
    right: WalkerView,
    right_ops: Seq<WalkOp>,
)
    requires
        left.target == right.target,
        left.collected == right.collected,
        undisturbed(left_ops),
        undisturbed(right_ops),
        taken(left, left_ops) == taken(right, right_ops),
    ensures
        run(left, left_ops).collected == run(right, right_ops).collected,
{
    lemma_collected_is_gathered(left, left_ops);
    lemma_collected_is_gathered(right, right_ops);
}

} // verus!
