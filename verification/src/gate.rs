//! Counting admission gate: bounds how many holders are active at once.

use vstd::prelude::*;

verus! {

/// The mathematical value of a [`ConcurrencyGate`].
pub ghost struct GateView {
    /// Maximum number of simultaneous holders.
    pub cap: nat,
    /// Holders admitted and not yet released.
    pub holders: nat,
}

impl GateView {
    /// A gate never holds more than its cap.
    pub open spec fn wf(self) -> bool {
        self.holders <= self.cap
    }

    /// Whether one more caller would be admitted.
    pub open spec fn admits(self) -> bool {
        self.holders < self.cap
    }

    /// This gate after one caller asked for a slot.
    pub open spec fn acquired(self) -> GateView {
        if self.admits() {
            GateView { holders: self.holders + 1, ..self }
        } else {
            self
        }
    }

    /// This gate after every holder gave its slot back.
    pub open spec fn emptied(self) -> GateView {
        GateView { holders: 0, ..self }
    }

    /// This gate after one holder gave its slot back.
    pub open spec fn released(self) -> GateView {
        if self.holders > 0 {
            GateView { holders: (self.holders - 1) as nat, ..self }
        } else {
            self
        }
    }
}

/// One call on a gate.
pub ghost enum GateOp {
    /// A caller asks for a slot.
    Acquire,
    /// A holder gives its slot back.
    Release,
    /// Every holder gives its slot back.
    ReleaseAll,
}

impl GateView {
    /// This gate after `op`.
    pub open spec fn after(self, op: GateOp) -> GateView {
        match op {
            GateOp::Acquire => self.acquired(),
            GateOp::Release => self.released(),
            GateOp::ReleaseAll => self.emptied(),
        }
    }

    /// This gate after the calls `ops`, in order.
    pub open spec fn after_all(self, ops: Seq<GateOp>) -> GateView
        decreases ops.len(),
    {
        if ops.len() == 0 {
            self
        } else {
            self.after(ops.first()).after_all(ops.drop_first())
        }
    }
}

/// Whatever calls reach a gate, in whatever order, it never holds more
/// than its cap, and its cap never changes.
pub proof fn lemma_never_over_cap(gate: GateView, ops: Seq<GateOp>)
    requires
        gate.wf(),
    ensures
        gate.after_all(ops).holders <= gate.cap,
        gate.after_all(ops).cap == gate.cap,
    decreases ops.len(),
{
    if ops.len() > 0 {
        lemma_never_over_cap(gate.after(ops.first()), ops.drop_first());
    }
}

/// A caller that is turned away leaks nothing: its gate is as it was.
pub proof fn lemma_refusal_leaks_nothing(gate: GateView)
    requires
        !gate.admits(),
    ensures
        gate.acquired() == gate,
{
}

/// A gate that admits at most `cap` holders at a time.
#[derive(Clone, Copy, Debug, PartialEq, Eq)]
pub struct ConcurrencyGate {
    cap: usize,
    holders: usize,
}

impl View for ConcurrencyGate {
    type V = GateView;

    closed spec fn view(&self) -> GateView {
        GateView { cap: self.cap as nat, holders: self.holders as nat }
    }
}

impl ConcurrencyGate {
    /// An empty gate with room for `cap` holders.
    pub fn new(cap: usize) -> (gate: ConcurrencyGate)
        ensures
            gate@ == (GateView { cap: cap as nat, holders: 0 }),
            gate@.wf(),
    {
        ConcurrencyGate { cap, holders: 0 }
    }

    /// The cap this gate was made with.
    pub fn capacity(&self) -> (cap: usize)
        ensures
            cap == self@.cap,
    {
        self.cap
    }

    /// The number of holders currently admitted.
    pub fn holders(&self) -> (holders: usize)
        ensures
            holders == self@.holders,
    {
        self.holders
    }

    /// Asks for a slot without blocking. The caller is admitted exactly
    /// when fewer than `cap` holders are active; a caller that is turned
    /// away holds nothing and leaves this gate as it was.
    pub fn try_acquire(&mut self) -> (admitted: bool)
        ensures
            admitted == old(self)@.admits(),
            final(self)@ == old(self)@.acquired(),
            old(self)@.wf() ==> final(self)@.wf(),
    {
        if self.holders < self.cap {
            self.holders = self.holders + 1;
            true
        } else {
            false
        }
    }

    /// Gives one slot back. Returns whether a slot was held at all; an
    /// empty gate is left as it was.
    pub fn release(&mut self) -> (freed: bool)
        ensures
            freed == (old(self)@.holders > 0),
            final(self)@ == old(self)@.released(),
            old(self)@.wf() ==> final(self)@.wf(),
    {
        if self.holders > 0 {
            self.holders = self.holders - 1;
            true
        } else {
            false
        }
    }

    /// Gives every slot back at once, as when the holders are dropped
    /// together.
    pub fn release_all(&mut self)
        ensures
            final(self)@ == old(self)@.emptied(),
            final(self)@.wf(),
    {
        self.holders = 0;
    }
}

} // verus!
