//! Per-item pagination driver.
//!
//! A walker drains the paginated records of one item. It is a state
//! machine: [`PaginationWalker::poll`] says what to do next (sleep, fetch,
//! nothing), [`PaginationWalker::deliver`] takes the answer to the fetch,
//! and [`PaginationWalker::conclude`] hands the accumulated result out once.

use vstd::prelude::*;
use crate::record::{
    append_matching, matching, FetchError, Item, ItemResult, Page, PageView, Record,
};
use crate::throttle::{pause_at, Throttle, ThrottleView};

verus! {

/// The mathematical value of a [`WalkerConfig`].
pub ghost struct ConfigView {
    /// Records asked for per request.
    pub page_size: nat,
    /// Hard stop: no request is made at or beyond this offset.
    pub max_offset: nat,
    /// The per-item counter moves once every this many pages.
    pub progress_stride: nat,
}

impl ConfigView {
    /// Pages advance, progress moves, and every field fits the wire type.
    pub open spec fn wf(self) -> bool {
        &&& 0 < self.page_size <= u32::MAX
        &&& self.max_offset <= u32::MAX
        &&& 0 < self.progress_stride <= u32::MAX
    }

    /// The largest number of requests one item can take: the offsets
    /// `0, page_size, 2 * page_size, ..` below `max_offset`.
    pub open spec fn max_pages(self) -> nat {
        ((self.max_offset + self.page_size - 1) / (self.page_size as int)) as nat
    }
}

/// Why a configuration was refused.
#[derive(Clone, Copy, Debug, PartialEq, Eq)]
pub enum ConfigError {
    /// A page size of zero would never advance.
    ZeroPageSize,
    /// A progress stride of zero would never report.
    ZeroProgressStride,
}

/// Page size, hard stop and progress stride of a walker.
#[derive(Clone, Copy, Debug, PartialEq, Eq)]
pub struct WalkerConfig {
    page_size: u32,
    max_offset: u32,
    progress_stride: u32,
}

impl View for WalkerConfig {
    type V = ConfigView;

    closed spec fn view(&self) -> ConfigView {
        ConfigView {
            page_size: self.page_size as nat,
            max_offset: self.max_offset as nat,
            progress_stride: self.progress_stride as nat,
        }
    }
}

impl WalkerConfig {
    /// Every configuration that exists was validated when it was made.
    #[verifier::type_invariant]
    pub open spec fn validated(&self) -> bool {
        self@.wf()
    }

    /// A configuration with the given values. A zero page size is refused
    /// first, then a zero progress stride.
    pub fn new(page_size: u32, max_offset: u32, progress_stride: u32) -> (config: Result<
        WalkerConfig,
        ConfigError,
    >)
        ensures
            page_size == 0 ==> config == Err::<WalkerConfig, ConfigError>(
                ConfigError::ZeroPageSize,
            ),
            page_size != 0 && progress_stride == 0 ==> config == Err::<WalkerConfig, ConfigError>(
                ConfigError::ZeroProgressStride,
            ),
            page_size != 0 && progress_stride != 0 ==> config is Ok && config->Ok_0@
                == (ConfigView {
                page_size: page_size as nat,
                max_offset: max_offset as nat,
                progress_stride: progress_stride as nat,
            }),
    {
        if page_size == 0 {
            Err(ConfigError::ZeroPageSize)
        } else if progress_stride == 0 {
            Err(ConfigError::ZeroProgressStride)
        } else {
            Ok(WalkerConfig { page_size, max_offset, progress_stride })
        }
    }

    /// Pages of 100 records, a hard stop at offset 10000, progress every
    /// 5 pages.
    pub fn standard() -> (config: WalkerConfig)
        ensures
            config@ == (ConfigView { page_size: 100, max_offset: 10000, progress_stride: 5 }),
    {
        WalkerConfig { page_size: 100, max_offset: 10000, progress_stride: 5 }
    }

    /// Records asked for per request.
    pub fn page_size(&self) -> (page_size: u32)
        ensures
            page_size == self@.page_size,
            self@.wf(),
    {
        proof {
            use_type_invariant(self);
        }
        self.page_size
    }

    /// The offset at and beyond which no request is made.
    pub fn max_offset(&self) -> (max_offset: u32)
        ensures
            max_offset == self@.max_offset,
            self@.wf(),
    {
        proof {
            use_type_invariant(self);
        }
        self.max_offset
    }

    /// Number of pages between two moves of the per-item counter.
    pub fn progress_stride(&self) -> (stride: u32)
        ensures
            stride == self@.progress_stride,
            self@.wf(),
    {
        proof {
            use_type_invariant(self);
        }
        self.progress_stride
    }

    /// The largest number of requests one item can take.
    pub fn max_pages(&self) -> (pages: u32)
        ensures
            pages == self@.max_pages(),
            self@.wf(),
    {
        proof {
            use_type_invariant(self);
        }
        let span: u64 = self.max_offset as u64 + self.page_size as u64 - 1;
        let pages: u64 = span / (self.page_size as u64);
        assert(pages <= u32::MAX) by (nonlinear_arith)
            requires
                pages == span / (self.page_size as u64),
                span <= 2 * 0xffff_ffff,
                1 <= self.page_size,
                span == self.max_offset as u64 + self.page_size as u64 - 1,
                self.max_offset <= 0xffff_ffffu32,
        ;
        pages as u32
    }
}

/// One request for a page of the records of an item.
#[derive(Clone, Copy, Debug, PartialEq, Eq)]
pub struct PageRequest {
    /// The item whose records are asked for.
    pub item_id: i64,
    /// Number of records asked for.
    pub limit: u32,
    /// Position of the first record asked for.
    pub offset: u32,
}

/// Where a walker stands.
#[derive(Clone, Copy, Debug, PartialEq, Eq)]
pub enum WalkPhase {
    /// The throttle has to let the next request through.
    Throttling,
    /// A request is in flight.
    Fetching,
    /// A short page arrived: the remote list is exhausted.
    Exhausted,
    /// The next offset would reach the hard stop.
    HardStopped,
    /// A fetch failed; what was accumulated before is kept.
    Failed(FetchError),
    /// The run was cancelled; what was accumulated is discarded.
    Cancelled,
}

/// What the caller of a walker does next.
#[derive(Clone, Copy, Debug, PartialEq, Eq)]
pub enum WalkAction {
    /// Sleep for this many milliseconds, then poll again.
    Sleep(u64),
    /// Issue this request and deliver its answer.
    Fetch(PageRequest),
    /// A request is in flight: deliver its answer.
    AwaitResponse,
    /// The walker is done: conclude it.
    Finished,
}

/// What a concluded walker leaves behind.
#[derive(Clone, Debug, PartialEq, Eq)]
pub struct Conclusion {
    /// The terminal phase the walker ended in.
    pub outcome: WalkPhase,
    /// The result to hand to the sink, if there is one.
    pub flush: Option<ItemResult>,
}

/// The mathematical value of a fetch response.
pub type ResponseView = Result<PageView, FetchError>;

/// The mathematical value of `response`.
pub open spec fn response_view(response: Result<Page, FetchError>) -> ResponseView {
    match response {
        Ok(page) => Ok(page@),
        Err(error) => Err(error),
    }
}

/// The mathematical value of a [`PaginationWalker`].
pub ghost struct WalkerView {
    /// The item being drained.
    pub item: Item,
    /// The author whose records are kept.
    pub target: i64,
    /// Page size, hard stop and progress stride.
    pub config: ConfigView,
    /// The walker's own throttle.
    pub throttle: ThrottleView,
    /// Where the walker stands.
    pub phase: WalkPhase,
    /// Pages received so far.
    pub pages: nat,
    /// Matching records accumulated so far, in the order received.
    pub collected: Seq<Record>,
    /// Whether the result was handed out.
    pub concluded: bool,
}

impl WalkerView {
    /// The offset of the next request.
    pub open spec fn offset(self) -> nat {
        self.pages * self.config.page_size
    }

    /// Whether the walker still pages.
    pub open spec fn active(self) -> bool {
        self.phase is Throttling || self.phase is Fetching
    }

    /// A walker that still pages stands below the hard stop and has not
    /// handed anything out.
    pub open spec fn wf(self) -> bool {
        &&& self.config.wf()
        &&& self.active() ==> self.offset() < self.config.max_offset && !self.concluded
    }

    /// A walker that has not asked for anything yet. With a hard stop of 0
    /// it is done before it starts.
    pub open spec fn initial(
        item: Item,
        target: i64,
        config: ConfigView,
        throttle: ThrottleView,
    ) -> WalkerView {
        WalkerView {
            item,
            target,
            config,
            throttle,
            phase: if 0 < config.max_offset {
                WalkPhase::Throttling
            } else {
                WalkPhase::HardStopped
            },
            pages: 0,
            collected: Seq::empty(),
            concluded: false,
        }
    }

    /// The request for the page the walker stands at.
    pub open spec fn request(self) -> PageRequest {
        PageRequest {
            item_id: self.item.id,
            limit: self.config.page_size as u32,
            offset: self.offset() as u32,
        }
    }

    /// What the caller is told when it polls at `now`.
    pub open spec fn action_at(self, now: nat) -> WalkAction {
        match self.phase {
            WalkPhase::Throttling => if self.throttle.ready(now) {
                WalkAction::Fetch(self.request())
            } else {
                WalkAction::Sleep(pause_at(self.throttle, now) as u64)
            },
            WalkPhase::Fetching => WalkAction::AwaitResponse,
            _ => WalkAction::Finished,
        }
    }

    /// The walker after a poll at `now`: a throttled walker that is let
    /// through has its request in flight.
    pub open spec fn polled(self, now: nat) -> WalkerView {
        if self.phase is Throttling {
            WalkerView {
                throttle: self.throttle.waited(now),
                phase: if self.throttle.ready(now) {
                    WalkPhase::Fetching
                } else {
                    WalkPhase::Throttling
                },
                ..self
            }
        } else {
            self
        }
    }

    /// Units by which the per-item counter moves when `response` is
    /// delivered: a full stride on every stride-th page, counted from the
    /// first, and nothing otherwise.
    pub open spec fn units(self, response: ResponseView) -> nat {
        if self.phase is Fetching && response is Ok && self.pages % self.config.progress_stride
            == 0 {
            self.config.progress_stride
        } else {
            0
        }
    }

    /// The phase after a page with `raw_count` records was received as
    /// page number `self.pages`.
    pub open spec fn phase_after_page(self, raw_count: nat) -> WalkPhase {
        if raw_count < self.config.page_size {
            WalkPhase::Exhausted
        } else if (self.pages + 1) * self.config.page_size >= self.config.max_offset {
            WalkPhase::HardStopped
        } else {
            WalkPhase::Throttling
        }
    }

    /// The walker after the answer to its request in flight. Without a
    /// request in flight the answer is ignored.
    pub open spec fn delivered(self, response: ResponseView) -> WalkerView {
        if self.phase is Fetching {
            match response {
                Ok(page) => WalkerView {
                    phase: self.phase_after_page(page.raw_count),
                    pages: self.pages + 1,
                    collected: self.collected + matching(page.records, self.target),
                    ..self
                },
                Err(error) => WalkerView { phase: WalkPhase::Failed(error), ..self },
            }
        } else {
            self
        }
    }

    /// The walker after the run was cancelled: unless it has concluded, it
    /// stops and drops what it accumulated.
    pub open spec fn cancelled(self) -> WalkerView {
        if self.concluded {
            self
        } else {
            WalkerView { phase: WalkPhase::Cancelled, collected: Seq::empty(), ..self }
        }
    }

    /// Whether concluding the walker now yields anything.
    pub open spec fn concludable(self) -> bool {
        !self.active() && !self.concluded
    }

    /// Whether concluding the walker now hands a result to the sink.
    pub open spec fn flushes(self) -> bool {
        self.concludable() && !(self.phase is Cancelled) && self.collected.len() > 0
    }

    /// The walker after it was asked to conclude.
    pub open spec fn concluded(self) -> WalkerView {
        if self.concludable() {
            WalkerView { concluded: true, collected: Seq::empty(), ..self }
        } else {
            self
        }
    }
}

/// Drains the paginated records of one item.
#[derive(Debug)]
pub struct PaginationWalker {
    item: Item,
    target: i64,
    config: WalkerConfig,
    throttle: Throttle,
    phase: WalkPhase,
    pages: u32,
    collected: Vec<Record>,
    concluded: bool,
}

impl View for PaginationWalker {
    type V = WalkerView;

    closed spec fn view(&self) -> WalkerView {
        WalkerView {
            item: self.item,
            target: self.target,
            config: self.config@,
            throttle: self.throttle@,
            phase: self.phase,
            pages: self.pages as nat,
            collected: self.collected@,
            concluded: self.concluded,
        }
    }
}

/// What `conclusion` says of a walker that stood at `walker`.
pub open spec fn conclusion_of(walker: WalkerView, conclusion: Option<Conclusion>) -> bool {
    if walker.concludable() {
        &&& conclusion is Some
        &&& conclusion->Some_0.outcome == walker.phase
        &&& if walker.flushes() {
            &&& conclusion->Some_0.flush is Some
            &&& conclusion->Some_0.flush->Some_0.item == walker.item
            &&& conclusion->Some_0.flush->Some_0.records@ == walker.collected
        } else {
            conclusion->Some_0.flush is None
        }
    } else {
        conclusion is None
    }
}

impl PaginationWalker {
    /// A walker for `item` that keeps the records written by `target`. Its
    /// throttle starts at `now_ms`.
    pub fn new(
        item: Item,
        target: i64,
        config: WalkerConfig,
        delay_ms: u64,
        now_ms: u64,
    ) -> (walker: PaginationWalker)
        ensures
            walker@ == WalkerView::initial(
                item,
                target,
                config@,
                ThrottleView { delay: delay_ms as nat, last_release: now_ms as nat },
            ),
            walker@.wf(),
    {
        let phase = if 0 < config.max_offset() {
            WalkPhase::Throttling
        } else {
            WalkPhase::HardStopped
        };
        PaginationWalker {
            item,
            target,
            config,
            throttle: Throttle::new(delay_ms, now_ms),
            phase,
            pages: 0,
            collected: Vec::new(),
            concluded: false,
        }
    }

    /// The item being drained.
    pub fn item(&self) -> (item: &Item)
        ensures
            *item == self@.item,
    {
        &self.item
    }

    /// Where the walker stands.
    pub fn phase(&self) -> (phase: WalkPhase)
        ensures
            phase == self@.phase,
    {
        self.phase
    }

    /// Pages received so far.
    pub fn pages(&self) -> (pages: u32)
        ensures
            pages == self@.pages,
    {
        self.pages
    }

    /// Number of matching records accumulated so far.
    pub fn collected_len(&self) -> (len: usize)
        ensures
            len == self@.collected.len(),
    {
        self.collected.len()
    }

    /// Whether the walker still pages.
    pub fn is_active(&self) -> (active: bool)
        ensures
            active == self@.active(),
    {
        match self.phase {
            WalkPhase::Throttling => true,
            WalkPhase::Fetching => true,
            _ => false,
        }
    }

    /// Whether the result was handed out.
    pub fn is_concluded(&self) -> (concluded: bool)
        ensures
            concluded == self@.concluded,
    {
        self.concluded
    }

    /// Says what to do next at `now_ms`. A walker waiting on its throttle
    /// either is told how long to sleep or is let through, and then its
    /// request is in flight.
    pub fn poll(&mut self, now_ms: u64) -> (action: WalkAction)
        requires
            old(self)@.wf(),
        ensures
            action == old(self)@.action_at(now_ms as nat),
            final(self)@ == old(self)@.polled(now_ms as nat),
            final(self)@.wf(),
    {
        match self.phase {
            WalkPhase::Throttling => {
                let pause = self.throttle.wait(now_ms);
                if pause == 0 {
                    let page_size = self.config.page_size();
                    let offset: u64 = (self.pages as u64) * (page_size as u64);
                    self.phase = WalkPhase::Fetching;
                    WalkAction::Fetch(
                        PageRequest {
                            item_id: self.item.id,
                            limit: page_size,
                            offset: offset as u32,
                        },
                    )
                } else {
                    WalkAction::Sleep(pause)
                }
            },
            WalkPhase::Fetching => WalkAction::AwaitResponse,
            _ => WalkAction::Finished,
        }
    }

    /// Takes the answer to the request in flight and returns the units by
    /// which the per-item counter moves. A page has its matching records
    /// appended; a short page, the hard stop or an error ends the paging.
    /// Without a request in flight the answer is ignored.
    pub fn deliver(&mut self, response: Result<Page, FetchError>) -> (units: u32)
        requires
            old(self)@.wf(),
        ensures
            units == old(self)@.units(response_view(response)),
            final(self)@ == old(self)@.delivered(response_view(response)),
            final(self)@.wf(),
    {
        match self.phase {
            WalkPhase::Fetching => {},
            _ => {
                return 0;
            },
        }
        match response {
            Ok(page) => {
                let page_size = self.config.page_size();
                let max_offset = self.config.max_offset();
                let stride = self.config.progress_stride();
                let units = if self.pages % stride == 0 {
                    stride
                } else {
                    0
                };
                assert(self.pages < u32::MAX && (self.pages + 1) * page_size <= u64::MAX)
                    by (nonlinear_arith)
                    requires
                        self.pages * page_size < max_offset,
                        1 <= page_size <= u32::MAX,
                        max_offset <= u32::MAX,
                        self.pages <= u32::MAX,
                ;
                let next: u64 = (self.pages as u64 + 1) * (page_size as u64);
                let raw_count = page.raw_count;
                append_matching(&mut self.collected, page.records, self.target);
                if raw_count < page_size as usize {
                    self.phase = WalkPhase::Exhausted;
                } else if next >= max_offset as u64 {
                    self.phase = WalkPhase::HardStopped;
                } else {
                    self.phase = WalkPhase::Throttling;
                }
                self.pages = self.pages + 1;
                units
            },
            Err(error) => {
                self.phase = WalkPhase::Failed(error);
                0
            },
        }
    }

    /// Cancels the walker: unless it has concluded, it stops and drops
    /// what it accumulated.
    pub fn cancel(&mut self)
        requires
            old(self)@.wf(),
        ensures
            final(self)@ == old(self)@.cancelled(),
            final(self)@.wf(),
    {
        if !self.concluded {
            self.phase = WalkPhase::Cancelled;
            self.collected.clear();
        }
    }

    /// Concludes the walker. The first call on a walker that no longer
    /// pages returns how it ended and, unless it was cancelled or kept
    /// nothing, the result for the sink. A walker that still pages, and
    /// every later call, returns nothing.
    pub fn conclude(&mut self) -> (conclusion: Option<Conclusion>)
        requires
            old(self)@.wf(),
        ensures
            conclusion_of(old(self)@, conclusion),
            final(self)@ == old(self)@.concluded(),
            final(self)@.wf(),
    {
        if self.is_active() || self.concluded {
            return None;
        }
        self.concluded = true;
        let mut records: Vec<Record> = Vec::new();
        core::mem::swap(&mut records, &mut self.collected);
        let cancelled = match self.phase {
            WalkPhase::Cancelled => true,
            _ => false,
        };
        let flush = if !cancelled && records.len() > 0 {
            Some(ItemResult { item: self.item.duplicate(), records })
        } else {
            None
        };
        Some(Conclusion { outcome: self.phase, flush })
    }
}

} // verus!
