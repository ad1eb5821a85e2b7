//! A bounded-concurrency pagination harness.
//!
//! Given a list of items, the harness drains a paginated, per-item result
//! set from a rate-limited remote service. The crate holds the decisions
//! only: every component is a state machine that is told what happened
//! (time passed, a page arrived, a fetch failed) and answers with what to
//! do next (sleep, fetch, flush). Sleeping, fetching and persisting are
//! left to the caller.
//!
//! - [`record`]: items, records, pages, and the filter by author.
//! - [`throttle`]: the minimum delay between the requests of one worker.
//! - [`gate`]: the counting gate that bounds how many items run at once.
//! - [`progress`]: the overall counter and the per-item counters.
//! - [`walker`]: the per-item driver; [`walker_run`] holds what is true of
//!   every run of one.
//! - [`dispatcher`]: the run as a whole; [`dispatcher_run`] holds what is
//!   true of every run of one.
//! - [`login`] and [`query`]: the decisions around signing in and around
//!   the parameters of requests.

pub mod dispatcher;
pub mod dispatcher_run;
pub mod gate;
pub mod login;
pub mod progress;
pub mod query;
pub mod record;
pub mod throttle;
pub mod walker;
pub mod walker_run;
