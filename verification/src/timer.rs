//! The monotonic-time sampler: a shared cell that a background loop refreshes
//! with the latest reading of the operating system's monotonic clock, and that
//! any number of readers may load without blocking.
//!
//! The cell itself is an outside concurrent primitive; the value it yields is
//! shared with a writer thread, so nothing is claimed about which sample a
//! load returns. Every consumer of a sample in this crate is specified for
//! every value the cell could hand back.
use std::sync::Arc;
use vstd::prelude::*;

verus! {

#[verifier::external_type_specification]
#[verifier::external_body]
#[verifier::reject_recursive_types(T)]
pub struct ExAtomicCell<T>(crossbeam::atomic::AtomicCell<T>);

/// A handle on the most recent physical sample `(seconds, nanoseconds)` of the
/// monotonic clock. Handles obtained by `clone` share one cell, so a store
/// through any handle is seen by loads through all of them.
pub struct SysTime {
    recent: Arc<crossbeam::atomic::AtomicCell<(i64, i64)>>,
}

impl Clone for SysTime {
    /// Relies on `Arc::clone`: the new handle shares this handle's cell.
    #[verifier::external_body]
    fn clone(&self) -> (other: SysTime) {
        SysTime { recent: Arc::clone(&self.recent) }
    }
}

impl SysTime {
    /// Relies on crossbeam's `AtomicCell::new`: makes a fresh cell holding the
    /// given initial sample.
    #[verifier::external_body]
    pub fn new(sec: i64, nsec: i64) -> SysTime {
        SysTime { recent: Arc::new(crossbeam::atomic::AtomicCell::new((sec, nsec))) }
    }

    /// Relies on crossbeam's `AtomicCell::load`: a non-blocking read of the
    /// most recently stored sample. Another thread may store at any moment,
    /// so no relation between consecutive loads is claimed.
    #[verifier::external_body]
    pub fn load(&self) -> (t: (i64, i64)) {
        self.recent.load()
    }

    /// Relies on crossbeam's `AtomicCell::store`: publishes a fresh sample to
    /// every handle that shares this cell.
    #[verifier::external_body]
    pub fn store(&self, sec: i64, nsec: i64) {
        self.recent.store((sec, nsec));
    }
}

/// What the refresh loop saw when it polled its cancellation channel.
pub enum SamplerEvent {
    /// A cancellation signal was delivered.
    Cancelled,
    /// No signal yet: the channel is open and empty.
    Pending,
    /// The channel was closed without a signal.
    Closed,
}

/// What the refresh loop is to do next.
pub enum SamplerAction {
    /// Sleep one period, take a fresh monotonic sample, and publish it.
    Refresh,
    /// Terminate the loop.
    Stop,
}

/// The decision step of the sampler's refresh loop: the loop keeps refreshing
/// exactly as long as the cancellation channel is open and silent, and stops
/// both on a delivered signal and on a closed channel.
pub fn sampler_step(event: &SamplerEvent) -> (action: SamplerAction)
    ensures
        action is Refresh <==> event is Pending,
{
    match event {
        SamplerEvent::Pending => SamplerAction::Refresh,
        SamplerEvent::Cancelled => SamplerAction::Stop,
        SamplerEvent::Closed => SamplerAction::Stop,
    }
}

} // verus!
