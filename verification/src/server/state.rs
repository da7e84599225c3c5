//! Decisions and computations of the background refresh loop, separated
//! from the timer, locking and I/O that drive them.

use crate::membased::Journeys;
use vstd::prelude::*;

verus! {

/// One refresh cycle's computation, done off-lock on a private copy of the
/// shared index: expire the journeys not updated since the cutoff, then
/// fold the freshly fetched batch in, the batch winning per identity.
pub fn refreshed_journeys(current: Journeys, batch: Journeys, cutoff: i64) -> (r: Journeys)
    requires
        current.wf(),
        batch.wf(),
    ensures
        r.wf(),
        r@ == Journeys::expire_map(current@, cutoff as int).union_prefer_right(batch@),
{
    let mut r = current;
    r.expire(cutoff);
    r.merge_from(batch);
    r
}

/// The health counters after one refresh cycle: the attempt counter always
/// advances (wrapping), and a successful cycle records the attempt number
/// it started with. The counters are returned, not stored: the caller owns
/// the cells they live in.
pub fn record_sync_cycle(last_successful_sync: u32, next_sync: u32, success: bool) -> (r: (
    u32,
    u32,
))
    ensures
        r.0 == if success {
            next_sync
        } else {
            last_successful_sync
        },
        r.1 == (next_sync + 1) % 0x1_0000_0000,
{
    let new_last = if success {
        next_sync
    } else {
        last_successful_sync
    };
    (new_last, next_sync.wrapping_add(1))
}

/// What the refresh loop should do in response to one event.
#[derive(PartialEq, Eq, Structural, Clone, Copy, Debug)]
pub enum RefreshAction {
    /// The very first timer tick only arms the interval; no fetch happens.
    Arm,
    /// Fetch a fresh feed snapshot and fold it into the shared index.
    Fetch,
    /// Leave the loop.
    Stop,
    /// Nothing to do; keep waiting.
    Wait,
}

/// One event the refresh loop can observe.
#[derive(PartialEq, Eq, Structural, Clone, Copy, Debug)]
pub enum RefreshEvent {
    /// The interval timer fired.
    Tick,
    /// The shutdown signal changed; the payload is its current value.
    ShutdownChanged(bool),
}

/// The refresh loop's private state: whether the interval has been armed by
/// its first tick yet.
pub struct RefreshLoop {
    pub armed: bool,
}

impl RefreshLoop {
    /// A freshly started loop has not seen its first tick.
    pub fn new() -> (r: RefreshLoop)
        ensures
            !r.armed,
    {
        RefreshLoop { armed: false }
    }

    /// Decide what to do about one event. The first tick arms the interval
    /// and is otherwise skipped; later ticks trigger a fetch; a shutdown
    /// signal that reads `true` stops the loop, one that reads `false` is
    /// ignored.
    pub fn on_event(&mut self, event: RefreshEvent) -> (action: RefreshAction)
        ensures
            final(self).armed == (old(self).armed || event == RefreshEvent::Tick),
            action == match event {
                RefreshEvent::Tick => if old(self).armed {
                    RefreshAction::Fetch
                } else {
                    RefreshAction::Arm
                },
                RefreshEvent::ShutdownChanged(stop) => if stop {
                    RefreshAction::Stop
                } else {
                    RefreshAction::Wait
                },
            },
    {
        match event {
            RefreshEvent::Tick => {
                if self.armed {
                    RefreshAction::Fetch
                } else {
                    self.armed = true;
                    RefreshAction::Arm
                }
            },
            RefreshEvent::ShutdownChanged(stop) => {
                if stop {
                    RefreshAction::Stop
                } else {
                    RefreshAction::Wait
                }
            },
        }
    }
}

} // verus!
