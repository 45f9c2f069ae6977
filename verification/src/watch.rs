//! Decisions of the watch loop. The loop itself blocks on a filesystem-event
//! channel, which is the caller's I/O; what to do with each thing the channel
//! yields is decided, and proved, here: the first event of a burst starts one
//! fixed debounce delay, every event queued behind it is discarded so the
//! whole burst coalesces into a single re-render, a failed channel always
//! stops the loop, and a failed render never does.

use vstd::prelude::*;

verus! {

/// Fixed quiet period observed after the first event of a burst, so one
/// render coalesces many rapid writes.
pub const DEBOUNCE_MILLIS: u64 = 150;

/// What the watch loop does next.
#[derive(Debug, PartialEq, Eq, Structural)]
pub enum WatchAction {
    /// Wait the debounce period after the burst's first event, discard every
    /// event queued meanwhile, then render once from the file's current
    /// state; a failure of that render is logged and watching goes on.
    CoalesceAndRender { delay_millis: u64 },
    /// The event channel itself failed: stop watching, fatally.
    Stop,
}

/// Decide the loop's next action from one blocking receive on the event
/// channel. Whether the previous render failed never changes the decision:
/// render errors are deliberately swallowed to keep watch mode alive.
pub fn watch_step(event_received: bool, last_render_failed: bool) -> (a: WatchAction)
    ensures
        a == (if event_received {
            WatchAction::CoalesceAndRender { delay_millis: DEBOUNCE_MILLIS as u64 }
        } else {
            WatchAction::Stop
        }),
{
    if event_received {
        WatchAction::CoalesceAndRender { delay_millis: DEBOUNCE_MILLIS }
    } else {
        WatchAction::Stop
    }
}

/// What to do with one poll of the event queue while coalescing a burst.
#[derive(Debug, PartialEq, Eq, Structural)]
pub enum DrainAction {
    /// An event was still queued: it belongs to the burst already being
    /// debounced, so discard it and poll again.
    DiscardAndPoll,
    /// The queue is empty: the burst is over; render exactly once.
    RenderOnce,
}

/// Decide, after the debounce delay, what one poll of the queue means: a
/// pending event is part of the burst and never triggers a render of its
/// own; only the emptied queue ends the burst, with its single render.
pub fn drain_step(event_pending: bool) -> (a: DrainAction)
    ensures
        a == (if event_pending {
            DrainAction::DiscardAndPoll
        } else {
            DrainAction::RenderOnce
        }),
{
    if event_pending {
        DrainAction::DiscardAndPoll
    } else {
        DrainAction::RenderOnce
    }
}

} // verus!
