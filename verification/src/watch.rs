//! The watcher's side of a reload: what an event on the configuration file
//! sets off.
//!
//! The watcher runs on a thread of its own. It never touches the store: it
//! raises the flag that it shares with the store and has a token sent to the
//! thread that owns the store, which then reloads.

use std::sync::atomic::AtomicBool;
use vstd::prelude::*;

verus! {

/// An event on the watched file, as far as the store cares.
#[derive(Clone, Copy, Debug, PartialEq, Eq, Structural)]
pub enum WatchEvent {
    /// The file was written to.
    Modify,
    /// Anything else.
    Other,
}

/// Whether an event asks for a reload: a modification does, nothing else.
pub open spec fn asks_for_reload(event: WatchEvent) -> bool {
    event is Modify
}

/// Handles one event of the watcher. On a modification the flag is raised, and
/// the result tells the caller to send a wake-up token; on any other event
/// nothing happens. Raising a flag that is up already leaves it up, so events
/// that come faster than they are handled fold into one request.
pub fn signal_change(flag: &AtomicBool, event: WatchEvent) -> (wake: bool)
    ensures
        wake == asks_for_reload(event),
{
    match event {
        WatchEvent::Modify => {
            flag.store(true, std::sync::atomic::Ordering::Relaxed);
            true
        },
        WatchEvent::Other => false,
    }
}

/// What a reading of the shared flag says: a reload is pending where there is
/// a flag and it was found raised.
pub open spec fn pending_after(reading: Option<bool>) -> bool {
    reading == Some(true)
}

/// Whether a reload is pending, given what was read of the flag: `None` where
/// the store shares no flag, else the value that the flag held when it was
/// read.
pub fn reload_pending_after(reading: Option<bool>) -> (pending: bool)
    ensures
        pending == pending_after(reading),
{
    match reading {
        Some(raised) => raised,
        None => false,
    }
}

} // verus!
