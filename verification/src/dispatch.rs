use vstd::prelude::*;

use crate::config::{debounce_of, spawn_of, Config, Handler, SpawnMode};
use crate::protocol::socket_json::SocketLine;
use crate::template::{matches_when, substitute, substituted, when_holds};

verus! {

/// How many handlers run in the background at once.
pub const MAX_CONCURRENT_HANDLERS: usize = 8;

/// One handler run that an event calls for: the handler's position in the config, its
/// debounce delay (0: run at once), its spawn mode and its command with the event's
/// fields put in.
#[derive(Debug)]
pub struct PlannedRun {
    pub index: usize,
    pub debounce_ms: u64,
    pub spawn: SpawnMode,
    pub command: String,
}

/// Whether a handler answers an event: the event has a name, the handler is for that
/// name, and its `when` filter, if any, holds.
pub open spec fn handler_selected(h: Handler, event: SocketLine) -> bool {
    &&& event.event is Some
    &&& h.event@ == event.event->0@
    &&& match h.when {
        Some(w) => when_holds(w@, event),
        None => true,
    }
}

/// The positions, among the first `n` handlers, of those that answer an event, in order.
pub open spec fn selected_indices(handlers: Seq<Handler>, event: SocketLine, n: int) -> Seq<int>
    decreases n,
{
    if n <= 0 {
        Seq::empty()
    } else if handler_selected(handlers[n - 1], event) {
        selected_indices(handlers, event, n - 1).push(n - 1)
    } else {
        selected_indices(handlers, event, n - 1)
    }
}

/// Whether a planned run is the one that handler number `i` calls for.
pub open spec fn run_for(r: PlannedRun, i: int, config: Config, event: SocketLine) -> bool {
    let h = config.handlers@[i];
    &&& r.index == i
    &&& r.debounce_ms == debounce_of(h, config.handler_defaults)
    &&& r.spawn == spawn_of(h, config.handler_defaults)
    &&& r.command@ == substituted(h.command@, event)
}

fn is_selected(h: &Handler, event: &SocketLine) -> (r: bool)
    ensures
        r == handler_selected(*h, *event),
{
    match &event.event {
        None => false,
        Some(name) => {
            if h.event != *name {
                return false;
            }
            match &h.when {
                Some(w) => matches_when(w, event),
                None => true,
            }
        },
    }
}

/// The handler runs that an event calls for, in the order of the config.
pub fn plan_event(config: &Config, event: &SocketLine) -> (runs: Vec<PlannedRun>)
    ensures
        runs@.len() == selected_indices(config.handlers@, *event, config.handlers@.len() as int).len(),
        forall|k: int|
            0 <= k < runs@.len() ==> run_for(
                #[trigger] runs@[k],
                selected_indices(config.handlers@, *event, config.handlers@.len() as int)[k],
                *config,
                *event,
            ),
{
    let mut runs: Vec<PlannedRun> = Vec::new();
    let mut i: usize = 0;
    while i < config.handlers.len()
        invariant
            i <= config.handlers.len(),
            runs@.len() == selected_indices(config.handlers@, *event, i as int).len(),
            forall|k: int|
                0 <= k < runs@.len() ==> run_for(
                    #[trigger] runs@[k],
                    selected_indices(config.handlers@, *event, i as int)[k],
                    *config,
                    *event,
                ),
        decreases config.handlers.len() - i,
    {
        let handler = &config.handlers[i];
        let ghost before = selected_indices(config.handlers@, *event, i as int);
        if is_selected(handler, event) {
            let command = substitute(handler.command.as_str(), event);
            let debounce_ms = handler.effective_debounce_ms(&config.handler_defaults);
            let spawn = handler.effective_spawn(&config.handler_defaults);
            let ghost prev = runs@;
            runs.push(PlannedRun { index: i, debounce_ms, spawn, command });
            assert(selected_indices(config.handlers@, *event, i + 1) == before.push(i as int));
            assert forall|k: int| 0 <= k < runs@.len() implies run_for(
                #[trigger] runs@[k],
                selected_indices(config.handlers@, *event, i + 1)[k],
                *config,
                *event,
            ) by {
                if k < runs@.len() - 1 {
                    assert(runs@[k] == prev[k]);
                }
            }
        }
        i = i + 1;
    }
    runs
}

} // verus!
