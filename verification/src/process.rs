//! The plugin of a process, asked for from several threads.
//!
//! Threads that ask for the plugin share one cell, which is filled once: while
//! one of them loads the plugin the others wait, one that fails to load it
//! leaves the cell empty, and what is in the cell is handed out without a call.
//! The cell itself belongs to whoever drives the procedures. This is what holds
//! of every order in which the threads can get their turns.

use vstd::prelude::*;

use crate::handles::Pjrt;
use crate::protocol::Protocol;
use crate::transcript::Exchange;

verus! {

broadcast use crate::protocol::lemma_and_then;

/// What a thread does on its way to the plugin.
pub enum Event {
    /// It finds the cell empty and starts to load the plugin.
    Begins { thread: int },
    /// It makes a call on its way and gets the reply.
    Calls { thread: int, exchange: Exchange },
    /// Its load, with the calls of `transcript`, comes to its end.
    Ends { thread: int, transcript: Seq<Exchange>, end: Protocol<Pjrt> },
    /// It finds a plugin in the cell.
    Finds { thread: int, found: Pjrt },
}

impl Event {
    /// The plugin that the thread has got with this.
    pub open spec fn got(self) -> Option<Pjrt> {
        match self {
            Event::Ends { end: Protocol::Return(pjrt), .. } => Some(pjrt),
            Event::Finds { found, .. } => Some(found),
            _ => None,
        }
    }
}

/// The cell, and the thread that is loading, with the calls it has made.
pub struct Cell {
    pub kept: Option<Pjrt>,
    pub loading: Option<(int, Seq<Exchange>)>,
}

impl Cell {
    /// It can be this thread's turn to do this.
    pub open spec fn allows(self, event: Event) -> bool {
        let load = crate::plugin::shared_pjrt_protocol(None);
        match event {
            Event::Begins { thread } => self.kept is None && self.loading is None,
            Event::Calls { thread, exchange } => {
                &&& self.loading matches Some((loader, made))
                &&& loader == thread
                &&& exists|rest: Protocol<Pjrt>| load.leads_to(made.push(exchange), rest)
            },
            Event::Ends { thread, transcript, end } => {
                &&& self.loading == Some((thread, transcript))
                &&& load.leads_to(transcript, end)
                &&& end !is Call
            },
            Event::Finds { thread, found } => self.kept == Some(found),
        }
    }

    /// The cell afterwards.
    pub open spec fn next(self, event: Event) -> Cell {
        match event {
            Event::Begins { thread } => Cell { loading: Some((thread, Seq::empty())), ..self },
            Event::Calls { thread, exchange } => Cell {
                loading: match self.loading {
                    Some((loader, made)) => Some((loader, made.push(exchange))),
                    None => None,
                },
                ..self
            },
            Event::Ends { thread, transcript, end } => Cell {
                kept: match end {
                    Protocol::Return(pjrt) => Some(pjrt),
                    _ => None,
                },
                loading: None,
            },
            Event::Finds { thread, found } => self,
        }
    }

    /// The cell after these events, empty at first.
    pub open spec fn after(events: Seq<Event>) -> Cell
        decreases events.len(),
    {
        if events.len() == 0 {
            Cell { kept: None, loading: None }
        } else {
            Cell::after(events.drop_last()).next(events.last())
        }
    }
}

/// An order in which the threads can get their turns.
pub open spec fn can_happen(events: Seq<Event>) -> bool
    decreases events.len(),
{
    events.len() > 0 ==> {
        &&& can_happen(events.drop_last())
        &&& Cell::after(events.drop_last()).allows(events.last())
    }
}

/// What one thread got stays in the cell, and whoever comes after it finds it.
proof fn lemma_kept(events: Seq<Event>, i: int)
    requires
        can_happen(events),
        0 <= i < events.len(),
        events[i].got() is Some,
    ensures
        Cell::after(events) == (Cell { kept: events[i].got(), loading: None }),
        i < events.len() - 1 ==> events.last() is Finds,
    decreases events.len(),
{
    let before = events.drop_last();
    if i < before.len() {
        assert(before[i] == events[i]);
        lemma_kept(before, i);
    } else {
        lemma_loading(before);
    }
}

/// Nothing is loaded while there is a plugin in the cell, and what is in it
/// comes from a load that returned it.
proof fn lemma_loading(events: Seq<Event>) -> (load: int)
    requires
        can_happen(events),
    ensures
        Cell::after(events).kept matches Some(pjrt) ==> {
            &&& Cell::after(events).loading is None
            &&& 0 <= load < events.len()
            &&& events[load] is Ends
            &&& events[load].got() == Some(pjrt)
        },
    decreases events.len(),
{
    if events.len() == 0 {
        0
    } else {
        let load = lemma_loading(events.drop_last());
        match events.last() {
            Event::Ends { end: Protocol::Return(pjrt), .. } => events.len() - 1,
            _ => {
                if Cell::after(events.drop_last()).kept is Some {
                    assert(events.drop_last()[load] == events[load]);
                }
                load
            },
        }
    }
}

/// Whatever the order in which any number of threads get their turns, all that
/// get a plugin get the same one. Once one has got it, the others find it:
/// nobody begins to load, makes a call or ends a load again, so only one load
/// ever returns a plugin.
pub proof fn law_threads_share_one_plugin(events: Seq<Event>, i: int, j: int)
    requires
        can_happen(events),
        0 <= i < j < events.len(),
        events[i].got() is Some,
    ensures
        events[j] is Finds,
        events[j].got() == events[i].got(),
        Cell::after(events).kept == events[i].got(),
{
    lemma_kept(events, i);
    lemma_prefix(events, j + 1);
    let until = events.take(j + 1);
    assert(until[i] == events[i]);
    assert(until.last() == events[j]);
    lemma_kept(until, i);
    lemma_kept(until, j);
}

/// Before a thread gets a plugin, or as it does, a load has returned it: a
/// complete run of loading and initializing.
pub proof fn law_plugin_is_loaded_before_it_is_got(events: Seq<Event>, i: int) -> (load: int)
    requires
        can_happen(events),
        0 <= i < events.len(),
        events[i].got() is Some,
    ensures
        0 <= load <= i,
        events[load] matches Event::Ends { transcript, end, .. } && {
            &&& end == Protocol::Return(events[i].got()->0)
            &&& Pjrt::load_protocol().and_then(crate::plugin::plugin_loaded()).completes(
                transcript,
                events[i].got()->0,
            )
        },
{
    lemma_prefix(events, i + 1);
    let until = events.take(i + 1);
    assert(until[i] == events[i]);
    lemma_kept(until, i);
    let load = lemma_loading(until);
    assert(until[load] == events[load]);
    lemma_prefix(events, load + 1);
    let first = events.take(load + 1);
    assert(first.last() == events[load]);
    load
}

/// As long as no thread has got a plugin the cell is empty, so one that comes
/// while nobody is loading begins to load: a load that failed leaves nothing.
pub proof fn law_failed_load_is_tried_again(events: Seq<Event>, thread: int)
    requires
        can_happen(events),
        forall|i: int| 0 <= i < events.len() ==> (#[trigger] events[i]).got() is None,
    ensures
        Cell::after(events).kept is None,
        Cell::after(events).loading is None ==> Cell::after(events).allows(
            Event::Begins { thread },
        ),
        events.len() > 0 && events.last() is Ends ==> Cell::after(events).loading is None,
{
    let load = lemma_loading(events);
}

/// What happened up to some point could happen.
proof fn lemma_prefix(events: Seq<Event>, at: int)
    requires
        can_happen(events),
        0 <= at <= events.len(),
    ensures
        can_happen(events.take(at)),
    decreases events.len(),
{
    if at < events.len() {
        lemma_prefix(events.drop_last(), at);
        assert(events.drop_last().take(at) =~= events.take(at));
    } else {
        assert(events.take(at) =~= events);
    }
}

} // verus!
