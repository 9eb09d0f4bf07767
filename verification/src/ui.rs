//! The handler and the loop that draw the page in the terminal.
use vstd::prelude::*;
use crate::state::Event;

verus! {

/// The handler that draws the latest screenshot of the page whenever the
/// screen is to be redrawn.
pub struct RenderHandler;

impl RenderHandler {
    pub fn new() -> Self {
        RenderHandler
    }

    /// The events on which the handler runs: each request to redraw.
    pub fn deps(&self) -> (deps: &[Event])
        ensures
            deps@ == seq![Event::RefreshScreen],
    {
        let deps: &[Event] = &[Event::RefreshScreen];
        assert(deps@ =~= seq![Event::RefreshScreen]);
        deps
    }
}

/// The thread that draws the shared buffer in the terminal, once a first
/// screenshot is there, until the program ends.
pub struct RenderThread;

/// Where the render loop stands.
#[derive(Debug, Clone, Copy, PartialEq, Eq, Structural)]
pub enum RenderPhase {
    /// Waiting for the first screenshot.
    Waiting,
    /// About to read the buffer.
    Drawing,
    /// The buffer was drawn; the loop sleeps, then looks whether the program
    /// ends.
    Sleeping,
    /// The loop is over.
    Done,
}

/// What the render loop learns.
#[derive(Debug, Clone, Copy, PartialEq, Eq, Structural)]
pub enum RenderEvent {
    /// The loop was woken while waiting; `started` when a first screenshot
    /// is there.
    Notified { started: bool },
    /// The buffer was read; `ok` when it could be.
    Read { ok: bool },
    /// The loop woke from its sleep; `ended` when the program ends.
    Woke { ended: bool },
}

/// The next phase of the render loop, and whether it draws the buffer now.
pub open spec fn render_step(phase: RenderPhase, event: RenderEvent) -> (RenderPhase, bool) {
    match (phase, event) {
        (RenderPhase::Waiting, RenderEvent::Notified { started }) => if started {
            (RenderPhase::Drawing, false)
        } else {
            (RenderPhase::Waiting, false)
        },
        (RenderPhase::Drawing, RenderEvent::Read { ok }) => if ok {
            (RenderPhase::Sleeping, true)
        } else {
            (RenderPhase::Done, false)
        },
        (RenderPhase::Sleeping, RenderEvent::Woke { ended }) => if ended {
            (RenderPhase::Done, false)
        } else {
            (RenderPhase::Drawing, false)
        },
        _ => (phase, false),
    }
}

/// How often the render loop draws when, from `phase`, it learns `events`
/// in turn.
pub open spec fn draws_in_run(phase: RenderPhase, events: Seq<RenderEvent>) -> nat
    decreases events.len(),
{
    if events.len() == 0 {
        0
    } else {
        let (next, draw) = render_step(phase, events[0]);
        (if draw { 1nat } else { 0nat }) + draws_in_run(next, events.drop_first())
    }
}

impl RenderThread {
    /// The next phase of the render loop on `event`, and whether it draws
    /// the buffer now.
    pub fn step(phase: RenderPhase, event: RenderEvent) -> (r: (RenderPhase, bool))
        ensures
            r == render_step(phase, event),
            r.0 == RenderPhase::Done <==> (phase == RenderPhase::Done || (phase == RenderPhase::Drawing
                && event == RenderEvent::Read { ok: false }) || (phase == RenderPhase::Sleeping && event
                == RenderEvent::Woke { ended: true })),
            r.1 <==> (phase == RenderPhase::Drawing && event == RenderEvent::Read { ok: true }),
    {
        match (phase, event) {
            (RenderPhase::Waiting, RenderEvent::Notified { started }) => if started {
                (RenderPhase::Drawing, false)
            } else {
                (RenderPhase::Waiting, false)
            },
            (RenderPhase::Drawing, RenderEvent::Read { ok }) => if ok {
                (RenderPhase::Sleeping, true)
            } else {
                (RenderPhase::Done, false)
            },
            (RenderPhase::Sleeping, RenderEvent::Woke { ended }) => if ended {
                (RenderPhase::Done, false)
            } else {
                (RenderPhase::Drawing, false)
            },
            _ => (phase, false),
        }
    }
}

/// Nothing is drawn before a first screenshot is there: a waiting render
/// loop that is never told of one draws nothing.
pub proof fn lemma_no_draw_before_start(events: Seq<RenderEvent>)
    requires
        forall|i: int| 0 <= i < events.len() ==> events[i] != (RenderEvent::Notified { started: true }),
    ensures
        draws_in_run(RenderPhase::Waiting, events) == 0,
    decreases events.len(),
{
    if events.len() > 0 {
        let rest = events.drop_first();
        assert forall|i: int| 0 <= i < rest.len() implies rest[i] != (RenderEvent::Notified {
            started: true,
        }) by {
            assert(rest[i] == events[i + 1]);
        }
        lemma_no_draw_before_start(rest);
    }
}

/// The render loop ends exactly when the buffer cannot be read, or when,
/// waking from its sleep, it learns that the program ends; once over it
/// stays over. It draws exactly when it has read the buffer.
pub proof fn lemma_render_ends(phase: RenderPhase, event: RenderEvent)
    ensures
        render_step(phase, event).0 == RenderPhase::Done <==> (phase == RenderPhase::Done || (phase
            == RenderPhase::Drawing && event == RenderEvent::Read { ok: false }) || (phase
            == RenderPhase::Sleeping && event == RenderEvent::Woke { ended: true })),
        render_step(phase, event).1 <==> (phase == RenderPhase::Drawing && event == RenderEvent::Read {
            ok: true,
        }),
{
}

proof fn lemma_done_draws_nothing(events: Seq<RenderEvent>)
    ensures
        draws_in_run(RenderPhase::Done, events) == 0,
    decreases events.len(),
{
    if events.len() > 0 {
        lemma_done_draws_nothing(events.drop_first());
    }
}

/// A render loop that wakes from its sleep and learns that the program ends
/// draws nothing more, whatever it is told afterwards.
pub proof fn lemma_no_draw_after_end(rest: Seq<RenderEvent>)
    ensures
        draws_in_run(RenderPhase::Sleeping, seq![RenderEvent::Woke { ended: true }] + rest) == 0,
        draws_in_run(RenderPhase::Done, rest) == 0,
{
    let events = seq![RenderEvent::Woke { ended: true }] + rest;
    lemma_done_draws_nothing(rest);
    assert(events.drop_first() =~= rest);
}

/// Once over, the render loop stays over and draws nothing more.
pub proof fn lemma_render_done_is_final(event: RenderEvent)
    ensures
        render_step(RenderPhase::Done, event) == (RenderPhase::Done, false),
{
}

} // verus!
