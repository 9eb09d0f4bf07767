//! The handler that reads the terminal and hands keys to the browser.
use vstd::prelude::*;
use crate::browser::{KeyCode, KeyEvent};
use crate::state::Event;

verus! {

/// The handler that forwards what the user types to the browser, until the
/// user presses Ctrl-C.
pub struct InputHandler;

/// What the terminal reports to the input handler.
#[derive(Debug, Clone, Copy, PartialEq, Eq, Structural)]
pub enum InputEvent {
    Key(KeyEvent),
    /// Any other report: the mouse, a resize, the focus, a paste.
    Other,
}

/// What the input handler does with a report of the terminal.
#[derive(Debug, Clone, Copy, PartialEq, Eq, Structural)]
pub enum InputAction {
    /// Tell the program that it ends, and stop reading.
    Quit,
    /// Hand the key to the browser, then ask for the screen to be redrawn.
    Forward,
    /// Read on.
    Skip,
}

/// The key with which the user ends the program: `c` with Control alone.
pub open spec fn is_quit_key(k: KeyEvent) -> bool {
    k.code == KeyCode::Char('c') && k.modifiers.spec_is_control_only()
}

/// What the input handler does with `event`.
pub open spec fn input_action(event: InputEvent) -> InputAction {
    match event {
        InputEvent::Key(k) => if is_quit_key(k) {
            InputAction::Quit
        } else {
            InputAction::Forward
        },
        InputEvent::Other => InputAction::Skip,
    }
}

/// Where the input loop stands.
#[derive(Debug, Clone, Copy, PartialEq, Eq, Structural)]
pub enum InputPhase {
    /// Reading the terminal and handing keys to the browser.
    Reading,
    /// The user asked to quit: nothing more is handed on or sent.
    Stopped,
}

/// The next phase of the input loop on `event`, and what the loop does.
pub open spec fn input_step(phase: InputPhase, event: InputEvent) -> (InputPhase, InputAction) {
    match phase {
        InputPhase::Reading => {
            let action = input_action(event);
            if action == InputAction::Quit {
                (InputPhase::Stopped, action)
            } else {
                (InputPhase::Reading, action)
            }
        },
        InputPhase::Stopped => (InputPhase::Stopped, InputAction::Skip),
    }
}

/// What the input loop does, in turn, when from `phase` it reads `events`.
pub open spec fn input_run(phase: InputPhase, events: Seq<InputEvent>) -> Seq<InputAction>
    decreases events.len(),
{
    if events.len() == 0 {
        seq![]
    } else {
        let (next, action) = input_step(phase, events[0]);
        seq![action] + input_run(next, events.drop_first())
    }
}

proof fn lemma_stopped_skips(events: Seq<InputEvent>)
    ensures
        input_run(InputPhase::Stopped, events).len() == events.len(),
        forall|i: int|
            0 <= i < events.len() ==> #[trigger] input_run(InputPhase::Stopped, events)[i]
                == InputAction::Skip,
    decreases events.len(),
{
    if events.len() > 0 {
        let rest = events.drop_first();
        lemma_stopped_skips(rest);
        let run = input_run(InputPhase::Stopped, events);
        assert forall|i: int| 0 <= i < events.len() implies #[trigger] run[i] == InputAction::Skip by {
            if i > 0 {
                assert(run[i] == input_run(InputPhase::Stopped, rest)[i - 1]);
            }
        }
    }
}

/// Over any run of the input loop: the program is told to end only on
/// Ctrl-C alone, that key is never handed to the browser, and once the loop
/// quits it does nothing more, so it quits at most once.
pub proof fn lemma_input_run(phase: InputPhase, events: Seq<InputEvent>)
    ensures
        input_run(phase, events).len() == events.len(),
        forall|i: int|
            0 <= i < events.len() && #[trigger] input_run(phase, events)[i] == InputAction::Quit
                ==> (events[i] matches InputEvent::Key(k) && is_quit_key(k)),
        forall|i: int|
            0 <= i < events.len() && #[trigger] input_run(phase, events)[i] == InputAction::Forward
                ==> (events[i] matches InputEvent::Key(k) && !is_quit_key(k)),
        forall|i: int, j: int|
            0 <= i < j < events.len() && #[trigger] input_run(phase, events)[i] == InputAction::Quit
                ==> #[trigger] input_run(phase, events)[j] == InputAction::Skip,
    decreases events.len(),
{
    if events.len() > 0 {
        let rest = events.drop_first();
        let (next, action) = input_step(phase, events[0]);
        lemma_input_run(next, rest);
        lemma_stopped_skips(rest);
        let run = input_run(phase, events);
        let tail = input_run(next, rest);
        assert(run == seq![action] + tail);
        assert forall|i: int| 0 < i < events.len() implies #[trigger] run[i] == tail[i - 1]
            && events[i] == rest[i - 1] by {}
        assert forall|i: int, j: int|
            0 <= i < j < events.len() && #[trigger] run[i] == InputAction::Quit implies #[trigger] run[j]
                == InputAction::Skip by {
            assert(run[j] == tail[j - 1]);
            if i == 0 {
                assert(next == InputPhase::Stopped);
                assert(tail[j - 1] == input_run(InputPhase::Stopped, rest)[j - 1]);
            } else {
                assert(run[i] == tail[i - 1]);
            }
        }
    }
}

/// Every key but Ctrl-C alone is handed to the browser, and only that key
/// makes the input loop stop: from `Reading`, any other report leaves the
/// loop reading.
pub proof fn lemma_only_quit_key_stops(event: InputEvent)
    ensures
        event matches InputEvent::Key(k) ==> (!is_quit_key(k) ==> input_action(event)
            == InputAction::Forward),
        input_step(InputPhase::Reading, event).0 == InputPhase::Stopped ==> (event matches InputEvent::Key(
            k,
        ) && is_quit_key(k)),
        !(event matches InputEvent::Key(k) && is_quit_key(k)) ==> input_step(InputPhase::Reading, event).0
            == InputPhase::Reading,
{
}

/// Over a run in which the user never presses Ctrl-C alone, every key is
/// handed to the browser, every other report is skipped, and the loop keeps
/// reading.
pub proof fn lemma_reads_until_quit(events: Seq<InputEvent>)
    requires
        forall|i: int| 0 <= i < events.len() ==> !(#[trigger] events[i] matches InputEvent::Key(k)
            && is_quit_key(k)),
    ensures
        input_run(InputPhase::Reading, events).len() == events.len(),
        forall|i: int|
            0 <= i < events.len() ==> #[trigger] input_run(InputPhase::Reading, events)[i] == if events[i]
                is Key {
                InputAction::Forward
            } else {
                InputAction::Skip
            },
    decreases events.len(),
{
    if events.len() > 0 {
        let rest = events.drop_first();
        assert forall|i: int| 0 <= i < rest.len() implies !(#[trigger] rest[i] matches InputEvent::Key(k)
            && is_quit_key(k)) by {
            assert(rest[i] == events[i + 1]);
        }
        lemma_reads_until_quit(rest);
        let run = input_run(InputPhase::Reading, events);
        let tail = input_run(InputPhase::Reading, rest);
        assert(!(events[0] matches InputEvent::Key(k) && is_quit_key(k)));
        assert(input_step(InputPhase::Reading, events[0]).0 == InputPhase::Reading);
        assert(run == seq![input_step(InputPhase::Reading, events[0]).1] + tail);
        assert forall|i: int| 0 <= i < events.len() implies #[trigger] run[i] == if events[i] is Key {
            InputAction::Forward
        } else {
            InputAction::Skip
        } by {
            if i > 0 {
                assert(run[i] == tail[i - 1]);
                assert(events[i] == rest[i - 1]);
            }
        }
    }
}

impl InputHandler {
    pub fn new() -> Self {
        InputHandler
    }

    /// The events on which the handler starts: the start of the program.
    pub fn deps(&self) -> (deps: &[Event])
        ensures
            deps@ == seq![Event::Start],
    {
        let deps: &[Event] = &[Event::Start];
        assert(deps@ =~= seq![Event::Start]);
        deps
    }

    /// What the handler does with a report of the terminal.
    pub fn on_event(&self, event: InputEvent) -> (action: InputAction)
        ensures
            action == input_action(event),
            event matches InputEvent::Key(k) ==> (action == InputAction::Quit <==> is_quit_key(k)),
            event matches InputEvent::Key(k) ==> (!is_quit_key(k) ==> action == InputAction::Forward),
            event matches InputEvent::Key(k) ==> (k.code != KeyCode::Char('c') || !k.modifiers.control
                ==> action == InputAction::Forward),
            event == InputEvent::Other ==> action == InputAction::Skip,
    {
        match event {
            InputEvent::Key(k) => {
                let is_c = match k.code {
                    KeyCode::Char(c) => c == 'c',
                    _ => false,
                };
                if is_c && k.modifiers.is_control_only() {
                    InputAction::Quit
                } else {
                    InputAction::Forward
                }
            },
            InputEvent::Other => InputAction::Skip,
        }
    }

    /// The next phase of the input loop on `event`, and what the loop does.
    pub fn step(&self, phase: InputPhase, event: InputEvent) -> (r: (InputPhase, InputAction))
        ensures
            r == input_step(phase, event),
            phase == InputPhase::Reading ==> (event matches InputEvent::Key(k) ==> (is_quit_key(k) ==> r
                == (InputPhase::Stopped, InputAction::Quit))),
            phase == InputPhase::Reading ==> (event matches InputEvent::Key(k) ==> (!is_quit_key(k) ==> r
                == (InputPhase::Reading, InputAction::Forward))),
            phase == InputPhase::Reading && event == InputEvent::Other ==> r == (
                InputPhase::Reading,
                InputAction::Skip,
            ),
            phase == InputPhase::Stopped ==> r == (InputPhase::Stopped, InputAction::Skip),
    {
        match phase {
            InputPhase::Reading => {
                let action = self.on_event(event);
                match action {
                    InputAction::Quit => (InputPhase::Stopped, action),
                    _ => (InputPhase::Reading, action),
                }
            },
            InputPhase::Stopped => (InputPhase::Stopped, InputAction::Skip),
        }
    }
}

} // verus!
