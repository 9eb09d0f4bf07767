//! What the browser is told when the user types or clicks, and the
//! decisions of the loop that keeps a screenshot of the page at hand.
use vstd::prelude::*;

verus! {

/// A key of the keyboard, as far as the browser tells keys apart.
#[derive(Debug, Clone, Copy, PartialEq, Eq, Structural)]
pub enum KeyCode {
    Char(char),
    Enter,
    Backspace,
    Left,
    Right,
    Up,
    Down,
    /// Any other key: function keys, navigation keys, escape and the like.
    Other,
}

/// The modifier keys held down with a key.
#[derive(Debug, Clone, Copy, PartialEq, Eq, Structural)]
pub struct KeyModifiers {
    pub shift: bool,
    pub control: bool,
    pub alt: bool,
    pub super_key: bool,
    pub hyper: bool,
    pub meta: bool,
}

impl KeyModifiers {
    /// No modifier held.
    pub fn none() -> (m: KeyModifiers)
        ensures
            !m.shift && !m.control && !m.alt && !m.super_key && !m.hyper && !m.meta,
    {
        KeyModifiers { shift: false, control: false, alt: false, super_key: false, hyper: false, meta: false }
    }

    /// Control and nothing else is held.
    pub open spec fn spec_is_control_only(self) -> bool {
        self.control && !self.shift && !self.alt && !self.super_key && !self.hyper && !self.meta
    }

    /// Control and nothing else is held.
    pub fn is_control_only(&self) -> (b: bool)
        ensures
            b == self.spec_is_control_only(),
    {
        self.control && !self.shift && !self.alt && !self.super_key && !self.hyper && !self.meta
    }
}

/// A key pressed in the terminal.
#[derive(Debug, Clone, Copy, PartialEq, Eq, Structural)]
pub struct KeyEvent {
    pub code: KeyCode,
    pub modifiers: KeyModifiers,
}

/// A modifier key that the browser is told about.
#[derive(Debug, Clone, Copy, PartialEq, Eq, Structural)]
pub enum ModifierKey {
    Alt,
    Ctrl,
    Meta,
    Shift,
}

/// What a mouse event in the terminal is.
#[derive(Debug, Clone, Copy, PartialEq, Eq, Structural)]
pub enum MouseEventKind {
    Down,
    Up,
    Drag,
    Moved,
    ScrollDown,
    ScrollUp,
    ScrollLeft,
    ScrollRight,
}

/// The name under which the browser knows a key: the character itself, or
/// the name of the key, or nothing for the keys it is not told about.
pub open spec fn key_name(code: KeyCode) -> Seq<char> {
    match code {
        KeyCode::Char(c) => seq![c],
        KeyCode::Enter => seq!['E', 'n', 't', 'e', 'r'],
        KeyCode::Backspace => seq!['B', 'a', 'c', 'k', 's', 'p', 'a', 'c', 'e'],
        KeyCode::Left => seq!['A', 'r', 'r', 'o', 'w', 'L', 'e', 'f', 't'],
        KeyCode::Right => seq!['A', 'r', 'r', 'o', 'w', 'R', 'i', 'g', 'h', 't'],
        KeyCode::Up => seq!['A', 'r', 'r', 'o', 'w', 'U', 'p'],
        KeyCode::Down => seq!['A', 'r', 'r', 'o', 'w', 'D', 'o', 'w', 'n'],
        KeyCode::Other => seq![],
    }
}

/// The modifier that the browser is told about: control before shift before
/// alt before meta, and at most one of them.
pub open spec fn modifier_list(m: KeyModifiers) -> Seq<ModifierKey> {
    if m.control {
        seq![ModifierKey::Ctrl]
    } else if m.shift {
        seq![ModifierKey::Shift]
    } else if m.alt {
        seq![ModifierKey::Alt]
    } else if m.meta {
        seq![ModifierKey::Meta]
    } else {
        seq![]
    }
}

/// The browser is told about at most one modifier, and about one whenever
/// control, shift, alt or meta is held.
pub proof fn lemma_at_most_one_modifier(m: KeyModifiers)
    ensures
        modifier_list(m).len() <= 1,
        modifier_list(m).len() == 1 <==> (m.control || m.shift || m.alt || m.meta),
{
}

/// The browser is told a typed character as that very character, and each
/// other key it is told about under a name of its own, longer than one
/// character, so that no two keys share a name.
pub proof fn lemma_key_names(a: KeyCode, b: KeyCode)
    ensures
        a matches KeyCode::Char(c) ==> key_name(a) == seq![c],
        a != KeyCode::Other && !(a is Char) ==> key_name(a).len() > 1,
        a != KeyCode::Other && b != KeyCode::Other && a != b ==> key_name(a) != key_name(b),
{
    if a != KeyCode::Other && b != KeyCode::Other && a != b && key_name(a) == key_name(b) {
        let x = key_name(a);
        let y = key_name(b);
        assert(x.len() == y.len());
        assert(x[0] == y[0]);
        if x.len() > 5 {
            assert(x[5] == y[5]);
        }
        if x.len() > 6 {
            assert(x[6] == y[6]);
        }
    }
}

/// Calls `char::to_string`, whose text is the one character.
#[verifier::external_body]
fn char_to_string(c: char) -> (s: String)
    ensures
        s@ == seq![c],
{
    c.to_string()
}

/// The name under which the browser is told about the key of `k`.
pub fn key_event_2_key(k: KeyEvent) -> (name: String)
    ensures
        name@ == key_name(k.code),
        k.code matches KeyCode::Char(c) ==> name@ == seq![c],
        k.code == KeyCode::Other ==> name@.len() == 0,
        k.code != KeyCode::Other && !(k.code is Char) ==> name@.len() > 1,
{
    match k.code {
        KeyCode::Char(c) => char_to_string(c),
        KeyCode::Enter => {
            let s = String::from_str("Enter");
            proof {
                reveal_strlit("Enter");
            }
            assert(s@ =~= key_name(k.code));
            s
        },
        KeyCode::Backspace => {
            let s = String::from_str("Backspace");
            proof {
                reveal_strlit("Backspace");
            }
            assert(s@ =~= key_name(k.code));
            s
        },
        KeyCode::Left => {
            let s = String::from_str("ArrowLeft");
            proof {
                reveal_strlit("ArrowLeft");
            }
            assert(s@ =~= key_name(k.code));
            s
        },
        KeyCode::Right => {
            let s = String::from_str("ArrowRight");
            proof {
                reveal_strlit("ArrowRight");
            }
            assert(s@ =~= key_name(k.code));
            s
        },
        KeyCode::Up => {
            let s = String::from_str("ArrowUp");
            proof {
                reveal_strlit("ArrowUp");
            }
            assert(s@ =~= key_name(k.code));
            s
        },
        KeyCode::Down => {
            let s = String::from_str("ArrowDown");
            proof {
                reveal_strlit("ArrowDown");
            }
            assert(s@ =~= key_name(k.code));
            s
        },
        KeyCode::Other => {
            let s = String::new();
            assert(s@ =~= key_name(k.code));
            s
        },
    }
}

/// The modifiers that the browser is told about with the key of `k`.
pub fn key_event_2_modifiers(k: KeyEvent) -> (modifiers: Vec<ModifierKey>)
    ensures
        modifiers@ == modifier_list(k.modifiers),
{
    let mut modifiers: Vec<ModifierKey> = Vec::new();
    if k.modifiers.control {
        modifiers.push(ModifierKey::Ctrl);
    } else if k.modifiers.shift {
        modifiers.push(ModifierKey::Shift);
    } else if k.modifiers.alt {
        modifiers.push(ModifierKey::Alt);
    } else if k.modifiers.meta {
        modifiers.push(ModifierKey::Meta);
    }
    assert(modifiers@ =~= modifier_list(k.modifiers));
    modifiers
}

/// What the browser is told when `k` is pressed: the name of the key, and the
/// modifiers held with it, or `None` where there are none.
pub fn key_press(k: KeyEvent) -> (press: (String, Option<Vec<ModifierKey>>))
    ensures
        press.0@ == key_name(k.code),
        k.code matches KeyCode::Char(c) ==> press.0@ == seq![c],
        modifier_list(k.modifiers).len() == 0 ==> press.1 is None,
        modifier_list(k.modifiers).len() > 0 ==> (press.1 matches Some(m) && m@ == modifier_list(
            k.modifiers,
        )),
{
    let key = key_event_2_key(k);
    let modifiers = key_event_2_modifiers(k);
    if modifiers.len() == 0 {
        (key, None)
    } else {
        (key, Some(modifiers))
    }
}

/// Whether a mouse event clicks the page where it happens: it does when the
/// button is released, and no other mouse event reaches the browser.
pub fn clicks(kind: MouseEventKind) -> (click: bool)
    ensures
        click <==> kind == MouseEventKind::Up,
{
    match kind {
        MouseEventKind::Up => true,
        _ => false,
    }
}


/// The thread that keeps the latest screenshot of the page in the shared
/// buffer, and signals once that a first one is there.
pub struct BrowserThread;

/// Where the capture loop stands.
#[derive(Debug, Clone, Copy, PartialEq, Eq, Structural)]
pub enum CapturePhase {
    /// Before the first capture.
    Priming,
    /// The first screenshot is being stored; once it is, the renderer is
    /// told that it is there.
    Signalling,
    /// About to capture a screenshot.
    Streaming,
    /// A screenshot was stored; the loop sleeps, then looks whether the
    /// program ends.
    Sleeping,
    /// The loop is over.
    Done,
}

/// What the capture loop learns.
#[derive(Debug, Clone, Copy, PartialEq, Eq, Structural)]
pub enum CaptureEvent {
    /// A capture was tried; `ok` when the screenshot was taken and the buffer
    /// could be written.
    Captured { ok: bool },
    /// The screenshot that the loop was told to store is in the buffer.
    Stored,
    /// The loop woke up; `ended` when the program ends.
    Woke { ended: bool },
}

/// What the capture loop does on an event, besides moving to its next phase.
#[derive(Debug, Clone, Copy, PartialEq, Eq, Structural)]
pub struct CaptureAction {
    /// Store the screenshot in the buffer.
    pub store: bool,
    /// Tell the renderer that a screenshot is there.
    pub signal_started: bool,
}

/// The next phase and the action of the capture loop.
pub open spec fn capture_step(phase: CapturePhase, event: CaptureEvent) -> (CapturePhase, CaptureAction) {
    let nothing = CaptureAction { store: false, signal_started: false };
    match (phase, event) {
        (CapturePhase::Priming, CaptureEvent::Captured { ok }) => if ok {
            (CapturePhase::Signalling, CaptureAction { store: true, signal_started: false })
        } else {
            (CapturePhase::Streaming, nothing)
        },
        (CapturePhase::Signalling, CaptureEvent::Stored) => (
            CapturePhase::Streaming,
            CaptureAction { store: false, signal_started: true },
        ),
        (CapturePhase::Streaming, CaptureEvent::Captured { ok }) => if ok {
            (CapturePhase::Sleeping, CaptureAction { store: true, signal_started: false })
        } else {
            (CapturePhase::Done, nothing)
        },
        (CapturePhase::Sleeping, CaptureEvent::Woke { ended }) => if ended {
            (CapturePhase::Done, nothing)
        } else {
            (CapturePhase::Streaming, nothing)
        },
        _ => (phase, nothing),
    }
}

/// What the capture loop does, in turn, when from `phase` it learns `events`.
pub open spec fn capture_run(phase: CapturePhase, events: Seq<CaptureEvent>) -> Seq<CaptureAction>
    decreases events.len(),
{
    if events.len() == 0 {
        seq![]
    } else {
        let (next, action) = capture_step(phase, events[0]);
        seq![action] + capture_run(next, events.drop_first())
    }
}

impl BrowserThread {
    /// The next phase and the action of the capture loop on `event`.
    pub fn step(phase: CapturePhase, event: CaptureEvent) -> (r: (CapturePhase, CaptureAction))
        ensures
            r == capture_step(phase, event),
            r.0 == CapturePhase::Done <==> (phase == CapturePhase::Done || (phase
                == CapturePhase::Streaming && event == CaptureEvent::Captured { ok: false }) || (phase
                == CapturePhase::Sleeping && event == CaptureEvent::Woke { ended: true })),
            r.1.store <==> ((phase == CapturePhase::Priming || phase == CapturePhase::Streaming)
                && event == CaptureEvent::Captured { ok: true }),
    {
        let nothing = CaptureAction { store: false, signal_started: false };
        match (phase, event) {
            (CapturePhase::Priming, CaptureEvent::Captured { ok }) => if ok {
                (CapturePhase::Signalling, CaptureAction { store: true, signal_started: false })
            } else {
                (CapturePhase::Streaming, nothing)
            },
            (CapturePhase::Signalling, CaptureEvent::Stored) => (
                CapturePhase::Streaming,
                CaptureAction { store: false, signal_started: true },
            ),
            (CapturePhase::Streaming, CaptureEvent::Captured { ok }) => if ok {
                (CapturePhase::Sleeping, CaptureAction { store: true, signal_started: false })
            } else {
                (CapturePhase::Done, nothing)
            },
            (CapturePhase::Sleeping, CaptureEvent::Woke { ended }) => if ended {
                (CapturePhase::Done, nothing)
            } else {
                (CapturePhase::Streaming, nothing)
            },
            _ => (phase, nothing),
        }
    }
}

/// Over any run of the capture loop from `phase`: the renderer is signalled
/// at most once, never from a phase past the first screenshot, and never
/// before a screenshot was stored, unless the run starts while the first one
/// is being stored.
pub proof fn lemma_capture_run(phase: CapturePhase, events: Seq<CaptureEvent>)
    ensures
        capture_run(phase, events).len() == events.len(),
        forall|i: int, j: int|
            0 <= i < j < events.len() && (#[trigger] capture_run(phase, events)[i]).signal_started
                ==> !(#[trigger] capture_run(phase, events)[j]).signal_started,
        phase != CapturePhase::Priming && phase != CapturePhase::Signalling ==> forall|j: int|
            0 <= j < events.len() ==> !(#[trigger] capture_run(phase, events)[j]).signal_started,
        forall|j: int|
            0 <= j < events.len() && (#[trigger] capture_run(phase, events)[j]).signal_started
                ==> (phase == CapturePhase::Signalling || exists|i: int|
                0 <= i < j && (#[trigger] capture_run(phase, events)[i]).store),
    decreases events.len(),
{
    if events.len() > 0 {
        let rest = events.drop_first();
        let (next, action) = capture_step(phase, events[0]);
        lemma_capture_run(next, rest);
        let run = capture_run(phase, events);
        let tail = capture_run(next, rest);
        assert(run == seq![action] + tail);
        assert forall|k: int| 0 < k < events.len() implies #[trigger] run[k] == tail[k - 1] by {}
        assert forall|i: int, j: int|
            0 <= i < j < events.len() && (#[trigger] run[i]).signal_started implies !(
            #[trigger] run[j]).signal_started by {
            assert(run[j] == tail[j - 1]);
            if i == 0 {
                assert(next == CapturePhase::Streaming);
            } else {
                assert(run[i] == tail[i - 1]);
            }
        }
        if phase != CapturePhase::Priming && phase != CapturePhase::Signalling {
            assert(next != CapturePhase::Priming && next != CapturePhase::Signalling);
            assert forall|j: int| 0 <= j < events.len() implies !(#[trigger] run[j]).signal_started by {
                if j > 0 {
                    assert(run[j] == tail[j - 1]);
                }
            }
        }
        assert forall|j: int|
            0 <= j < events.len() && (#[trigger] run[j]).signal_started implies (phase
                == CapturePhase::Signalling || exists|i: int| 0 <= i < j && (#[trigger] run[i]).store) by {
            if j > 0 && phase != CapturePhase::Signalling {
                assert(tail[j - 1].signal_started);
                if next == CapturePhase::Signalling {
                    assert(action.store);
                    assert(run[0].store);
                } else {
                    let i = choose|i: int| 0 <= i < j - 1 && (#[trigger] tail[i]).store;
                    assert(run[i + 1] == tail[i]);
                    assert(run[i + 1].store);
                }
            }
        }
    }
}

/// From the start of the capture loop, the renderer is signalled at most
/// once, and only after a screenshot was stored in the buffer.
pub proof fn lemma_signal_after_store(events: Seq<CaptureEvent>, j: int)
    requires
        0 <= j < events.len(),
        capture_run(CapturePhase::Priming, events)[j].signal_started,
    ensures
        exists|i: int| 0 <= i < j && (#[trigger] capture_run(CapturePhase::Priming, events)[i]).store,
        forall|k: int|
            0 <= k < events.len() && k != j ==> !(#[trigger] capture_run(
                CapturePhase::Priming,
                events,
            )[k]).signal_started,
{
    lemma_capture_run(CapturePhase::Priming, events);
    let run = capture_run(CapturePhase::Priming, events);
    assert forall|k: int| 0 <= k < events.len() && k != j implies !(#[trigger] run[k]).signal_started by {
        if k < j {
            assert(!run[k].signal_started || !run[j].signal_started);
        } else {
            assert(!run[j].signal_started || !run[k].signal_started);
        }
    }
}

/// The capture loop ends exactly when a capture after the first one fails,
/// or when, waking from its sleep, it learns that the program ends; once
/// over it stays over. It stores a screenshot exactly when one was taken.
pub proof fn lemma_capture_ends(phase: CapturePhase, event: CaptureEvent)
    ensures
        capture_step(phase, event).0 == CapturePhase::Done <==> (phase == CapturePhase::Done || (phase
            == CapturePhase::Streaming && event == CaptureEvent::Captured { ok: false }) || (phase
            == CapturePhase::Sleeping && event == CaptureEvent::Woke { ended: true })),
        capture_step(phase, event).1.store <==> ((phase == CapturePhase::Priming || phase
            == CapturePhase::Streaming) && event == CaptureEvent::Captured { ok: true }),
{
}

proof fn lemma_capture_done_idle(events: Seq<CaptureEvent>)
    ensures
        forall|j: int|
            0 <= j < events.len() ==> !(#[trigger] capture_run(CapturePhase::Done, events)[j]).store
                && !capture_run(CapturePhase::Done, events)[j].signal_started,
    decreases events.len(),
{
    if events.len() > 0 {
        let rest = events.drop_first();
        lemma_capture_done_idle(rest);
        lemma_capture_run(CapturePhase::Done, events);
        lemma_capture_run(CapturePhase::Done, rest);
        let run = capture_run(CapturePhase::Done, events);
        assert(run == seq![capture_step(CapturePhase::Done, events[0]).1] + capture_run(
            CapturePhase::Done,
            rest,
        ));
        assert forall|j: int| 0 < j < events.len() implies run[j] == capture_run(
            CapturePhase::Done,
            rest,
        )[j - 1] by {}
    }
}

/// A capture loop that wakes from its sleep and learns that the program ends
/// neither stores nor signals anything more, whatever it is told afterwards.
pub proof fn lemma_no_capture_after_end(rest: Seq<CaptureEvent>)
    ensures
        ({
            let run = capture_run(CapturePhase::Sleeping, seq![CaptureEvent::Woke { ended: true }] + rest);
            forall|j: int| 0 <= j < run.len() ==> !(#[trigger] run[j]).store && !run[j].signal_started
        }),
{
    let events = seq![CaptureEvent::Woke { ended: true }] + rest;
    assert(events.drop_first() =~= rest);
    lemma_capture_done_idle(rest);
    lemma_capture_run(CapturePhase::Sleeping, events);
    let run = capture_run(CapturePhase::Sleeping, events);
    assert forall|j: int| 0 <= j < run.len() implies !(#[trigger] run[j]).store && !run[j].signal_started by {
        if j > 0 {
            assert(run[j] == capture_run(CapturePhase::Done, rest)[j - 1]);
        }
    }
}

/// Once over, the capture loop stays over and does nothing more.
pub proof fn lemma_capture_done_is_final(event: CaptureEvent)
    ensures
        capture_step(CapturePhase::Done, event) == (
            CapturePhase::Done,
            CaptureAction { store: false, signal_started: false },
        ),
{
}

} // verus!
