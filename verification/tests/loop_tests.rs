use silicone::browser::{BrowserThread, CaptureAction, CaptureEvent, CapturePhase};
use silicone::ui::{RenderEvent, RenderPhase, RenderThread};

fn act(store: bool, signal_started: bool) -> CaptureAction {
    CaptureAction { store, signal_started }
}

#[test]
fn capture_loop_signals_first_capture() {
    let (p, a) = BrowserThread::step(CapturePhase::Priming, CaptureEvent::Captured { ok: true });
    assert_eq!((p, a), (CapturePhase::Signalling, act(true, false)));
    let (p, a) = BrowserThread::step(p, CaptureEvent::Captured { ok: true });
    assert_eq!((p, a), (CapturePhase::Signalling, act(false, false)));
    let (p, a) = BrowserThread::step(p, CaptureEvent::Stored);
    assert_eq!((p, a), (CapturePhase::Streaming, act(false, true)));
    let (p, a) = BrowserThread::step(p, CaptureEvent::Captured { ok: true });
    assert_eq!((p, a), (CapturePhase::Sleeping, act(true, false)));
    let (p, a) = BrowserThread::step(p, CaptureEvent::Woke { ended: false });
    assert_eq!((p, a), (CapturePhase::Streaming, act(false, false)));
    let (p, a) = BrowserThread::step(p, CaptureEvent::Captured { ok: true });
    assert_eq!((p, a), (CapturePhase::Sleeping, act(true, false)));
    let (p, a) = BrowserThread::step(p, CaptureEvent::Woke { ended: true });
    assert_eq!((p, a), (CapturePhase::Done, act(false, false)));
}

#[test]
fn capture_loop_failures() {
    let (p, a) = BrowserThread::step(CapturePhase::Priming, CaptureEvent::Captured { ok: false });
    assert_eq!((p, a), (CapturePhase::Streaming, act(false, false)));
    let (p, a) = BrowserThread::step(p, CaptureEvent::Captured { ok: false });
    assert_eq!((p, a), (CapturePhase::Done, act(false, false)));
    let (p, a) = BrowserThread::step(p, CaptureEvent::Captured { ok: true });
    assert_eq!((p, a), (CapturePhase::Done, act(false, false)));
}

#[test]
fn render_loop_waits_then_draws() {
    let (p, d) = RenderThread::step(RenderPhase::Waiting, RenderEvent::Notified { started: false });
    assert_eq!((p, d), (RenderPhase::Waiting, false));
    let (p, d) = RenderThread::step(p, RenderEvent::Read { ok: true });
    assert_eq!((p, d), (RenderPhase::Waiting, false));
    let (p, d) = RenderThread::step(p, RenderEvent::Notified { started: true });
    assert_eq!((p, d), (RenderPhase::Drawing, false));
    let (p, d) = RenderThread::step(p, RenderEvent::Read { ok: true });
    assert_eq!((p, d), (RenderPhase::Sleeping, true));
    let (p, d) = RenderThread::step(p, RenderEvent::Woke { ended: false });
    assert_eq!((p, d), (RenderPhase::Drawing, false));
    let (p, d) = RenderThread::step(p, RenderEvent::Read { ok: false });
    assert_eq!((p, d), (RenderPhase::Done, false));
    let (p, d) = RenderThread::step(p, RenderEvent::Woke { ended: false });
    assert_eq!((p, d), (RenderPhase::Done, false));
}

#[test]
fn capture_loop_signals_once_over_a_run() {
    let events = [
        CaptureEvent::Stored,
        CaptureEvent::Captured { ok: true },
        CaptureEvent::Stored,
        CaptureEvent::Stored,
        CaptureEvent::Captured { ok: true },
        CaptureEvent::Woke { ended: false },
        CaptureEvent::Captured { ok: true },
        CaptureEvent::Woke { ended: false },
        CaptureEvent::Captured { ok: true },
        CaptureEvent::Woke { ended: true },
        CaptureEvent::Captured { ok: true },
    ];
    let mut phase = CapturePhase::Priming;
    let mut signals = 0;
    let mut stores = 0;
    for ev in events {
        let (next, action) = BrowserThread::step(phase, ev);
        if action.signal_started {
            assert!(stores > 0);
        }
        signals += action.signal_started as u32;
        stores += action.store as u32;
        phase = next;
    }
    assert_eq!(signals, 1);
    assert_eq!(stores, 4);
    assert_eq!(phase, CapturePhase::Done);
}
