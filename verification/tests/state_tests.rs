use silicone::state::{Event, Handlers};

#[test]
fn event_indices() {
    assert_eq!(Event::COUNT, 3);
    assert_eq!(Event::Start.index(), 0);
    assert_eq!(Event::End.index(), 1);
    assert_eq!(Event::RefreshScreen.index(), 2);
}

#[test]
fn new_registry_is_empty() {
    let hs: Handlers<&str> = Handlers::new();
    assert!(hs.get_handlers(Event::Start).is_empty());
    assert!(hs.get_handlers(Event::End).is_empty());
    assert!(hs.get_handlers(Event::RefreshScreen).is_empty());
    let d: Handlers<u32> = Handlers::default();
    assert!(d.get_handlers(Event::Start).is_empty());
}

#[test]
fn handlers_run_on_their_events_in_order() {
    let mut hs: Handlers<&str> = Handlers::new();
    hs.add_handler("render", &[Event::RefreshScreen]);
    hs.add_handler("input", &[Event::Start]);
    hs.add_handler("both", &[Event::Start, Event::RefreshScreen]);
    assert_eq!(hs.get_handlers(Event::Start), vec![&"input", &"both"]);
    assert_eq!(hs.get_handlers(Event::RefreshScreen), vec![&"render", &"both"]);
    assert!(hs.get_handlers(Event::End).is_empty());
}

#[test]
fn repeated_dependency_lists_handler_twice() {
    let mut hs: Handlers<u32> = Handlers::new();
    hs.add_handler(7, &[Event::End, Event::End]);
    hs.add_handler(8, &[]);
    assert_eq!(hs.get_handlers(Event::End), vec![&7, &7]);
    assert!(hs.get_handlers(Event::Start).is_empty());
}
