use technobabble::input::{Change, Events};

#[test]
fn input_starts_with_the_window_size_or_a_default() {
    let e: Events<u8> = Events::new(None);
    assert_eq!(e.window_size, (800, 600));
    assert_eq!(e.mouse_position, (0, 0));
    assert!(e.running);
    assert!(e.events.is_empty());
    assert!(e.key_down.is_empty());
    assert!(e.button_down.is_empty());
    let e: Events<u8> = Events::new(Some((1024, 768)));
    assert_eq!(e.window_size, (1024, 768));
}

#[test]
fn input_follows_the_events_of_a_frame() {
    let mut e: Events<&str> = Events::new(None);
    e.next_frame(vec![
        (Change::KeyPressed(30), "a down"),
        (Change::MouseMoved(5, -7), "move"),
        (Change::ButtonPressed(1), "left down"),
        (Change::Other, "focus"),
        (Change::Resized(640, 480), "resize"),
        (Change::KeyPressed(31), "s down"),
        (Change::KeyReleased(30), "a up"),
    ]);
    assert_eq!(
        e.events,
        vec!["a down", "move", "left down", "focus", "resize", "s down", "a up"]
    );
    assert_eq!(e.mouse_position, (5, -7));
    assert_eq!(e.window_size, (640, 480));
    assert!(!e.is_key_down(30));
    assert!(e.is_key_down(31));
    assert!(e.is_button_down(1));
    assert!(!e.is_button_down(2));
    assert!(e.running);

    e.next_frame(vec![(Change::ButtonReleased(1), "left up"), (Change::Closed, "closed")]);
    assert_eq!(e.events, vec!["left up", "closed"]);
    assert!(!e.is_button_down(1));
    assert!(e.is_key_down(31));
    assert!(!e.running);
    assert_eq!(e.mouse_position, (5, -7));

    e.next_frame(Vec::new());
    assert!(e.events.is_empty());
    assert!(e.is_key_down(31));
    assert!(!e.running);
}

#[test]
fn a_later_event_overrides_an_earlier_one() {
    let mut e: Events<u8> = Events::new(None);
    e.next_frame(vec![
        (Change::KeyPressed(7), 0),
        (Change::KeyReleased(7), 1),
        (Change::KeyPressed(7), 2),
        (Change::MouseMoved(1, 1), 3),
        (Change::MouseMoved(2, 2), 4),
    ]);
    assert!(e.is_key_down(7));
    assert_eq!(e.mouse_position, (2, 2));
    assert_eq!(e.events, vec![0, 1, 2, 3, 4]);
}
