use pincer_chat::notification::{DatabaseNotifier, DatabaseNotifierMessage, LISTENER_CAPACITY};

fn delta(s: &str) -> DatabaseNotifierMessage {
    DatabaseNotifierMessage::UpdateMessage(String::from(s))
}

fn texts(events: &[DatabaseNotifierMessage]) -> Vec<String> {
    events
        .iter()
        .map(|e| match e {
            DatabaseNotifierMessage::UpdateMessage(s) => s.clone(),
            _ => String::from("?"),
        })
        .collect()
}

#[test]
fn every_listener_receives_every_later_event_in_order() {
    let mut notifier = DatabaseNotifier::new();
    let first = notifier.subscribe();
    let second = notifier.subscribe();
    assert!(notifier.notify(delta("e1")));
    let late = notifier.subscribe();
    assert!(notifier.notify(delta("e2")));
    assert!(notifier.notify(delta("e3")));
    assert_eq!(texts(&notifier.receive(first)), vec!["e1", "e2", "e3"]);
    assert_eq!(texts(&notifier.receive(second)), vec!["e1", "e2", "e3"]);
    assert_eq!(texts(&notifier.receive(late)), vec!["e2", "e3"]);
    assert_eq!(notifier.receive(first).len(), 0);
}

#[test]
fn an_event_without_listeners_is_dropped() {
    let mut notifier = DatabaseNotifier::new();
    assert!(!notifier.notify(delta("nobody")));
    let id = notifier.subscribe();
    assert_eq!(notifier.receive(id).len(), 0);
    notifier.unsubscribe(id);
    assert!(!notifier.notify(delta("gone")));
    assert_eq!(notifier.receive(99).len(), 0);
}

#[test]
fn a_full_queue_drops_further_events_without_blocking_others() {
    let mut notifier = DatabaseNotifier::new();
    let slow = notifier.subscribe();
    for i in 0..LISTENER_CAPACITY {
        assert!(notifier.notify(delta(&i.to_string())));
    }
    let fresh = notifier.subscribe();
    assert!(notifier.notify(delta("overflow")));
    let slow_events = notifier.receive(slow);
    assert_eq!(slow_events.len(), LISTENER_CAPACITY);
    assert_eq!(texts(&slow_events)[0], "0");
    assert_eq!(texts(&notifier.receive(fresh)), vec!["overflow"]);
}
