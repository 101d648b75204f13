use modkit::codec::event_to_json;
use modkit::model::{Event, EventKind};
use modkit::server::Registry;

// Unregistering twice, or unregistering an id that was never
// registered, never errors and leaves the registry unchanged.
#[test]
fn test_unregister_idempotent() {
    let mut registry = Registry::new();
    registry.register_client("alpha".to_string());

    let alpha = "alpha".to_string();
    registry.unregister(&alpha);
    registry.unregister(&alpha);

    let ghost_id = "never-registered".to_string();
    registry.unregister(&ghost_id);

    // The registry is still usable afterwards.
    registry.register_client("beta".to_string());
    let event = Event::new(EventKind::HealthCheck, None, None);
    // beta has no attached channel yet, so nothing is attempted.
    assert_eq!(registry.send_to_clients(&event), (0, 0));
}

// Three registered-and-attached clients each receive exactly one copy
// of the serialized event.
#[test]
fn test_broadcast_reaches_each_attached_client_once() {
    let mut registry = Registry::new();

    let (tx_a, mut rx_a) = tokio::sync::mpsc::unbounded_channel::<String>();
    let (tx_b, mut rx_b) = tokio::sync::mpsc::unbounded_channel::<String>();
    let (tx_c, mut rx_c) = tokio::sync::mpsc::unbounded_channel::<String>();

    registry.register_client("a".to_string());
    registry.register_client("b".to_string());
    registry.register_client("c".to_string());
    registry.attach("a".to_string(), tx_a);
    registry.attach("b".to_string(), tx_b);
    registry.attach("c".to_string(), tx_c);

    let event = Event::at(EventKind::MailDelivered, 42, None, None);
    let (attempted, reached) = registry.send_to_clients(&event);
    assert_eq!(attempted, 3);
    assert_eq!(reached, 3);

    let expected = event_to_json(&event);
    assert_eq!(rx_a.try_recv().unwrap(), expected);
    assert_eq!(rx_b.try_recv().unwrap(), expected);
    assert_eq!(rx_c.try_recv().unwrap(), expected);

    // Exactly one copy each.
    assert!(rx_a.try_recv().is_err());
    assert!(rx_b.try_recv().is_err());
    assert!(rx_c.try_recv().is_err());
}

// A client whose receiver is gone is skipped; the rest still get the
// event.
#[test]
fn test_broadcast_skips_disconnected_client() {
    let mut registry = Registry::new();

    let (tx_a, rx_a) = tokio::sync::mpsc::unbounded_channel::<String>();
    let (tx_b, mut rx_b) = tokio::sync::mpsc::unbounded_channel::<String>();

    registry.attach("gone".to_string(), tx_a);
    registry.attach("live".to_string(), tx_b);
    drop(rx_a);

    let event = Event::at(EventKind::DoorOpened, 7, None, None);
    let (attempted, reached) = registry.send_to_clients(&event);
    assert_eq!(attempted, 2);
    assert_eq!(reached, 1);
    assert_eq!(rx_b.try_recv().unwrap(), event_to_json(&event));
}

// Re-registering an id detaches its channel (the entry is overwritten).
#[test]
fn test_register_overwrites() {
    let mut registry = Registry::new();
    let (tx, mut rx) = tokio::sync::mpsc::unbounded_channel::<String>();
    registry.attach("a".to_string(), tx);
    registry.register_client("a".to_string());

    let event = Event::at(EventKind::MailPickedUp, 9, None, None);
    assert_eq!(registry.send_to_clients(&event), (0, 0));
    assert!(rx.try_recv().is_err());
}
