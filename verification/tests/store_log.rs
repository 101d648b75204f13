use modkit::model::{Bundle, DeviceType, Event, EventKind};
use modkit::store::{Store, StoreError};

// An empty store reports MailStatusNotFound, not a panic and not a
// default value.
#[test]
fn test_mail_status_empty_store() {
    let store = Store::new();
    assert_eq!(store.get_mail_status(), Err(StoreError::MailStatusNotFound));
}

// The most recent mail-status row by timestamp wins.
#[test]
fn test_mail_status_latest_row() {
    let mut store = Store::new();
    store
        .write_event(Event::at(EventKind::MailDelivered, 100, None, None))
        .unwrap();
    store
        .write_event(Event::at(EventKind::MailPickedUp, 200, None, None))
        .unwrap();
    store
        .write_event(Event::at(EventKind::MailDelivered, 300, None, None))
        .unwrap();

    let latest = store.get_mail_status().unwrap();
    assert_eq!(latest.kind(), &EventKind::MailDelivered);
    assert_eq!(latest.timestamp(), 300);
}

// Rows that are not mail-status rows never influence the mail status.
#[test]
fn test_mail_status_ignores_other_kinds() {
    let mut store = Store::new();
    store
        .write_event(Event::at(EventKind::MailDelivered, 100, None, None))
        .unwrap();
    store
        .write_event(Event::at(
            EventKind::DoorOpened,
            900,
            Some(DeviceType::ContactSensor),
            Some(Bundle::ContactSensor { open: true }),
        ))
        .unwrap();

    let latest = store.get_mail_status().unwrap();
    assert_eq!(latest.kind(), &EventKind::MailDelivered);
    assert_eq!(latest.timestamp(), 100);
}

// Writing an EventHistory-kind event adds zero rows.
#[test]
fn test_write_event_skips_history() {
    let mut store = Store::new();
    let history = Event::at(
        EventKind::EventHistory,
        50,
        None,
        Some(Bundle::EventHistory { events: Vec::new() }),
    );
    assert_eq!(store.write_event(history), Ok(()));
    assert_eq!(store.get_all_events().unwrap().len(), 0);
}

#[test]
fn test_get_all_events_round() {
    let mut store = Store::new();
    assert_eq!(store.get_all_events().unwrap().len(), 0);

    let event = Event::at(
        EventKind::DoorOpened,
        123456,
        Some(DeviceType::ContactSensor),
        Some(Bundle::ContactSensor { open: true }),
    );
    store.write_event(event.clone()).unwrap();

    let events = store.get_all_events().unwrap();
    assert_eq!(events.len(), 1);
    assert_eq!(events[0], event);
}

#[test]
fn test_get_latest_mail_status_alternating_writes() {
    let mut store = Store::new();
    let events = vec![
        Event::at(EventKind::MailDelivered, 1, None, None),
        Event::at(EventKind::MailPickedUp, 2, None, None),
        Event::at(EventKind::MailDelivered, 3, None, None),
        Event::at(EventKind::MailPickedUp, 4, None, None),
    ];
    for e in events {
        store.write_event(e).unwrap();
    }

    let latest = store.get_mail_status();
    assert!(latest.is_ok());
    assert_eq!(latest.unwrap().kind(), &EventKind::MailPickedUp);

    store.nuke().unwrap();
    assert!(store.get_mail_status().is_err());
}

#[test]
fn test_store_error_messages() {
    assert!(StoreError::MailStatusNotFound
        .message()
        .contains("could not be found"));
    assert_eq!(
        StoreError::ConnectionError("boom".to_string()).message(),
        "Database error: boom"
    );
    assert_eq!(
        StoreError::DecodeError("bad row".to_string()).message(),
        "Could not decode value from database: bad row"
    );
}
