use modkit::model::{Bundle, DeviceType, Event, EventKind};

#[test]
fn test_contact_sensor_bundle() {
    let bundle = Bundle::ContactSensor { open: true };
    match bundle {
        Bundle::ContactSensor { open: is_opened } => assert_eq!(is_opened, true),
        _ => assert!(false),
    }
}

#[test]
fn test_build_event() {
    let event = Event::new(EventKind::HealthCheck, Some(DeviceType::Camera), None);
    assert_eq!(event.kind(), &EventKind::HealthCheck);
    assert_eq!(event.device_type().unwrap(), &DeviceType::Camera);
    assert_eq!(event.data(), None);
}

#[test]
fn event_test_build_event() {
    let event = Event::new(EventKind::HealthCheck, Some(DeviceType::Camera), None);
    assert_eq!(event.kind(), &EventKind::HealthCheck);
    assert_eq!(event.device_type().unwrap(), &DeviceType::Camera);
    assert_eq!(event.data(), None);
}

#[test]
fn test_de_serialize() {
    let events = vec![
        r#"{"kind":"HealthCheck","timestamp":12345}"#.to_string(),
        r#"{"kind":"MailDelivered","timestamp":12345}"#.to_string(),
        r#"{"kind":"MailPickedUp","timestamp":12345}"#.to_string(),
        r#"{"kind":"DoorOpened","timestamp":12345}"#.to_string(),
    ];
    for e_string in events {
        assert!(modkit::codec::parse_event_str(&e_string).is_some());
    }
}

#[test]
fn test_event_is_kind_incoming_outgoing() {
    assert!(EventKind::MailDelivered.is_outgoing());
    assert!(EventKind::MailPickedUp.is_outgoing());
    assert!(EventKind::Error.is_outgoing());
    assert!(EventKind::DoorOpened.is_outgoing());
    assert!(EventKind::PollDeviceResult.is_outgoing());

    assert!(!EventKind::PollDevice.is_outgoing());
    assert!(!EventKind::HealthCheck.is_outgoing());
}

#[test]
fn test_event_is_incoming_outgoing() {
    assert!(Event::new(EventKind::DoorOpened, None, None)
        .kind()
        .is_outgoing());

    assert!(!Event::new(EventKind::PollDevice, None, None)
        .kind()
        .is_outgoing());
}

#[test]
fn test_event_error_constructor() {
    let event = Event::error("something broke");
    assert_eq!(event.kind(), &EventKind::Error);
    assert!(event.device_type().is_none());
    match event.data() {
        Some(Bundle::Error { msg }) => assert_eq!(msg, "something broke"),
        _ => assert!(false),
    }
}

#[test]
fn test_populate_timestamp_keeps_contents() {
    let mut event = Event::at(EventKind::PinCheck, 0, None, Some(Bundle::PinCheck { pin: 1 }));
    event.populate_timestamp();
    assert_eq!(event.kind(), &EventKind::PinCheck);
    assert_eq!(event.data(), Some(&Bundle::PinCheck { pin: 1 }));
}

#[test]
fn test_event_clone_equal() {
    let event = Event::at(
        EventKind::EventHistory,
        7,
        None,
        Some(Bundle::EventHistory {
            events: vec![Event::at(EventKind::MailDelivered, 3, None, None)],
        }),
    );
    assert_eq!(event.clone(), event);
}
