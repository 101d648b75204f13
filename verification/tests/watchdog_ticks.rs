use modkit::drivers::{ContactSensor, ContactSensorSim};
use modkit::model::{Bundle, DeviceError, DeviceType, Event, EventKind};
use modkit::store::Store;
use modkit::watchdog::{camera_capture_event, watch_tick};

fn tick_events(store: &mut Store, sensor: &mut ContactSensor, reading: bool) -> (Option<Event>, Option<Event>) {
    let outcome = watch_tick(sensor, Ok(reading), store);
    if let Some(queued) = &outcome.queued {
        store.write_event(queued.clone()).unwrap();
    }
    (outcome.immediate, outcome.queued)
}

// A closed->open transition yields exactly one DoorOpened(true) event;
// the following open->closed transition yields exactly one
// DoorOpened(false) event and exactly one mail-status event.
#[test]
fn test_transition_events() {
    let mut store = Store::new();
    let mut sensor = ContactSensor::new();

    // closed -> open
    let (immediate, queued) = tick_events(&mut store, &mut sensor, true);
    let door = immediate.unwrap();
    assert_eq!(door.kind(), &EventKind::DoorOpened);
    assert_eq!(door.device_type(), Some(&DeviceType::ContactSensor));
    assert_eq!(door.data(), Some(&Bundle::ContactSensor { open: true }));
    assert!(queued.is_none());

    // open, unchanged: no events
    let (immediate, queued) = tick_events(&mut store, &mut sensor, true);
    assert!(immediate.is_none());
    assert!(queued.is_none());

    // open -> closed
    let (immediate, queued) = tick_events(&mut store, &mut sensor, false);
    let door = immediate.unwrap();
    assert_eq!(door.kind(), &EventKind::DoorOpened);
    assert_eq!(door.data(), Some(&Bundle::ContactSensor { open: false }));
    let mail = queued.unwrap();
    assert_eq!(mail.kind(), &EventKind::MailDelivered);
}

// Mail status alternates: the first close yields MailDelivered, the
// next close yields MailPickedUp, and so on.
#[test]
fn test_mail_status_alternation() {
    let mut store = Store::new();
    let mut sensor = ContactSensor::new();

    let mut expected = [
        EventKind::MailDelivered,
        EventKind::MailPickedUp,
        EventKind::MailDelivered,
        EventKind::MailPickedUp,
    ]
    .into_iter();

    for _ in 0..4 {
        tick_events(&mut store, &mut sensor, true);
        let (_, queued) = tick_events(&mut store, &mut sensor, false);
        assert_eq!(queued.unwrap().kind(), &expected.next().unwrap());
    }
}

// A failed sensor poll counts as no change: no events, state kept.
#[test]
fn test_poll_failure_is_no_change() {
    let store = Store::new();
    let mut sensor = ContactSensor::new();
    let outcome = watch_tick(
        &mut sensor,
        Err(DeviceError::GpioError("pin busy".to_string())),
        &store,
    );
    assert!(outcome.immediate.is_none());
    assert!(!outcome.capture);
    assert!(outcome.queued.is_none());
    assert!(!sensor.is_open());
}

// The door-open capture request: success queues a camera result event,
// failure queues nothing.
#[test]
fn test_camera_capture_event() {
    let ok = camera_capture_event(Ok(Bundle::Camera { file_name: "42.jpg".to_string() }));
    let event = ok.unwrap();
    assert_eq!(event.kind(), &EventKind::PollDeviceResult);
    assert_eq!(event.device_type(), Some(&DeviceType::Camera));
    assert_eq!(event.data(), Some(&Bundle::Camera { file_name: "42.jpg".to_string() }));

    let failed = camera_capture_event(Err(DeviceError::ImageError("no frame".to_string())));
    assert!(failed.is_none());
}

#[test]
fn test_contact_sensor_connection() {
    let cs = ContactSensorSim::new("Door Sensor");
    assert_eq!(cs.name(), "Door Sensor");
    assert_eq!(cs.connected(), Ok(()));
}

#[test]
fn test_sensor_sim_changed() {
    let mut cs = ContactSensorSim::new("Door Sensor");
    assert!(cs.state().is_none());

    // The first reading always counts as a change.
    assert_eq!(cs.changed(Bundle::ContactSensor { open: false }), Ok(true));
    assert_eq!(cs.changed(Bundle::ContactSensor { open: false }), Ok(false));
    assert_eq!(cs.changed(Bundle::ContactSensor { open: true }), Ok(true));
    assert_eq!(cs.state(), Some(&Bundle::ContactSensor { open: true }));
}

#[test]
fn test_contact_sensor_changed() {
    let mut cs = ContactSensor::new();
    assert_eq!(cs.changed(Ok(false)), Ok(false));
    assert_eq!(cs.changed(Ok(true)), Ok(true));
    assert_eq!(cs.changed(Ok(true)), Ok(false));
    assert!(cs.is_open());
    assert_eq!(cs.changed(Ok(false)), Ok(true));
    assert!(!cs.is_open());
}

// A queued event is broadcast to the attached subscribers and then
// appended to the store.
#[test]
fn test_dispatch_event() {
    let mut registry = modkit::server::Registry::new();
    let (tx, mut rx) = tokio::sync::mpsc::unbounded_channel::<String>();
    registry.attach("watcher".to_string(), tx);

    let mut store = Store::new();
    let event = Event::at(EventKind::MailDelivered, 5, None, None);
    assert!(modkit::watchdog::dispatch_event(&registry, &mut store, event.clone()).is_ok());

    assert_eq!(rx.try_recv().unwrap(), modkit::codec::event_to_json(&event));
    assert_eq!(store.get_all_events().unwrap(), vec![event]);

    // A history response is delivered but never persisted.
    let history = Event::at(
        EventKind::EventHistory,
        6,
        None,
        Some(Bundle::EventHistory { events: Vec::new() }),
    );
    assert!(modkit::watchdog::dispatch_event(&registry, &mut store, history).is_ok());
    assert!(rx.try_recv().is_ok());
    assert_eq!(store.get_all_events().unwrap().len(), 1);
}

// The request handlers that read the store: history wraps everything,
// and the mail status answers with the latest row itself.
#[test]
fn test_store_reading_handlers() {
    let mut store = Store::new();
    store
        .write_event(Event::at(EventKind::MailDelivered, 100, None, None))
        .unwrap();
    store
        .write_event(Event::at(EventKind::MailPickedUp, 200, None, None))
        .unwrap();
    store
        .write_event(Event::at(EventKind::MailDelivered, 300, None, None))
        .unwrap();

    let history = modkit::server::handle_event_history(&store);
    assert_eq!(history.kind(), &EventKind::EventHistory);
    match history.data() {
        Some(Bundle::EventHistory { events }) => assert_eq!(events.len(), 3),
        _ => assert!(false),
    }

    let status = modkit::server::handle_mail_status(&store);
    assert_eq!(status.kind(), &EventKind::MailDelivered);
    assert_eq!(status.timestamp(), 300);
}

#[test]
fn test_default_pins() {
    assert_eq!(modkit::defaults::light_gpio_pins(), [21, 22, 27, 17]);
    assert_eq!(modkit::defaults::contact_sensor_pin(), 18);
    assert_eq!(modkit::defaults::default_pin(), 6245);
}
