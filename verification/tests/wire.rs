use modkit::codec::{
    bundle_to_json, device_as_str, device_from_str, event_to_json, kind_as_str, kind_from_str,
    parse_bundle_str, parse_event_str,
};
use modkit::model::{Bundle, DeviceType, Event, EventKind};

// Serializing an event and parsing it back yields the same event.
#[test]
fn test_round_trip_simple_event() {
    let event = Event::at(EventKind::HealthCheck, 12345, None, None);
    let json = event_to_json(&event);
    assert_eq!(json, r#"{"kind":"HealthCheck","timestamp":12345,"device":null,"data":null}"#);
    assert_eq!(parse_event_str(&json), Some(event));
}

#[test]
fn test_round_trip_device_and_data() {
    let event = Event::at(
        EventKind::DoorOpened,
        77,
        Some(DeviceType::ContactSensor),
        Some(Bundle::ContactSensor { open: true }),
    );
    let json = event_to_json(&event);
    assert_eq!(
        json,
        r#"{"kind":"DoorOpened","timestamp":77,"device":"ContactSensor","data":{"ContactSensor":{"open":true}}}"#
    );
    assert_eq!(parse_event_str(&json), Some(event));
}

// Strings with quotes and backslashes survive the trip through escaping.
#[test]
fn test_round_trip_escaped_message() {
    let event = Event::at(
        EventKind::Error,
        1,
        None,
        Some(Bundle::Error { msg: "a \"quoted\" \\ path".to_string() }),
    );
    let json = event_to_json(&event);
    assert_eq!(parse_event_str(&json), Some(event));
}

// A history response nests whole events and still round-trips.
#[test]
fn test_round_trip_nested_history() {
    let inner = vec![
        Event::at(EventKind::MailDelivered, 100, None, None),
        Event::at(
            EventKind::PollDeviceResult,
            200,
            Some(DeviceType::Camera),
            Some(Bundle::Camera { file_name: "123.jpg".to_string() }),
        ),
    ];
    let event = Event::at(
        EventKind::EventHistory,
        300,
        None,
        Some(Bundle::EventHistory { events: inner }),
    );
    let json = event_to_json(&event);
    assert_eq!(parse_event_str(&json), Some(event));
}

#[test]
fn test_round_trip_pin_bundles() {
    let check = Event::at(EventKind::PinCheck, 5, None, Some(Bundle::PinCheck { pin: 6245 }));
    let result = Event::at(
        EventKind::PinResult,
        6,
        None,
        Some(Bundle::PinResult { authorized: false }),
    );
    assert_eq!(parse_event_str(&event_to_json(&check)), Some(check));
    assert_eq!(parse_event_str(&event_to_json(&result)), Some(result));
    assert_eq!(
        event_to_json(&Event::at(EventKind::PinResult, 0, None, Some(Bundle::PinResult { authorized: true }))),
        r#"{"kind":"PinResult","timestamp":0,"device":null,"data":{"PinResult":{"authorized":true}}}"#
    );
}

#[test]
fn test_parse_rejects_malformed() {
    assert_eq!(parse_event_str(""), None);
    assert_eq!(parse_event_str("{}"), None);
    assert_eq!(parse_event_str(r#"{"kind":"NoSuchKind"}"#), None);
    assert_eq!(parse_event_str(r#"{"kind":"HealthCheck""#), None);
    assert_eq!(parse_event_str(r#"{"kind":"HealthCheck"}trailing"#), None);
    assert_eq!(parse_event_str(r#"{"kind":"HealthCheck","timestamp":99999999999}"#), None);
}

// Device tags round-trip exactly through their string form.
#[test]
fn test_device_strings_round_trip() {
    for device in [DeviceType::Camera, DeviceType::Light, DeviceType::ContactSensor] {
        let s = device_as_str(&device);
        assert_eq!(device_from_str(s), Some(device));
    }
    assert_eq!(device_as_str(&DeviceType::ContactSensor), "ContactSensor");
    assert_eq!(device_from_str("contactsensor"), None);
    assert_eq!(device_from_str("Cameras"), None);
}

// Kind names round-trip exactly through their string form.
#[test]
fn test_kind_strings_round_trip() {
    let kinds = [
        EventKind::HealthCheck,
        EventKind::PollDevice,
        EventKind::EventHistory,
        EventKind::MailStatus,
        EventKind::PinCheck,
        EventKind::MailDelivered,
        EventKind::MailPickedUp,
        EventKind::DoorOpened,
        EventKind::PollDeviceResult,
        EventKind::PinResult,
        EventKind::Error,
    ];
    for kind in kinds {
        let s = kind_as_str(&kind);
        assert_eq!(kind_from_str(s), Some(kind));
    }
    assert_eq!(kind_from_str("mailstatus"), None);
}

// A bundle alone (the stored row's data column) round-trips too.
#[test]
fn test_bundle_round_trip() {
    let bundle = Bundle::Light { on: false };
    let json = bundle_to_json(&bundle);
    assert_eq!(json, r#"{"Light":{"on":false}}"#);
    assert_eq!(parse_bundle_str(&json), Some(bundle));
    assert_eq!(parse_bundle_str("{}"), None);
}
