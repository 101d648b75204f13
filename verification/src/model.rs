//! The event data model: event kinds with their incoming/outgoing
//! classification, device tags, data bundles, and the `Event` record that
//! every other component exchanges.

use vstd::prelude::*;

verus! {

/// The device a reading or a poll request refers to.
#[derive(Debug, Clone, Copy, PartialEq, Eq, Structural)]
pub enum DeviceType {
    Camera,
    Light,
    ContactSensor,
}

/// The kind of an event. Each kind is either client-originated (incoming)
/// or server-originated (outgoing), never both; see [`EventKind::is_outgoing`].
#[derive(Debug, Clone, Copy, PartialEq, Eq, Structural)]
pub enum EventKind {
    // Incoming events
    HealthCheck,
    PollDevice,
    EventHistory,
    MailStatus,
    PinCheck,
    // Outgoing events
    MailDelivered,
    MailPickedUp,
    DoorOpened,
    PollDeviceResult,
    PinResult,
    Error,
}

/// A bundle of data attached to an event, one shape per device or result kind.
#[derive(Debug, PartialEq)]
pub enum Bundle {
    /// The data from a contact sensor: open or closed.
    ContactSensor { open: bool },
    Error { msg: String },
    Camera { file_name: String },
    Light { on: bool },
    EventHistory { events: Vec<Event> },
    PinCheck { pin: u16 },
    PinResult { authorized: bool },
}

/// An event: the atomic unit of notification, request and response.
#[derive(Debug, PartialEq)]
pub struct Event {
    /// The event type.
    pub kind: EventKind,
    /// Seconds since the epoch, stamped by the server at creation; a
    /// client-supplied timestamp is never trusted (see `populate_timestamp`).
    pub timestamp: u32,
    /// Which device this event references, if any.
    pub device: Option<DeviceType>,
    /// The optional data bundle being sent.
    pub data: Option<Bundle>,
}

/// Errors raised by the physical device capabilities. The core treats all
/// of them uniformly: log and continue, or wrap as an Error event.
#[derive(Debug, PartialEq)]
pub enum DeviceError {
    NoConnection(String),
    CommunicationError(String),
    DeviceNotFound(Option<DeviceType>),
    GpioError(String),
    ImageError(String),
    IoError(String),
}

/// The mathematical model of a [`Bundle`]: strings become character
/// sequences and event lists become sequences of event models.
#[verifier::ext_equal]
pub enum BundleV {
    ContactSensor { open: bool },
    Error { msg: Seq<char> },
    Camera { file_name: Seq<char> },
    Light { on: bool },
    EventHistory { events: Seq<EventV> },
    PinCheck { pin: u16 },
    PinResult { authorized: bool },
}

/// The mathematical model of an [`Event`].
#[verifier::ext_equal]
pub struct EventV {
    pub kind: EventKind,
    pub timestamp: u32,
    pub device: Option<DeviceType>,
    pub data: Option<BundleV>,
}

pub open spec fn bundle_dv(b: Bundle) -> BundleV
    decreases b,
{
    match b {
        Bundle::ContactSensor { open } => BundleV::ContactSensor { open },
        Bundle::Error { msg } => BundleV::Error { msg: msg@ },
        Bundle::Camera { file_name } => BundleV::Camera { file_name: file_name@ },
        Bundle::Light { on } => BundleV::Light { on },
        Bundle::EventHistory { events } => BundleV::EventHistory {
            events: Seq::new(
                events@.len(),
                |i: int|
                    if 0 <= i < events@.len() {
                        event_dv(events@[i])
                    } else {
                        EventV { kind: EventKind::Error, timestamp: 0, device: None, data: None }
                    },
            ),
        },
        Bundle::PinCheck { pin } => BundleV::PinCheck { pin },
        Bundle::PinResult { authorized } => BundleV::PinResult { authorized },
    }
}

pub open spec fn event_dv(e: Event) -> EventV
    decreases e,
{
    EventV {
        kind: e.kind,
        timestamp: e.timestamp,
        device: e.device,
        data: match e.data {
            Some(b) => Some(bundle_dv(b)),
            None => None,
        },
    }
}

impl DeepView for Bundle {
    type V = BundleV;

    open spec fn deep_view(&self) -> BundleV {
        bundle_dv(*self)
    }
}

impl DeepView for Event {
    type V = EventV;

    open spec fn deep_view(&self) -> EventV {
        event_dv(*self)
    }
}

pub open spec fn spec_is_outgoing(kind: EventKind) -> bool {
    match kind {
        // Incoming events
        EventKind::HealthCheck => false,
        EventKind::PollDevice => false,
        EventKind::EventHistory => false,
        EventKind::MailStatus => false,
        EventKind::PinCheck => false,
        // Outgoing events
        EventKind::MailDelivered => true,
        EventKind::MailPickedUp => true,
        EventKind::DoorOpened => true,
        EventKind::PollDeviceResult => true,
        EventKind::PinResult => true,
        EventKind::Error => true,
    }
}

impl EventKind {
    /// Whether this kind is server-originated. Every member is classified
    /// explicitly: no wildcard, so a new kind cannot be missed silently.
    pub fn is_outgoing(&self) -> (outgoing: bool)
        ensures
            outgoing == spec_is_outgoing(*self),
    {
        match self {
            // Incoming events
            Self::HealthCheck => false,
            Self::PollDevice => false,
            Self::EventHistory => false,
            Self::MailStatus => false,
            Self::PinCheck => false,
            // Outgoing events
            Self::MailDelivered => true,
            Self::MailPickedUp => true,
            Self::DoorOpened => true,
            Self::PollDeviceResult => true,
            Self::PinResult => true,
            Self::Error => true,
        }
    }
}

/// Reads the wall clock as whole seconds since the epoch.
///
/// Relies on std::time::SystemTime::now, measured against
/// std::time::UNIX_EPOCH; a clock set before the epoch yields 0 rather
/// than a panic. No postcondition: the result depends on the clock.
#[verifier::external_body]
pub(crate) fn now_secs() -> u32 {
    match std::time::SystemTime::now().duration_since(std::time::UNIX_EPOCH) {
        Ok(d) => d.as_secs() as u32,
        Err(_) => 0,
    }
}

impl Bundle {
    /// An error bundle carrying a human-readable message.
    pub fn error(msg: &str) -> (bundle: Bundle)
        ensures
            bundle matches Bundle::Error { msg: m } && m@ == msg@,
    {
        Bundle::Error { msg: msg.to_owned() }
    }
}

impl Clone for Bundle {
    /// A clone carries exactly the same modelled contents.
    fn clone(&self) -> (res: Self)
        ensures
            res.deep_view() == self.deep_view(),
        decreases *self,
    {
        match self {
            Bundle::ContactSensor { open } => Bundle::ContactSensor { open: *open },
            Bundle::Error { msg } => Bundle::Error { msg: msg.clone() },
            Bundle::Camera { file_name } => Bundle::Camera { file_name: file_name.clone() },
            Bundle::Light { on } => Bundle::Light { on: *on },
            Bundle::EventHistory { events } => {
                let mut copies: Vec<Event> = Vec::new();
                let mut i: usize = 0;
                while i < events.len()
                    invariant
                        i <= events@.len(),
                        copies@.len() == i,
                        forall|k: int| 0 <= k < i ==> #[trigger] event_dv(copies@[k]) == event_dv(events@[k]),
                        *self matches Bundle::EventHistory { events: evs } && evs == events,
                    decreases events@.len() - i,
                {
                    copies.push(events[i].clone());
                    i = i + 1;
                }
                let res = Bundle::EventHistory { events: copies };
                proof {
                    assert(copies@.len() == events@.len());
                    assert forall|k: int| 0 <= k < events@.len() implies bundle_dv(res)->EventHistory_events[k]
                        == bundle_dv(*self)->EventHistory_events[k] by {
                        assert(event_dv(copies@[k]) == event_dv(events@[k]));
                    };
                    assert(bundle_dv(res)->EventHistory_events =~= bundle_dv(*self)->EventHistory_events);
                    assert(bundle_dv(res) =~= bundle_dv(*self));
                }
                res
            },
            Bundle::PinCheck { pin } => Bundle::PinCheck { pin: *pin },
            Bundle::PinResult { authorized } => Bundle::PinResult { authorized: *authorized },
        }
    }
}

impl Clone for Event {
    /// A clone carries exactly the same modelled contents.
    fn clone(&self) -> (res: Self)
        ensures
            res.deep_view() == self.deep_view(),
        decreases *self,
    {
        Event {
            kind: self.kind,
            timestamp: self.timestamp,
            device: self.device,
            data: match &self.data {
                Some(bundle) => Some(bundle.clone()),
                None => None,
            },
        }
    }
}

impl Event {
    /// Builds an event stamped with the current time. There is no way to
    /// construct an event through this entry point with a client-controlled
    /// timestamp.
    pub fn new(kind: EventKind, device: Option<DeviceType>, data: Option<Bundle>) -> (event: Event)
        ensures
            event.kind == kind,
            event.device == device,
            event.data == data,
    {
        let timestamp: u32 = now_secs();
        Event { kind, timestamp, device, data }
    }

    /// Builds an event with an explicit timestamp; used when replaying
    /// rows read back from the store.
    pub fn at(kind: EventKind, timestamp: u32, device: Option<DeviceType>, data: Option<Bundle>) -> (event: Event)
        ensures
            event == (Event { kind, timestamp, device, data }),
    {
        Event { kind, timestamp, device, data }
    }

    /// A freshly stamped Error event carrying the given message.
    pub fn error(msg: &str) -> (event: Event)
        ensures
            event.kind == EventKind::Error,
            event.device is None,
            event.data matches Some(Bundle::Error { msg: m }) && m@ == msg@,
    {
        Event::new(EventKind::Error, None, Some(Bundle::error(msg)))
    }

    pub fn kind(&self) -> (kind: &EventKind)
        ensures
            *kind == self.kind,
    {
        &self.kind
    }

    pub fn timestamp(&self) -> (timestamp: u32)
        ensures
            timestamp == self.timestamp,
    {
        self.timestamp
    }

    pub fn device_type(&self) -> (device: Option<&DeviceType>)
        ensures
            device is Some <==> self.device is Some,
            device matches Some(d) ==> self.device matches Some(dev) && *d == dev,
    {
        self.device.as_ref()
    }

    pub fn data(&self) -> (data: Option<&Bundle>)
        ensures
            data is Some <==> self.data is Some,
            data matches Some(b) ==> self.data matches Some(bundle) && *b == bundle,
    {
        self.data.as_ref()
    }

    /// Overwrites the timestamp with the current server time. Called on
    /// every inbound event, so a client-supplied timestamp never survives.
    pub fn populate_timestamp(&mut self)
        ensures
            final(self).kind == old(self).kind,
            final(self).device == old(self).device,
            final(self).data == old(self).data,
    {
        self.timestamp = now_secs();
    }

    /// Applies the outcome of polling this event's device: the device
    /// capability is external, so its result is handed in. With no device
    /// tag the poll is rejected; on success the bundle is recorded on the
    /// event and returned.
    pub fn poll_device(&mut self, outcome: Result<Bundle, DeviceError>) -> (res: Result<Bundle, DeviceError>)
        ensures
            old(self).device is None ==> {
                &&& res == Result::<Bundle, DeviceError>::Err(DeviceError::DeviceNotFound(None))
                &&& *final(self) == *old(self)
            },
            old(self).device is Some ==> match outcome {
                Ok(bundle) => {
                    &&& res matches Ok(b) && b.deep_view() == bundle.deep_view()
                    &&& *final(self) == (Event { data: Some(bundle), ..*old(self) })
                },
                Err(e) => {
                    &&& res == Result::<Bundle, DeviceError>::Err(e)
                    &&& *final(self) == *old(self)
                },
            },
    {
        if self.device.is_none() {
            return Err(DeviceError::DeviceNotFound(None));
        }
        match outcome {
            Ok(bundle) => {
                let copy = bundle.clone();
                self.data = Some(bundle);
                Ok(copy)
            },
            Err(e) => Err(e),
        }
    }
}

impl DeviceError {
    /// A human-readable description; the counterpart of rendering the
    /// error for a client-facing Error event.
    pub fn message(&self) -> (msg: String)
        ensures
            msg@ == spec_device_error_message(*self),
    {
        match self {
            DeviceError::NoConnection(s) => String::from_str("No device connected: ").concat(s.as_str()),
            DeviceError::CommunicationError(s) => String::from_str("Communication error: ").concat(s.as_str()),
            DeviceError::DeviceNotFound(_) => String::from_str("Not a valid device type"),
            DeviceError::GpioError(s) => String::from_str("GPIO Error: ").concat(s.as_str()),
            DeviceError::ImageError(s) => String::from_str("Image error: ").concat(s.as_str()),
            DeviceError::IoError(s) => String::from_str("IO error: ").concat(s.as_str()),
        }
    }

    /// Wraps the error as a freshly stamped Error event.
    pub fn to_event(&self) -> (event: Event)
        ensures
            event.kind == EventKind::Error,
            event.device is None,
            event.data matches Some(Bundle::Error { msg: m }) && m@ == spec_device_error_message(*self),
    {
        let msg = self.message();
        Event::new(EventKind::Error, None, Some(Bundle::Error { msg }))
    }
}

/// Structural equality of two bundles, decided at run time: true exactly
/// when the modelled contents agree.
pub fn bundle_eq(a: &Bundle, b: &Bundle) -> (r: bool)
    ensures
        r == (a.deep_view() == b.deep_view()),
    decreases *a,
{
    match (a, b) {
        (Bundle::ContactSensor { open: x }, Bundle::ContactSensor { open: y }) => x == y,
        (Bundle::Error { msg: x }, Bundle::Error { msg: y }) => x.eq(y),
        (Bundle::Camera { file_name: x }, Bundle::Camera { file_name: y }) => x.eq(y),
        (Bundle::Light { on: x }, Bundle::Light { on: y }) => x == y,
        (Bundle::EventHistory { events: xs }, Bundle::EventHistory { events: ys }) => {
            if xs.len() != ys.len() {
                proof {
                    assert(a.deep_view()->EventHistory_events.len() != b.deep_view()->EventHistory_events.len());
                }
                return false;
            }
            let mut i: usize = 0;
            while i < xs.len()
                invariant
                    i <= xs@.len(),
                    xs@.len() == ys@.len(),
                    forall|k: int| 0 <= k < i ==> #[trigger] event_dv(xs@[k]) == event_dv(ys@[k]),
                    *a matches Bundle::EventHistory { events: av } && av == xs,
                    *b matches Bundle::EventHistory { events: bv } && bv == ys,
                decreases xs@.len() - i,
            {
                if !event_eq(&xs[i], &ys[i]) {
                    proof {
                        assert(a.deep_view()->EventHistory_events[i as int]
                            != b.deep_view()->EventHistory_events[i as int]);
                    }
                    return false;
                }
                i = i + 1;
            }
            proof {
                assert forall|k: int| 0 <= k < xs@.len() implies a.deep_view()->EventHistory_events[k]
                    == b.deep_view()->EventHistory_events[k] by {
                    assert(event_dv(xs@[k]) == event_dv(ys@[k]));
                }
                assert(a.deep_view()->EventHistory_events =~= b.deep_view()->EventHistory_events);
                assert(a.deep_view() =~= b.deep_view());
            }
            true
        },
        (Bundle::PinCheck { pin: x }, Bundle::PinCheck { pin: y }) => x == y,
        (Bundle::PinResult { authorized: x }, Bundle::PinResult { authorized: y }) => x == y,
        _ => false,
    }
}

/// Structural equality of two events, decided at run time: true exactly
/// when the modelled contents agree.
pub fn event_eq(a: &Event, b: &Event) -> (r: bool)
    ensures
        r == (a.deep_view() == b.deep_view()),
    decreases *a,
{
    if a.kind != b.kind {
        return false;
    }
    if a.timestamp != b.timestamp {
        return false;
    }
    let device_same = match (&a.device, &b.device) {
        (None, None) => true,
        (Some(x), Some(y)) => *x == *y,
        _ => false,
    };
    if !device_same {
        return false;
    }
    match (&a.data, &b.data) {
        (None, None) => true,
        (Some(x), Some(y)) => bundle_eq(x, y),
        _ => false,
    }
}

pub open spec fn spec_device_error_message(e: DeviceError) -> Seq<char> {
    match e {
        DeviceError::NoConnection(s) => "No device connected: "@ + s@,
        DeviceError::CommunicationError(s) => "Communication error: "@ + s@,
        DeviceError::DeviceNotFound(_) => "Not a valid device type"@,
        DeviceError::GpioError(s) => "GPIO Error: "@ + s@,
        DeviceError::ImageError(s) => "Image error: "@ + s@,
        DeviceError::IoError(s) => "IO error: "@ + s@,
    }
}

} // verus!
