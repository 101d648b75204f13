//! The watchdog state machine: each polling tick compares the sensor
//! reading against the last known door state, emits a DoorOpened
//! notification on every transition, requests a capture when the door
//! opens, and derives the alternating mail-status event when it closes.
//!
//! The surrounding process runs the loop: it polls the sensor, performs
//! the capture, sleeps between ticks, and feeds the outcomes back in.

use vstd::prelude::*;

use crate::drivers::ContactSensor;
use crate::model::{Bundle, DeviceError, DeviceType, Event, EventKind, EventV};
use crate::server::Registry;
use crate::store::{is_mail_kind, spec_mail_status, Store, StoreError};

verus! {

/// The mail-status kind the next door close derives: alternating against
/// the latest stored mail-status event, seeded with MailDelivered when
/// the store holds none.
pub open spec fn next_mail_kind(status: Option<EventV>) -> EventKind {
    match status {
        Some(s) => if s.kind == EventKind::MailDelivered {
            EventKind::MailPickedUp
        } else {
            EventKind::MailDelivered
        },
        None => EventKind::MailDelivered,
    }
}

/// What one polling tick decided.
pub struct TickOutcome {
    /// The DoorOpened notification to broadcast immediately, before any
    /// capture or persistence work; present exactly when the door state
    /// changed.
    pub immediate: Option<Event>,
    /// Whether a video capture should be started (the door just opened).
    pub capture: bool,
    /// The derived mail-status event to queue (the door just closed).
    pub queued: Option<Event>,
}

/// One tick of the watchdog: applies the sensor reading and decides what
/// to emit. A poll failure counts as "no change detected". A
/// `closed -> open` transition yields exactly one DoorOpened(open=true)
/// notification and a capture request; an `open -> closed` transition
/// yields exactly one DoorOpened(open=false) notification and exactly one
/// mail-status event, alternating against the stored history.
pub fn watch_tick(sensor: &mut ContactSensor, reading: Result<bool, DeviceError>, store: &Store) -> (outcome: TickOutcome)
    ensures
        match reading {
            Err(_) => {
                &&& *final(sensor) == *old(sensor)
                &&& outcome.immediate is None
                &&& !outcome.capture
                &&& outcome.queued is None
            },
            Ok(open) => {
                &&& final(sensor).spec_open() == open
                &&& open == old(sensor).spec_open() ==> {
                    &&& outcome.immediate is None
                    &&& !outcome.capture
                    &&& outcome.queued is None
                }
                &&& open != old(sensor).spec_open() ==> {
                    &&& outcome.immediate matches Some(e) && door_opened_event(e, open)
                    &&& outcome.capture == open
                    &&& if open {
                        outcome.queued is None
                    } else {
                        outcome.queued matches Some(m) && mail_status_event(m, spec_mail_status(store@))
                    }
                }
            },
        },
{
    let changed = match sensor.changed(reading) {
        Ok(changed) => changed,
        Err(_) => {
            return TickOutcome { immediate: None, capture: false, queued: None };
        },
    };
    if !changed {
        return TickOutcome { immediate: None, capture: false, queued: None };
    }
    let is_open = sensor.is_open();

    // We always send an event when the door opens or closes. Clients
    // don't have to do anything with it, but it's there.
    let opened_event = Event::new(
        EventKind::DoorOpened,
        Some(DeviceType::ContactSensor),
        Some(Bundle::ContactSensor { open: is_open }),
    );

    if is_open {
        // The door just opened: notify first, then let the caller start
        // the (blocking) video capture.
        TickOutcome { immediate: Some(opened_event), capture: true, queued: None }
    } else {
        // The door changed to closed (someone opened the box and closed
        // it again): derive the alternating mail status from history.
        let mail_kind = match store.get_mail_status() {
            Ok(status) => match status.kind {
                EventKind::MailDelivered => EventKind::MailPickedUp,
                _ => EventKind::MailDelivered,
            },
            Err(_) => EventKind::MailDelivered,
        };
        let mail_event = Event::new(mail_kind, None, None);
        TickOutcome { immediate: Some(opened_event), capture: false, queued: Some(mail_event) }
    }
}

/// The shape of a DoorOpened notification for the given door state.
pub open spec fn door_opened_event(e: Event, open: bool) -> bool {
    &&& e.kind == EventKind::DoorOpened
    &&& e.device == Some(DeviceType::ContactSensor)
    &&& e.data == Some(Bundle::ContactSensor { open })
}

/// The shape of the derived mail-status event for the given history.
pub open spec fn mail_status_event(m: Event, status: Option<EventV>) -> bool {
    &&& m.kind == next_mail_kind(status)
    &&& m.device is None
    &&& m.data is None
}

/// Wraps the outcome of the door-open video capture: a successful capture
/// becomes a PollDeviceResult event for the camera, and a capture failure
/// yields no event at all — it must not abort the tick or retract the
/// DoorOpened notification that already went out.
pub fn camera_capture_event(outcome: Result<Bundle, DeviceError>) -> (event: Option<Event>)
    ensures
        match outcome {
            Ok(bundle) => event matches Some(e) && {
                &&& e.kind == EventKind::PollDeviceResult
                &&& e.device == Some(DeviceType::Camera)
                &&& e.data == Some(bundle)
            },
            Err(_) => event is None,
        },
{
    match outcome {
        Ok(bundle) => Some(Event::new(
            EventKind::PollDeviceResult,
            Some(DeviceType::Camera),
            Some(bundle),
        )),
        Err(_) => None,
    }
}

/// Delivers one queued event: broadcast to every attached subscriber
/// first, then append to the store — delivery is never gated on
/// persistence.
pub fn dispatch_event(registry: &Registry, store: &mut Store, event: Event) -> (res: Result<(), StoreError>)
    requires
        registry.wf(),
    ensures
        res is Ok,
        event.kind == EventKind::EventHistory ==> final(store)@ == old(store)@,
        event.kind != EventKind::EventHistory ==> final(store)@ == old(store)@.push(event.deep_view()),
{
    let _counts = registry.send_to_clients(&event);
    store.write_event(event)
}

/// Recording the event that a door close derived leaves it as the
/// store's latest mail status, so the following close derives the other
/// status: MailDelivered and MailPickedUp alternate. The derived event
/// must not be stamped earlier than the mail-status row it alternated
/// against.
pub proof fn lemma_mail_status_alternates(log: Seq<EventV>, m: EventV)
    requires
        m.kind == next_mail_kind(spec_mail_status(log)),
        m.device is None,
        m.data is None,
        spec_mail_status(log) matches Some(s) ==> s.timestamp <= m.timestamp,
    ensures
        spec_mail_status(log.push(m)) == Some(m),
        next_mail_kind(spec_mail_status(log.push(m))) != m.kind,
        spec_mail_status(log) is None ==> m.kind == EventKind::MailDelivered,
        spec_mail_status(log) matches Some(s) && s.kind == EventKind::MailDelivered
            ==> m.kind == EventKind::MailPickedUp,
        spec_mail_status(log) matches Some(s) && s.kind == EventKind::MailPickedUp
            ==> m.kind == EventKind::MailDelivered,
{
    assert(is_mail_kind(m.kind));
    assert(log.push(m).drop_last() =~= log);
    assert(log.push(m).last() == m);
}

} // verus!
