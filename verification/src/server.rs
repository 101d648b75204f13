//! The broadcast registry: bookkeeping of connected subscribers and the
//! fan-out of events to them, plus the per-request handlers of the
//! message protocol.

use vstd::prelude::*;
use vstd::string::StringExecFns;

use tokio::sync::mpsc::UnboundedSender;

use crate::codec::{event_to_json, spec_parse_event};
use crate::model::{spec_is_outgoing, Bundle, BundleV, DeviceError, Event, EventKind, EventV};
use crate::store::{spec_mail_status, spec_store_error_message, Store, StoreError};

verus! {

#[verifier::external_type_specification]
#[verifier::external_body]
#[verifier::reject_recursive_types(T)]
pub struct ExUnboundedSender<T>(UnboundedSender<T>);

/// Hands one frame to a subscriber's outbound channel.
///
/// Relies on tokio::sync::mpsc::UnboundedSender::send: it never blocks,
/// enqueues the message in the channel's order, and fails exactly when the
/// receiving half is gone. Whether the message arrives depends on the
/// receiver, so nothing more is promised.
#[verifier::external_body]
fn send_text(sender: &UnboundedSender<String>, message: String) -> (delivered: bool) {
    sender.send(message).is_ok()
}

/// A connected subscriber: its registration id, and its outbound channel
/// once the transport handshake has completed.
pub struct Client {
    pub client_id: String,
    pub sender: Option<UnboundedSender<String>>,
}

/// What the registry holds, as a map: registered id -> whether an
/// outbound channel is attached.
pub open spec fn clients_map(clients: Seq<Client>) -> Map<Seq<char>, bool>
    decreases clients.len(),
{
    if clients.len() == 0 {
        Map::empty()
    } else {
        clients_map(clients.drop_last()).insert(
            clients.last().client_id@,
            clients.last().sender is Some,
        )
    }
}

/// No id appears twice.
pub open spec fn unique_ids(clients: Seq<Client>) -> bool {
    forall|j: int, k: int|
        0 <= j < k < clients.len() ==> clients[j].client_id@ != clients[k].client_id@
}

/// The ids of the registered-and-attached clients.
pub open spec fn attached_set(m: Map<Seq<char>, bool>) -> Set<Seq<char>> {
    m.dom().filter(|id: Seq<char>| m[id])
}

proof fn lemma_clients_map_dom(clients: Seq<Client>)
    ensures
        forall|id: Seq<char>| #[trigger] clients_map(clients).dom().contains(id)
            <==> exists|k: int| 0 <= k < clients.len() && clients[k].client_id@ == id,
        clients_map(clients).dom().finite(),
    decreases clients.len(),
{
    if clients.len() > 0 {
        lemma_clients_map_dom(clients.drop_last());
        assert forall|id: Seq<char>| #[trigger] clients_map(clients).dom().contains(id)
            implies exists|k: int| 0 <= k < clients.len() && clients[k].client_id@ == id by {
            if id == clients.last().client_id@ {
                assert(clients[clients.len() - 1].client_id@ == id);
            } else {
                let k = choose|k: int|
                    0 <= k < clients.drop_last().len() && clients.drop_last()[k].client_id@ == id;
                assert(clients[k].client_id@ == id);
            }
        }
        assert forall|id: Seq<char>|
            (exists|k: int| 0 <= k < clients.len() && clients[k].client_id@ == id)
            implies #[trigger] clients_map(clients).dom().contains(id) by {
            let k = choose|k: int| 0 <= k < clients.len() && clients[k].client_id@ == id;
            if k < clients.len() - 1 {
                assert(clients.drop_last()[k].client_id@ == id);
            }
        }
    }
}

proof fn lemma_clients_map_remove(clients: Seq<Client>, j: int)
    requires
        0 <= j < clients.len(),
        unique_ids(clients),
    ensures
        clients_map(clients.remove(j)) == clients_map(clients).remove(clients[j].client_id@),
    decreases clients.len(),
{
    let id = clients[j].client_id@;
    lemma_clients_map_dom(clients.drop_last());
    if j == clients.len() - 1 {
        assert(clients.remove(j) =~= clients.drop_last());
        assert(!clients_map(clients.drop_last()).dom().contains(id));
        assert(clients_map(clients.drop_last())
            =~= clients_map(clients.drop_last()).insert(id, clients.last().sender is Some).remove(id));
    } else {
        assert(clients.remove(j).drop_last() =~= clients.drop_last().remove(j));
        assert(clients.remove(j).last() == clients.last());
        lemma_clients_map_remove(clients.drop_last(), j);
        let last = clients.last();
        assert(clients_map(clients.remove(j))
            == clients_map(clients.drop_last()).remove(id).insert(last.client_id@, last.sender is Some));
        assert(last.client_id@ != id);
        assert(clients_map(clients.drop_last()).remove(id).insert(last.client_id@, last.sender is Some)
            =~= clients_map(clients.drop_last()).insert(last.client_id@, last.sender is Some).remove(id));
    }
}

proof fn lemma_clients_map_push(clients: Seq<Client>, c: Client)
    ensures
        clients_map(clients.push(c)) == clients_map(clients).insert(c.client_id@, c.sender is Some),
{
    assert(clients.push(c).drop_last() =~= clients);
    assert(clients.push(c).last() == c);
}

/// The subscriber registry: the one structure shared by the watchdog and
/// every connection task. Internally a list with pairwise-distinct ids;
/// externally a map from id to attached-or-not.
pub struct Registry {
    clients: Vec<Client>,
}

impl View for Registry {
    type V = Map<Seq<char>, bool>;

    closed spec fn view(&self) -> Map<Seq<char>, bool> {
        clients_map(self.clients@)
    }
}

impl Registry {
    pub closed spec fn wf(&self) -> bool {
        unique_ids(self.clients@)
    }

    /// An empty registry.
    pub fn new() -> (registry: Registry)
        ensures
            registry@ == Map::<Seq<char>, bool>::empty(),
            registry.wf(),
    {
        Registry { clients: Vec::new() }
    }

    /// The index of the entry with this id, if one exists.
    fn find_index(&self, id: &String) -> (found: Option<usize>)
        ensures
            found matches Some(j) ==> j < self.clients@.len() && self.clients@[j as int].client_id@ == id@,
            found is None ==> forall|k: int|
                0 <= k < self.clients@.len() ==> self.clients@[k].client_id@ != id@,
    {
        let mut i: usize = 0;
        while i < self.clients.len()
            invariant
                i <= self.clients@.len(),
                forall|k: int| 0 <= k < i ==> self.clients@[k].client_id@ != id@,
            decreases self.clients@.len() - i,
        {
            if self.clients[i].client_id.eq(id) {
                return Some(i);
            }
            i = i + 1;
        }
        None
    }

    /// Registers a subscriber id with no channel attached yet.
    /// Re-registering an existing id overwrites its entry.
    pub fn register_client(&mut self, id: String)
        requires
            old(self).wf(),
        ensures
            final(self)@ == old(self)@.insert(id@, false),
            final(self).wf(),
    {
        self.upsert(Client { client_id: id, sender: None });
    }

    /// Attaches a live outbound channel to an id, registering it if
    /// needed; from this point the client is eligible for broadcast.
    pub fn attach(&mut self, id: String, sender: UnboundedSender<String>)
        requires
            old(self).wf(),
        ensures
            final(self)@ == old(self)@.insert(id@, true),
            final(self).wf(),
    {
        self.upsert(Client { client_id: id, sender: Some(sender) });
    }

    /// Replaces or appends the entry for `client.client_id`.
    fn upsert(&mut self, client: Client)
        requires
            old(self).wf(),
        ensures
            final(self)@ == old(self)@.insert(client.client_id@, client.sender is Some),
            final(self).wf(),
    {
        let ghost before = self.clients@;
        match self.find_index(&client.client_id) {
            Some(j) => {
                self.clients.remove(j);
                proof {
                    lemma_clients_map_remove(before, j as int);
                    lemma_clients_map_dom(self.clients@);
                    lemma_clients_map_push(self.clients@, client);
                    assert(unique_ids(self.clients@));
                    assert(clients_map(before).remove(client.client_id@)
                        .insert(client.client_id@, client.sender is Some)
                        =~= clients_map(before).insert(client.client_id@, client.sender is Some));
                }
                self.clients.push(client);
            },
            None => {
                proof {
                    lemma_clients_map_push(self.clients@, client);
                }
                self.clients.push(client);
            },
        }
    }

    /// Removes an id. Removing an id that is not present is a no-op, not
    /// an error; so a second unregister of the same id changes nothing.
    pub fn unregister(&mut self, id: &String)
        requires
            old(self).wf(),
        ensures
            final(self)@ == old(self)@.remove(id@),
            final(self).wf(),
    {
        let ghost before = self.clients@;
        match self.find_index(id) {
            Some(j) => {
                self.clients.remove(j);
                proof {
                    lemma_clients_map_remove(before, j as int);
                }
            },
            None => {
                proof {
                    lemma_clients_map_dom(before);
                    assert(!clients_map(before).dom().contains(id@));
                    assert(clients_map(before) =~= clients_map(before).remove(id@));
                }
            },
        }
    }

    /// Removing an id is idempotent: a second unregister of the same id,
    /// like an unregister of an id that was never registered, leaves the
    /// registry exactly as it is and never errors.
    pub proof fn lemma_unregister_idempotent(m: Map<Seq<char>, bool>, id: Seq<char>)
        ensures
            m.remove(id).remove(id) == m.remove(id),
            !m.dom().contains(id) ==> m.remove(id) == m,
    {
        assert(m.remove(id).remove(id) =~= m.remove(id));
        if !m.dom().contains(id) {
            assert(m.remove(id) =~= m);
        }
    }

    /// Fans one event out: serializes it once and hands one copy to every
    /// registered client with an attached channel — `attempted` counts
    /// exactly one enqueue attempt per attached client. A failed enqueue
    /// (receiver gone) is skipped and never aborts the broadcast to the
    /// remaining clients; `reached` counts the clients whose channel
    /// accepted the frame.
    pub fn send_to_clients(&self, event: &Event) -> (counts: (usize, usize))
        requires
            self.wf(),
        ensures
            ({
                let (attempted, reached) = counts;
                &&& attempted == attached_set(self@).len()
                &&& reached <= attempted
            }),
    {
        let payload = event_to_json(event);
        let ghost all = self.clients@;
        let mut attempted: usize = 0;
        let mut reached: usize = 0;
        let mut i: usize = 0;
        proof {
            lemma_attached_prefix_len(all, 0);
        }
        while i < self.clients.len()
            invariant
                i <= all.len(),
                all == self.clients@,
                unique_ids(all),
                reached <= attempted,
                attempted == attached_set(clients_map(all.subrange(0, i as int))).len(),
                attached_set(clients_map(all.subrange(0, i as int))).finite(),
                attached_set(clients_map(all.subrange(0, i as int))).len() <= i,
            decreases all.len() - i,
        {
            let ghost prefix = all.subrange(0, i as int);
            let client = &self.clients[i];
            let mut delivered = false;
            let mut sent = false;
            if let Some(sender) = &client.sender {
                delivered = send_text(sender, payload.clone());
                sent = true;
            }
            proof {
                assert(all.subrange(0, i as int + 1) =~= prefix.push(all[i as int]));
                lemma_clients_map_dom(prefix);
                assert forall|k: int| 0 <= k < prefix.len()
                    implies prefix[k].client_id@ != all[i as int].client_id@ by {
                    assert(all[k] == prefix[k]);
                }
                assert(!clients_map(prefix).dom().contains(all[i as int].client_id@));
                lemma_attached_step(prefix, all[i as int]);
            }
            if sent {
                attempted = attempted + 1;
            }
            if delivered {
                reached = reached + 1;
            }
            i = i + 1;
        }
        proof {
            assert(all.subrange(0, all.len() as int) =~= all);
        }
        (attempted, reached)
    }
}

/// Extending the prefix by one client grows the attached set by that
/// client's id exactly when its channel is attached.
proof fn lemma_attached_step(prefix: Seq<Client>, c: Client)
    requires
        !clients_map(prefix).dom().contains(c.client_id@),
        attached_set(clients_map(prefix)).finite(),
    ensures
        c.sender is Some ==> attached_set(clients_map(prefix.push(c)))
            =~= attached_set(clients_map(prefix)).insert(c.client_id@),
        c.sender is None ==> attached_set(clients_map(prefix.push(c)))
            =~= attached_set(clients_map(prefix)),
        attached_set(clients_map(prefix.push(c))).finite(),
        c.sender is Some ==> attached_set(clients_map(prefix.push(c))).len()
            == attached_set(clients_map(prefix)).len() + 1,
{
    lemma_clients_map_push(prefix, c);
    let m = clients_map(prefix);
    let m2 = clients_map(prefix.push(c));
    assert(m2 == m.insert(c.client_id@, c.sender is Some));
    if c.sender is Some {
        assert(attached_set(m2) =~= attached_set(m).insert(c.client_id@));
        assert(!attached_set(m).contains(c.client_id@));
        vstd::set::axiom_set_insert_len(attached_set(m), c.client_id@);
    } else {
        assert(attached_set(m2) =~= attached_set(m));
    }
}

/// The fixed rejection for a client that sends a server-originated kind.
pub fn wrong_way() -> (event: Event)
    ensures
        event.kind == EventKind::Error,
        event.device is None,
        event.data matches Some(Bundle::Error { msg }) && msg@ == spec_wrong_way_message(),
{
    Event::error(
        "this Event type should only be sent from the server, not the from the client. Try another event type.",
    )
}

pub open spec fn spec_wrong_way_message() -> Seq<char> {
    "this Event type should only be sent from the server, not the from the client. Try another event type."@
}

/// A health check is echoed: a fresh HealthCheck event with no payload,
/// which just tells the client it is still connected.
pub fn handle_health_check(_request: &Event) -> (response: Event)
    ensures
        response.kind == EventKind::HealthCheck,
        response.device is None,
        response.data is None,
{
    Event::new(EventKind::HealthCheck, None, None)
}

/// Compares the PIN supplied in a PinCheck bundle against the configured
/// one and answers with PinResult { authorized }; a request without a
/// PinCheck bundle gets an Error event.
pub fn handle_pin_check(event: &Event, configured_pin: u16) -> (response: Event)
    ensures
        event.data matches Some(Bundle::PinCheck { pin }) ==> {
            &&& response.kind == EventKind::PinResult
            &&& response.device is None
            &&& response.data == Some(Bundle::PinResult { authorized: pin == configured_pin })
        },
        !(event.data matches Some(Bundle::PinCheck { .. })) ==> {
            &&& response.kind == EventKind::Error
            &&& response.data matches Some(Bundle::Error { msg })
                && msg@ == "Couldn't get modkit PIN to login!"@
        },
{
    if let Some(bundle) = event.data.as_ref() {
        if let Bundle::PinCheck { pin } = bundle {
            return Event::new(
                EventKind::PinResult,
                None,
                Some(Bundle::PinResult { authorized: *pin == configured_pin }),
            );
        }
    }
    Event::error("Couldn't get modkit PIN to login!")
}

pub open spec fn spec_no_device_message() -> Seq<char> {
    "Please provide a device type to poll (`Camera`, `Light`, `ContactSensor`)"@
}

/// Answers a PollDevice request. The device capability is an external
/// collaborator, so the outcome of polling the tagged device is handed
/// in; a request without a device tag is rejected without any poll, a
/// device error is wrapped as an Error event, and a successful bundle is
/// recorded on the request and echoed in a PollDeviceResult event.
pub fn handle_poll_device(event: &mut Event, outcome: Result<Bundle, DeviceError>) -> (response: Event)
    ensures
        old(event).device is None ==> {
            &&& *final(event) == *old(event)
            &&& response.kind == EventKind::Error
            &&& response.data matches Some(Bundle::Error { msg }) && msg@ == spec_no_device_message()
        },
        old(event).device matches Some(dev) ==> match outcome {
            Ok(bundle) => {
                &&& *final(event) == (Event { data: Some(bundle), ..*old(event) })
                &&& response.kind == EventKind::PollDeviceResult
                &&& response.device == Some(dev)
                &&& response.data matches Some(b) && b.deep_view() == bundle.deep_view()
            },
            Err(e) => {
                &&& *final(event) == *old(event)
                &&& response.kind == EventKind::Error
                &&& response.data matches Some(Bundle::Error { msg })
                    && msg@ == crate::model::spec_device_error_message(e)
            },
        },
{
    let dev_type = match &event.device {
        Some(d) => *d,
        None => {
            return Event::error(
                "Please provide a device type to poll (`Camera`, `Light`, `ContactSensor`)",
            );
        },
    };
    match event.poll_device(outcome) {
        Ok(bundle) => Event::new(EventKind::PollDeviceResult, Some(dev_type), Some(bundle)),
        Err(e) => e.to_event(),
    }
}

/// Answers an EventHistory request: the full stored history, wrapped in
/// an EventHistory bundle.
pub fn handle_event_history(store: &Store) -> (response: Event)
    ensures
        response.kind == EventKind::EventHistory,
        response.device is None,
        response.data matches Some(b) && b.deep_view() == (BundleV::EventHistory { events: store@ }),
{
    let events = match store.get_all_events() {
        Ok(events) => events,
        Err(_) => Vec::new(),
    };
    let ghost models = events.deep_view();
    let response = Event::new(EventKind::EventHistory, None, Some(Bundle::EventHistory { events }));
    proof {
        let b = response.data->0;
        assert(b.deep_view()->EventHistory_events =~= models);
        assert(b.deep_view() =~= (BundleV::EventHistory { events: store@ }));
    }
    response
}

/// Answers a MailStatus request: the most recent mail-status event, or an
/// Error event when no mail-status row exists yet.
pub fn handle_mail_status(store: &Store) -> (response: Event)
    ensures
        match spec_mail_status(store@) {
            Some(status) => response.deep_view() == status,
            None => {
                &&& response.kind == EventKind::Error
                &&& response.data matches Some(Bundle::Error { msg })
                    && msg@ == spec_store_error_message(StoreError::MailStatusNotFound)
            },
        },
{
    match store.get_mail_status() {
        Ok(event) => event,
        Err(e) => {
            let msg = e.message();
            Event::error(msg.as_str())
        },
    }
}

/// How a handled inbound message continues.
pub enum Handled {
    /// The response event to send back to the client.
    Done(Event),
    /// A PollDevice request naming a device: the caller polls that
    /// device and finishes with [`handle_poll_device`]. The carried
    /// event is the stamped request.
    NeedsPoll(Event),
}

/// Whether `stamped` is `m` with a server-assigned timestamp.
pub open spec fn stamped_from(stamped: EventV, m: EventV) -> bool {
    &&& stamped.kind == m.kind
    &&& stamped.device == m.device
    &&& stamped.data == m.data
}

/// Classifies and dispatches one inbound frame, as received from a
/// subscriber's transport (`None` stands for a frame that held no text).
/// Malformed input yields an Error event; an outgoing kind is rejected
/// with the fixed wrong-direction error and is never persisted; a
/// well-formed incoming event is stamped with the server time, written
/// to the store best-effort, and answered by exactly one handler.
pub fn handle_message(text: Option<&str>, store: &mut Store, configured_pin: u16) -> (handled: Handled)
    ensures
        ({
            ||| text is None
            ||| text matches Some(t) && spec_parse_event(t@) is None
        }) ==> {
            &&& final(store)@ == old(store)@
            &&& handled matches Handled::Done(r) && r.kind == EventKind::Error
        },
        text matches Some(t) ==> match spec_parse_event(t@) {
            None => true,
            Some(m) => {
            &&& spec_is_outgoing(m.kind) ==> {
                &&& final(store)@ == old(store)@
                &&& handled matches Handled::Done(r) && r.kind == EventKind::Error
                    && (r.data matches Some(Bundle::Error { msg }) && msg@ == spec_wrong_way_message())
            }
            &&& !spec_is_outgoing(m.kind) ==> {
                &&& m.kind == EventKind::EventHistory ==> final(store)@ == old(store)@
                &&& m.kind != EventKind::EventHistory ==> final(store)@.len() == old(store)@.len() + 1
                    && stamped_from(final(store)@.last(), m)
                    && final(store)@.drop_last() == old(store)@
                &&& match m.kind {
                    EventKind::HealthCheck => handled matches Handled::Done(r) && {
                        &&& r.kind == EventKind::HealthCheck
                        &&& r.device is None
                        &&& r.data is None
                    },
                    EventKind::PinCheck => handled matches Handled::Done(r) && {
                        &&& m.data matches Some(BundleV::PinCheck { pin }) ==> r.kind
                            == EventKind::PinResult && r.data
                            == Some(Bundle::PinResult { authorized: pin == configured_pin })
                        &&& !(m.data matches Some(BundleV::PinCheck { .. })) ==> r.kind
                            == EventKind::Error
                    },
                    EventKind::EventHistory => handled matches Handled::Done(r) && {
                        &&& r.kind == EventKind::EventHistory
                        &&& r.data matches Some(b) && b.deep_view()
                            == (BundleV::EventHistory { events: old(store)@ })
                    },
                    EventKind::MailStatus => handled matches Handled::Done(r)
                        && match spec_mail_status(old(store)@) {
                            Some(status) => r.deep_view() == status,
                            None => r.kind == EventKind::Error && (r.data
                                matches Some(Bundle::Error { msg }) && msg@
                                == spec_store_error_message(StoreError::MailStatusNotFound)),
                        },
                    EventKind::PollDevice => {
                        &&& m.device is None ==> (handled matches Handled::Done(r)
                            && r.kind == EventKind::Error
                            && (r.data matches Some(Bundle::Error { msg })
                                && msg@ == spec_no_device_message()))
                        &&& m.device is Some ==> (handled matches Handled::NeedsPoll(e)
                            && stamped_from(e.deep_view(), m))
                    },
                    _ => true,
                }
            }
            },
        },
{
    // Capture the text if the frame held any; otherwise report the error.
    let raw = match text {
        Some(t) => t,
        None => {
            return Handled::Done(Event::error("Couldn't convert websocket message to text"));
        },
    };

    // Parse the frame into an Event.
    let mut event = match crate::codec::parse_event_str(raw) {
        Some(event) => event,
        None => {
            return Handled::Done(Event::error("Bad message: not a wire-format event"));
        },
    };

    // Filter out outgoing events; they are only ever server-originated.
    if event.kind().is_outgoing() {
        return Handled::Done(wrong_way());
    }

    // Stamp the server time so the stored row never carries a
    // client-supplied timestamp.
    event.populate_timestamp();

    let ghost m = spec_parse_event(text->0@)->0;
    let ghost stamped = event.deep_view();

    // Record the inbound event; an EventHistory request is skipped by the
    // store, and failure would not be surfaced to the client.
    let response_event = event.clone();
    let _ = store.write_event(event);
    proof {
        if m.kind != EventKind::EventHistory {
            assert(store@.drop_last() =~= old(store)@);
        }
    }

    // Dispatch to exactly one handler per incoming kind.
    match response_event.kind {
        EventKind::HealthCheck => Handled::Done(handle_health_check(&response_event)),
        EventKind::PinCheck => Handled::Done(handle_pin_check(&response_event, configured_pin)),
        EventKind::EventHistory => Handled::Done(handle_event_history(store)),
        EventKind::MailStatus => {
            proof {
                crate::store::lemma_mail_status_skip(old(store)@, stamped);
            }
            Handled::Done(handle_mail_status(store))
        },
        EventKind::PollDevice => {
            if response_event.device.is_some() {
                Handled::NeedsPoll(response_event)
            } else {
                Handled::Done(Event::error(
                    "Please provide a device type to poll (`Camera`, `Light`, `ContactSensor`)",
                ))
            }
        },
        // The outgoing kinds were already rejected above; an incoming
        // kind without a handler would land here.
        _ => Handled::Done(Event::error(
            "Unplanned incoming event or rogue outgoing event, this shouldn't happen!",
        )),
    }
}

/// The empty prefix has an empty attached set.
proof fn lemma_attached_prefix_len(all: Seq<Client>, i: int)
    requires
        i == 0,
    ensures
        attached_set(clients_map(all.subrange(0, 0))).finite(),
        attached_set(clients_map(all.subrange(0, 0))).len() == 0,
{
    assert(all.subrange(0, 0) =~= Seq::<Client>::empty());
    assert(clients_map(Seq::<Client>::empty()) == Map::<Seq<char>, bool>::empty());
    assert(attached_set(Map::<Seq<char>, bool>::empty()) =~= Set::<Seq<char>>::empty());
}

} // verus!
