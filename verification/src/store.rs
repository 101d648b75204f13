//! The append-only event store and its two read queries: the full
//! history, and the most recent mail-status event.
//!
//! The store is the authoritative in-memory event log; the surrounding
//! process mirrors rows to durable storage and reloads them at startup.

use vstd::prelude::*;

use crate::model::{Event, EventKind, EventV};

verus! {

/// Errors raised by the store and by the durable mirror around it.
#[derive(Debug, PartialEq)]
pub enum StoreError {
    /// The configured database location is missing or unusable.
    BadDBLocation,
    /// The database could not be reached.
    ConnectionError(String),
    /// A stored row could not be decoded back into an event.
    DecodeError(String),
    /// No MailDelivered or MailPickedUp row exists yet. Distinct from a
    /// connectivity failure: callers branch differently on "no history yet".
    MailStatusNotFound,
}

impl StoreError {
    /// A human-readable description of the failure.
    pub fn message(&self) -> (msg: String)
        ensures
            msg@ == spec_store_error_message(*self),
    {
        match self {
            StoreError::BadDBLocation => String::from_str(
                "The database location is not set, or the location is incorrect",
            ),
            StoreError::ConnectionError(s) => String::from_str("Database error: ").concat(
                s.as_str(),
            ),
            StoreError::DecodeError(s) => String::from_str(
                "Could not decode value from database: ",
            ).concat(s.as_str()),
            StoreError::MailStatusNotFound => String::from_str(
                "A mail status event (MailDelivered/MailPickedUp) could not be found in the database",
            ),
        }
    }
}

pub open spec fn spec_store_error_message(e: StoreError) -> Seq<char> {
    match e {
        StoreError::BadDBLocation => "The database location is not set, or the location is incorrect"@,
        StoreError::ConnectionError(s) => "Database error: "@ + s@,
        StoreError::DecodeError(s) => "Could not decode value from database: "@ + s@,
        StoreError::MailStatusNotFound => "A mail status event (MailDelivered/MailPickedUp) could not be found in the database"@,
    }
}

/// Whether this kind records a mail status.
pub open spec fn is_mail_kind(kind: EventKind) -> bool {
    kind == EventKind::MailDelivered || kind == EventKind::MailPickedUp
}

/// The most recent mail-status row of the log: among rows whose kind is
/// MailDelivered or MailPickedUp, the one with the greatest timestamp;
/// between equal timestamps the later row wins.
pub open spec fn spec_mail_status(log: Seq<EventV>) -> Option<EventV>
    decreases log.len(),
{
    if log.len() == 0 {
        None
    } else {
        let last = log.last();
        let rest = spec_mail_status(log.drop_last());
        if is_mail_kind(last.kind) && (rest is None || rest->0.timestamp <= last.timestamp) {
            Some(last)
        } else {
            rest
        }
    }
}

/// Appending a row that is not a mail-status row leaves the derived mail
/// status untouched.
pub proof fn lemma_mail_status_skip(log: Seq<EventV>, e: EventV)
    requires
        !is_mail_kind(e.kind),
    ensures
        spec_mail_status(log.push(e)) == spec_mail_status(log),
{
    assert(log.push(e).drop_last() =~= log);
    assert(log.push(e).last() == e);
}

/// The append-only event log. `write_event` only ever appends (and
/// skips EventHistory responses); the current mail status is derived on
/// demand from the log, never tracked separately.
pub struct Store {
    events: Vec<Event>,
}

impl View for Store {
    type V = Seq<EventV>;

    closed spec fn view(&self) -> Seq<EventV> {
        self.events.deep_view()
    }
}

impl Store {
    /// An empty store.
    pub fn new() -> (store: Store)
        ensures
            store@ == Seq::<EventV>::empty(),
    {
        let store = Store { events: Vec::new() };
        proof {
            assert(store@ =~= Seq::<EventV>::empty());
        }
        store
    }

    /// Appends one event to the log. An EventHistory event is silently
    /// skipped (still a success, no row written): a history response only
    /// repeats previous events, and recording it would let the log grow
    /// with copies of copies.
    pub fn write_event(&mut self, event: Event) -> (res: Result<(), StoreError>)
        ensures
            res is Ok,
            event.kind == EventKind::EventHistory ==> final(self)@ == old(self)@,
            event.kind != EventKind::EventHistory ==> final(self)@ == old(self)@.push(event.deep_view()),
    {
        if let EventKind::EventHistory = event.kind {
            return Ok(());
        }
        self.events.push(event);
        proof {
            assert(self@ =~= old(self)@.push(self.events@.last().deep_view()));
        }
        Ok(())
    }

    /// The full ordered history. An empty store yields an empty sequence,
    /// not an error.
    pub fn get_all_events(&self) -> (res: Result<Vec<Event>, StoreError>)
        ensures
            res matches Ok(events) && events.deep_view() == self@,
    {
        let mut copies: Vec<Event> = Vec::new();
        let mut i: usize = 0;
        while i < self.events.len()
            invariant
                i <= self.events@.len(),
                copies@.len() == i,
                forall|k: int|
                    0 <= k < i ==> #[trigger] copies@[k].deep_view() == self.events@[k].deep_view(),
            decreases self.events@.len() - i,
        {
            copies.push(self.events[i].clone());
            i = i + 1;
        }
        proof {
            assert(copies.deep_view() =~= self@);
        }
        Ok(copies)
    }

    /// The single most recent mail-status event, or `MailStatusNotFound`
    /// when no MailDelivered or MailPickedUp row exists.
    pub fn get_mail_status(&self) -> (res: Result<Event, StoreError>)
        ensures
            match spec_mail_status(self@) {
                Some(status) => res matches Ok(event) && event.deep_view() == status,
                None => res == Result::<Event, StoreError>::Err(StoreError::MailStatusNotFound),
            },
    {
        let mut best: Option<usize> = None;
        let mut i: usize = 0;
        while i < self.events.len()
            invariant
                i <= self.events@.len(),
                match spec_mail_status(self@.subrange(0, i as int)) {
                    Some(status) => best matches Some(j) && j < i
                        && self.events@[j as int].deep_view() == status,
                    None => best is None,
                },
            decreases self.events@.len() - i,
        {
            let ghost prefix = self@.subrange(0, i as int);
            let current = &self.events[i];
            let is_status = match current.kind {
                EventKind::MailDelivered => true,
                EventKind::MailPickedUp => true,
                _ => false,
            };
            if is_status {
                let replace = match &best {
                    None => true,
                    Some(j) => self.events[*j].timestamp() <= current.timestamp(),
                };
                if replace {
                    best = Some(i);
                }
            }
            i = i + 1;
            proof {
                assert(self@.subrange(0, i as int).drop_last() =~= prefix);
                assert(self@.subrange(0, i as int).last() == self.events@[i - 1].deep_view());
            }
        }
        proof {
            assert(self@.subrange(0, self.events@.len() as int) =~= self@);
        }
        match best {
            Some(j) => Ok(self.events[j].clone()),
            None => Err(StoreError::MailStatusNotFound),
        }
    }

    /// The number of rows in the log.
    pub fn len(&self) -> (n: usize)
        ensures
            n == self@.len(),
    {
        self.events.len()
    }

    /// The most recently appended row, if any; the durable mirror copies
    /// it out after each write.
    pub fn last_event(&self) -> (res: Option<Event>)
        ensures
            res is Some <==> self@.len() > 0,
            res matches Some(e) ==> e.deep_view() == self@.last(),
    {
        if self.events.len() == 0 {
            None
        } else {
            Some(self.events[self.events.len() - 1].clone())
        }
    }

    /// Removes every row; only tests and explicit resets use this.
    pub fn nuke(&mut self) -> (res: Result<(), StoreError>)
        ensures
            res is Ok,
            final(self)@ == Seq::<EventV>::empty(),
    {
        self.events.clear();
        proof {
            assert(self@ =~= Seq::<EventV>::empty());
        }
        Ok(())
    }
}

} // verus!
