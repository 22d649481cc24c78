//! The life of one client session: its state, the routing of what the
//! client sends, and the count of failed deliveries that ends it.

use vstd::prelude::*;
use crate::protocol::{
    ErrorKind, Event, EventView, RawRequest, Request, RequestView, checked, names, payload_of,
};
use crate::registry::{Arbiter, after_disconnect, releases};

verus! {

/// The number of consecutive failed deliveries after which a session is
/// terminated, where no other threshold is configured.
pub const MAX_SEND_ERROR_COUNT: u32 = 5;

#[derive(Clone, Copy, Debug, PartialEq, Eq, Structural)]
pub enum SessionState {
    Connecting,
    Active,
    Closing,
    Closed,
}

/// What a session is, as plain values.
pub ghost struct SessionView {
    pub id: u64,
    pub state: SessionState,
    pub failures: nat,
    pub threshold: nat,
}

/// The session once its connection is established.
pub open spec fn after_established(v: SessionView) -> SessionView {
    if v.state == SessionState::Connecting {
        SessionView { state: SessionState::Active, ..v }
    } else {
        v
    }
}

/// The session after one attempt to deliver an event to its client. Only an
/// active session counts: a delivery resets the count, a failure raises it,
/// and the session is closing once the count has reached the threshold.
pub open spec fn after_delivery(v: SessionView, delivered: bool) -> SessionView {
    if v.state != SessionState::Active {
        v
    } else if delivered {
        SessionView { failures: 0, ..v }
    } else if v.failures + 1 >= v.threshold {
        SessionView { failures: v.failures + 1, state: SessionState::Closing, ..v }
    } else {
        SessionView { failures: v.failures + 1, ..v }
    }
}

/// The session after `n` failed deliveries in a row.
pub open spec fn after_failures(v: SessionView, n: nat) -> SessionView
    decreases n,
{
    if n == 0 {
        v
    } else {
        after_delivery(after_failures(v, (n - 1) as nat), false)
    }
}

/// The session once it is told to close.
pub open spec fn after_begin_close(v: SessionView) -> SessionView {
    if v.state == SessionState::Connecting || v.state == SessionState::Active {
        SessionView { state: SessionState::Closing, ..v }
    } else {
        v
    }
}

/// The session once it has left every device and its connection is gone.
pub open spec fn after_finish_close(v: SessionView) -> SessionView {
    if v.state == SessionState::Closing {
        SessionView { state: SessionState::Closed, ..v }
    } else {
        v
    }
}

/// What becomes of one inbound message.
#[derive(Clone, Debug, PartialEq, Eq)]
pub enum Inbound {
    /// A valid request, to be handed to the arbiter.
    Forward { request: Request },
    /// An answer for this session alone; the arbiter is not involved.
    Reply { event: Event },
    /// The session is not active: the message is dropped.
    Dropped,
}

pub ghost enum InboundView {
    Forward { request: RequestView },
    Reply { event: EventView },
    Dropped,
}

impl View for Inbound {
    type V = InboundView;

    open spec fn view(&self) -> InboundView {
        match *self {
            Inbound::Forward { request } => InboundView::Forward { request: request@ },
            Inbound::Reply { event } => InboundView::Reply { event: event@ },
            Inbound::Dropped => InboundView::Dropped,
        }
    }
}

/// The event that answers a malformed message.
pub open spec fn protocol_error() -> EventView {
    EventView::Error { kind: ErrorKind::Protocol, detail: Seq::<char>::empty() }
}

/// Where an inbound message goes, given what strict decoding made of it
/// (`None`: it was malformed).
pub open spec fn routed(state: SessionState, decoded: Option<RequestView>) -> InboundView {
    if state != SessionState::Active {
        InboundView::Dropped
    } else {
        match decoded {
            Some(request) => InboundView::Forward { request },
            None => InboundView::Reply { event: protocol_error() },
        }
    }
}

/// What strict decoding makes of a parsed message; `None` for a message
/// that did not parse.
pub open spec fn decoded(parsed: Option<RawRequest>) -> Option<RequestView> {
    match parsed {
        Some(raw) => checked(raw, payload_of(raw)),
        None => None,
    }
}

/// Calls `rand::random::<u64>()`. Nothing is claimed of the number.
#[verifier::external_body]
fn random_id() -> (id: u64) {
    rand::random::<u64>()
}

pub struct Session {
    id: u64,
    state: SessionState,
    failures: u32,
    threshold: u32,
}

impl View for Session {
    type V = SessionView;

    closed spec fn view(&self) -> SessionView {
        SessionView {
            id: self.id,
            state: self.state,
            failures: self.failures as nat,
            threshold: self.threshold as nat,
        }
    }
}

/// A connecting session has counted nothing, and an active one has not
/// yet reached its threshold.
pub open spec fn counting(v: SessionView) -> bool {
    &&& v.threshold <= u32::MAX
    &&& v.failures <= u32::MAX
    &&& v.state == SessionState::Connecting ==> v.failures == 0
    &&& v.state == SessionState::Active ==> v.failures < v.threshold || v.failures == 0
}

impl Session {
    pub open spec fn wf(&self) -> bool {
        counting(self@)
    }

    /// A session for a connection that is being set up. It is terminated
    /// after `threshold` failed deliveries in a row.
    pub fn new(id: u64, threshold: u32) -> (session: Session)
        ensures
            session.wf(),
            session@ == (SessionView {
                id,
                state: SessionState::Connecting,
                failures: 0,
                threshold: threshold as nat,
            }),
    {
        Session { id, state: SessionState::Connecting, failures: 0, threshold }
    }

    /// A session like that of `new`, under an identifier drawn at random.
    pub fn connect(threshold: u32) -> (session: Session)
        ensures
            session.wf(),
            session@ == (SessionView {
                id: session@.id,
                state: SessionState::Connecting,
                failures: 0,
                threshold: threshold as nat,
            }),
    {
        Session::new(random_id(), threshold)
    }

    pub fn id(&self) -> (id: u64)
        ensures
            id == self@.id,
    {
        self.id
    }

    pub fn state(&self) -> (state: SessionState)
        ensures
            state == self@.state,
    {
        self.state
    }

    pub fn failures(&self) -> (failures: u32)
        ensures
            failures == self@.failures,
    {
        self.failures
    }

    pub fn threshold(&self) -> (threshold: u32)
        ensures
            threshold == self@.threshold,
    {
        self.threshold
    }

    /// Whether events of the arbiter are still delivered to this session.
    /// What is destined for a session that is not active is dropped.
    pub fn accepts(&self) -> (accepts: bool)
        ensures
            accepts == (self@.state == SessionState::Active),
    {
        self.state == SessionState::Active
    }

    /// The connection is established: a connecting session becomes active.
    pub fn established(&mut self)
        requires
            old(self).wf(),
        ensures
            final(self).wf(),
            final(self)@ == after_established(old(self)@),
    {
        if self.state == SessionState::Connecting {
            self.state = SessionState::Active;
        }
    }

    /// Routes an inbound message whose decoding is known. A valid request
    /// of an active session is forwarded; a malformed one is answered with
    /// a protocol error. The session itself is not changed by either.
    pub fn route(&self, decoded: Option<Request>) -> (inbound: Inbound)
        ensures
            inbound@ == routed(
                self@.state,
                match decoded {
                    Some(request) => Some(request@),
                    None => None,
                },
            ),
    {
        if self.state != SessionState::Active {
            Inbound::Dropped
        } else {
            match decoded {
                Some(request) => Inbound::Forward { request },
                None => Inbound::Reply {
                    event: Event::Error { kind: ErrorKind::Protocol, detail: String::new() },
                },
            }
        }
    }

    /// Decodes and routes an inbound message; `parsed` is `None` where the
    /// text was no message of the protocol at all.
    pub fn receive(&self, parsed: Option<RawRequest>) -> (inbound: Inbound)
        ensures
            inbound@ == routed(self@.state, decoded(parsed)),
    {
        let request = match parsed {
            Some(raw) => match Request::decode(raw) {
                Ok(request) => Some(request),
                Err(_) => None,
            },
            None => None,
        };
        self.route(request)
    }

    /// Records the outcome of one outbound delivery and tells whether the
    /// session has to be terminated: it has reached its threshold of
    /// failures in a row with this one.
    pub fn delivered(&mut self, delivered: bool) -> (terminate: bool)
        requires
            old(self).wf(),
        ensures
            final(self).wf(),
            final(self)@ == after_delivery(old(self)@, delivered),
            terminate == (old(self)@.state == SessionState::Active && final(self)@.state
                == SessionState::Closing),
    {
        if self.state != SessionState::Active {
            false
        } else if delivered {
            self.failures = 0;
            false
        } else {
            if self.failures == 0 && self.threshold == 0 {
                self.failures = 1;
            } else {
                self.failures = self.failures + 1;
            }
            if self.failures >= self.threshold {
                self.state = SessionState::Closing;
                true
            } else {
                false
            }
        }
    }

    /// The session is told to close: by its client, or because its
    /// connection is gone.
    pub fn begin_close(&mut self)
        requires
            old(self).wf(),
        ensures
            final(self).wf(),
            final(self)@ == after_begin_close(old(self)@),
    {
        if self.state == SessionState::Connecting || self.state == SessionState::Active {
            self.state = SessionState::Closing;
        }
    }

    /// The session has left every device and its connection is gone.
    pub fn finish_close(&mut self)
        requires
            old(self).wf(),
        ensures
            final(self).wf(),
            final(self)@ == after_finish_close(old(self)@),
    {
        if self.state == SessionState::Closing {
            self.state = SessionState::Closed;
        }
    }
}


/// Whether this delivery is the failure with which an active session
/// reaches its threshold.
pub open spec fn terminates(v: SessionView, delivered: bool) -> bool {
    v.state == SessionState::Active && !delivered && v.failures + 1 >= v.threshold
}

impl Session {
    /// Records the outcome of one outbound delivery. A session that has
    /// reached its threshold with it leaves every device and is closed:
    /// the devices whose handles the driver has to release are returned,
    /// each once. Otherwise the registry is not touched and `None` is
    /// returned.
    pub fn settle(&mut self, arbiter: &mut Arbiter, delivered: bool) -> (released: Option<
        Vec<String>,
    >)
        requires
            old(self).wf(),
            old(arbiter).wf(),
        ensures
            final(self).wf(),
            final(arbiter).wf(),
            released.is_some() == terminates(old(self)@, delivered),
            match released {
                None => final(self)@ == after_delivery(old(self)@, delivered) && final(arbiter)@
                    == old(arbiter)@,
                Some(devices) => final(self)@ == after_finish_close(
                    after_delivery(old(self)@, delivered),
                ) && final(arbiter)@ == after_disconnect(old(arbiter)@, old(self)@.id)
                    && names(devices@).no_duplicates() && forall|d: Seq<char>|
                    names(devices@).contains(d) <==> releases(old(arbiter)@, d, old(self)@.id),
            },
    {
        if self.delivered(delivered) {
            let devices = arbiter.disconnect(self.id);
            self.finish_close();
            Some(devices)
        } else {
            None
        }
    }

    /// The client is gone: the session leaves every device and is closed.
    /// The devices whose handles the driver has to release are returned,
    /// each once.
    pub fn leave(&mut self, arbiter: &mut Arbiter) -> (released: Vec<String>)
        requires
            old(self).wf(),
            old(arbiter).wf(),
        ensures
            final(self).wf(),
            final(arbiter).wf(),
            final(self)@ == after_finish_close(after_begin_close(old(self)@)),
            final(arbiter)@ == after_disconnect(old(arbiter)@, old(self)@.id),
            names(released@).no_duplicates(),
            forall|d: Seq<char>|
                names(released@).contains(d) <==> releases(old(arbiter)@, d, old(self)@.id),
    {
        self.begin_close();
        let devices = arbiter.disconnect(self.id);
        self.finish_close();
        devices
    }
}

} // verus!
