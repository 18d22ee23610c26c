//! What services and outbounds report of themselves.
use crate::text::join;
use crate::types::OutboundError;
use vstd::prelude::*;

verus! {

/// How much an event matters.
#[derive(Clone, Copy, Debug, PartialEq, Eq, Structural)]
pub enum EventLevel {
    Debug,
    Info,
    Warn,
    Error,
}

/// What happened.
#[derive(Clone, Debug, PartialEq, Eq)]
pub enum EventKind {
    ServiceStarting { service: String },
    ServiceStarted { service: String },
    ServiceStopping { service: String },
    ServiceStopped { service: String },
    ConnectionAccepted { listener: String, peer: String },
    OutboundConnecting { outbound: String, target: String },
    OutboundConnected { outbound: String, target: String },
    OutboundFailed { outbound: String, target: String, error: String },
    Diagnostic(String),
}

/// What happened, in mathematical terms.
pub enum KindModel {
    ServiceStarting(Seq<char>),
    ServiceStarted(Seq<char>),
    ServiceStopping(Seq<char>),
    ServiceStopped(Seq<char>),
    ConnectionAccepted(Seq<char>, Seq<char>),
    OutboundConnecting(Seq<char>, Seq<char>),
    OutboundConnected(Seq<char>, Seq<char>),
    OutboundFailed(Seq<char>, Seq<char>, Seq<char>),
    Diagnostic(Seq<char>),
}

impl EventKind {
    pub open spec fn view(&self) -> KindModel {
        match *self {
            EventKind::ServiceStarting { service } => KindModel::ServiceStarting(service@),
            EventKind::ServiceStarted { service } => KindModel::ServiceStarted(service@),
            EventKind::ServiceStopping { service } => KindModel::ServiceStopping(service@),
            EventKind::ServiceStopped { service } => KindModel::ServiceStopped(service@),
            EventKind::ConnectionAccepted { listener, peer } => KindModel::ConnectionAccepted(
                listener@,
                peer@,
            ),
            EventKind::OutboundConnecting { outbound, target } => KindModel::OutboundConnecting(
                outbound@,
                target@,
            ),
            EventKind::OutboundConnected { outbound, target } => KindModel::OutboundConnected(
                outbound@,
                target@,
            ),
            EventKind::OutboundFailed { outbound, target, error } => KindModel::OutboundFailed(
                outbound@,
                target@,
                error@,
            ),
            EventKind::Diagnostic(text) => KindModel::Diagnostic(text@),
        }
    }
}

/// An event, the part of the program that it comes from and the flow that it is
/// about, where there is one.
#[derive(Clone, Debug, PartialEq, Eq)]
pub struct Event {
    pub level: EventLevel,
    pub source: String,
    pub flow_id: Option<u64>,
    pub kind: EventKind,
}

impl Event {
    /// Whether an event has these parts.
    pub open spec fn is(
        self,
        level: EventLevel,
        source: Seq<char>,
        flow_id: Option<u64>,
        kind: KindModel,
    ) -> bool {
        &&& self.level == level
        &&& self.source@ == source
        &&& self.flow_id == flow_id
        &&& self.kind@ == kind
    }
}

/// The reports of one outbound.
#[derive(Clone, Debug, PartialEq, Eq)]
pub struct OutboundEvents {
    pub source: String,
    pub outbound: String,
}

impl OutboundEvents {
    pub fn new(source: &str, outbound: &str) -> (events: OutboundEvents)
        ensures
            events.source@ == source@,
            events.outbound@ == outbound@,
    {
        OutboundEvents { source: source.to_string(), outbound: outbound.to_string() }
    }

    /// A connection is about to be made.
    pub fn emit_connecting(&self, flow_id: Option<u64>, target: &str) -> (event: Event)
        ensures
            event.is(
                EventLevel::Debug,
                self.source@,
                flow_id,
                KindModel::OutboundConnecting(self.outbound@, target@),
            ),
    {
        Event {
            level: EventLevel::Debug,
            source: self.source.clone(),
            flow_id,
            kind: EventKind::OutboundConnecting {
                outbound: self.outbound.clone(),
                target: target.to_string(),
            },
        }
    }

    /// A connection was made.
    pub fn emit_connected(&self, flow_id: Option<u64>, target: &str) -> (event: Event)
        ensures
            event.is(
                EventLevel::Info,
                self.source@,
                flow_id,
                KindModel::OutboundConnected(self.outbound@, target@),
            ),
    {
        Event {
            level: EventLevel::Info,
            source: self.source.clone(),
            flow_id,
            kind: EventKind::OutboundConnected {
                outbound: self.outbound.clone(),
                target: target.to_string(),
            },
        }
    }

    /// A connection could not be made.
    pub fn emit_failed(&self, flow_id: Option<u64>, target: &str, error: &OutboundError) -> (event:
        Event)
        ensures
            event.is(
                EventLevel::Error,
                self.source@,
                flow_id,
                KindModel::OutboundFailed(self.outbound@, target@, error.message@),
            ),
    {
        Event {
            level: EventLevel::Error,
            source: self.source.clone(),
            flow_id,
            kind: EventKind::OutboundFailed {
                outbound: self.outbound.clone(),
                target: target.to_string(),
                error: error.message.clone(),
            },
        }
    }

    /// What came of an attempt to connect.
    pub fn emit_result(
        &self,
        flow_id: Option<u64>,
        target: &str,
        result: &Result<(), OutboundError>,
    ) -> (event: Event)
        ensures
            match *result {
                Ok(()) => event.is(
                    EventLevel::Info,
                    self.source@,
                    flow_id,
                    KindModel::OutboundConnected(self.outbound@, target@),
                ),
                Err(error) => event.is(
                    EventLevel::Error,
                    self.source@,
                    flow_id,
                    KindModel::OutboundFailed(self.outbound@, target@, error.message@),
                ),
            },
    {
        match result {
            Ok(()) => self.emit_connected(flow_id, target),
            Err(error) => self.emit_failed(flow_id, target, error),
        }
    }
}

/// The reports of one service: where they come from, what the service is and
/// its name.
#[derive(Clone, Debug, PartialEq, Eq)]
pub struct ServiceEvents {
    pub source: String,
    pub kind: String,
    pub id: String,
}

impl ServiceEvents {
    /// The name that a service goes by.
    pub open spec fn service(self) -> Seq<char> {
        self.kind@ + "/"@ + self.id@
    }

    pub fn new(source: &str, kind: &str, id: &str) -> (events: ServiceEvents)
        ensures
            events.source@ == source@,
            events.kind@ == kind@,
            events.id@ == id@,
    {
        ServiceEvents { source: source.to_string(), kind: kind.to_string(), id: id.to_string() }
    }

    fn name(&self) -> (name: String)
        ensures
            name@ == self.service(),
    {
        join(join(self.kind.as_str(), "/").as_str(), self.id.as_str())
    }

    fn event(&self, level: EventLevel, kind: EventKind) -> (event: Event)
        ensures
            event.is(level, self.source@, None, kind@),
    {
        Event { level, source: self.source.clone(), flow_id: None, kind }
    }

    /// The service is about to start.
    pub fn starting(&self) -> (event: Event)
        ensures
            event.is(
                EventLevel::Info,
                self.source@,
                None,
                KindModel::ServiceStarting(self.service()),
            ),
    {
        self.event(EventLevel::Info, EventKind::ServiceStarting { service: self.name() })
    }

    /// The service runs at a place.
    pub fn started(&self, place: &str) -> (event: Event)
        ensures
            event.is(
                EventLevel::Info,
                self.source@,
                None,
                KindModel::ServiceStarted(self.service() + "@"@ + place@),
            ),
    {
        let service = join(join(self.name().as_str(), "@").as_str(), place);
        self.event(EventLevel::Info, EventKind::ServiceStarted { service })
    }

    /// The service is about to stop.
    pub fn stopping(&self) -> (event: Event)
        ensures
            event.is(
                EventLevel::Info,
                self.source@,
                None,
                KindModel::ServiceStopping(self.service()),
            ),
    {
        self.event(EventLevel::Info, EventKind::ServiceStopping { service: self.name() })
    }

    /// The service runs no more.
    pub fn stopped(&self) -> (event: Event)
        ensures
            event.is(
                EventLevel::Info,
                self.source@,
                None,
                KindModel::ServiceStopped(self.service()),
            ),
    {
        self.event(EventLevel::Info, EventKind::ServiceStopped { service: self.name() })
    }

    /// A connection was accepted.
    pub fn accepted(&self, listener: &str, peer: &str) -> (event: Event)
        ensures
            event.is(
                EventLevel::Debug,
                self.source@,
                None,
                KindModel::ConnectionAccepted(listener@, peer@),
            ),
    {
        self.event(
            EventLevel::Debug,
            EventKind::ConnectionAccepted {
                listener: listener.to_string(),
                peer: peer.to_string(),
            },
        )
    }

    /// A connection brought a request that cannot be served; `what` names the
    /// protocol of the request.
    pub fn invalid_request(&self, what: &str, peer: &str, error: &str) -> (event: Event)
        ensures
            event.is(
                EventLevel::Warn,
                self.source@,
                None,
                KindModel::Diagnostic(
                    "invalid "@ + what@ + " request from "@ + peer@ + ": "@ + error@,
                ),
            ),
    {
        let text = join("invalid ", what);
        let text = join(text.as_str(), " request from ");
        let text = join(text.as_str(), peer);
        let text = join(text.as_str(), ": ");
        let text = join(text.as_str(), error);
        self.event(EventLevel::Warn, EventKind::Diagnostic(text))
    }

    /// The service runs, at no place of its own.
    pub fn running(&self) -> (event: Event)
        ensures
            event.is(
                EventLevel::Info,
                self.source@,
                None,
                KindModel::ServiceStarted(self.service()),
            ),
    {
        self.event(EventLevel::Info, EventKind::ServiceStarted { service: self.name() })
    }

    /// No connection can be accepted any more.
    pub fn accept_failed(&self, listener: &str, error: &str) -> (event: Event)
        ensures
            event.is(
                EventLevel::Warn,
                self.source@,
                None,
                KindModel::Diagnostic(
                    self.kind@ + " accept failed on "@ + listener@ + ": "@ + error@,
                ),
            ),
    {
        let text = join(self.kind.as_str(), " accept failed on ");
        let text = join(text.as_str(), listener);
        let text = join(text.as_str(), ": ");
        let text = join(text.as_str(), error);
        self.event(EventLevel::Warn, EventKind::Diagnostic(text))
    }

    /// The packet stack of the service ended.
    pub fn stack_stopped(&self, error: &str) -> (event: Event)
        ensures
            event.is(
                EventLevel::Error,
                self.source@,
                None,
                KindModel::Diagnostic(self.service() + " stack stopped: "@ + error@),
            ),
    {
        let text = join(join(self.name().as_str(), " stack stopped: ").as_str(), error);
        self.event(EventLevel::Error, EventKind::Diagnostic(text))
    }

    /// A packet belongs to no flow.
    pub fn packet_dropped(&self, error: &str) -> (event: Event)
        ensures
            event.is(
                EventLevel::Warn,
                self.source@,
                None,
                KindModel::Diagnostic("packet drop: "@ + error@),
            ),
    {
        self.event(EventLevel::Warn, EventKind::Diagnostic(join("packet drop: ", error)))
    }

    /// A flow of packets could not be handed on.
    pub fn dispatch_failed(&self, error: &str) -> (event: Event)
        ensures
            event.is(
                EventLevel::Warn,
                self.source@,
                None,
                KindModel::Diagnostic("TUN flow dispatch failed: "@ + error@),
            ),
    {
        let text = join("TUN flow dispatch failed: ", error);
        self.event(EventLevel::Warn, EventKind::Diagnostic(text))
    }

    /// An echo request could not be answered; the text says why.
    pub fn echo_failed(&self, error: &str) -> (event: Event)
        ensures
            event.is(EventLevel::Debug, self.source@, None, KindModel::Diagnostic(error@)),
    {
        self.event(EventLevel::Debug, EventKind::Diagnostic(error.to_string()))
    }
}

/// A service goes by its kind and its number, with a slash between them.
pub proof fn law_service(events: ServiceEvents)
    ensures
        events.service() == events.kind@ + seq!['/'] + events.id@,
{
    reveal_strlit("/");
    assert("/"@ =~= seq!['/']);
}

} // verus!
