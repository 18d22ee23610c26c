//! What every inbound service shares: whether it runs, where it listens, and
//! the numbers of its flows.
use crate::inspect::enrich::{host_view, FlowMeta};
use crate::types::{
    Endpoint, EndpointModel, HostModel, Network, ProtocolHint, ServiceError,
};
use vstd::prelude::*;

verus! {

/// A flow as an inbound service hands it on.
pub struct InboundFlow {
    pub id: u64,
    pub inbound: u64,
    pub interface: Option<String>,
    pub meta: FlowMeta,
}

/// The same over plain values.
pub struct FlowModel {
    pub id: u64,
    pub inbound: u64,
    pub interface: Option<Seq<char>>,
    pub network: Network,
    pub source: EndpointModel,
    pub destination: EndpointModel,
    pub domain: Option<HostModel>,
    pub protocol_hint: Option<ProtocolHint>,
}

impl View for InboundFlow {
    type V = FlowModel;

    open spec fn view(&self) -> FlowModel {
        FlowModel {
            id: self.id,
            inbound: self.inbound,
            interface: match self.interface {
                Some(name) => Some(name@),
                None => None,
            },
            network: self.meta.network,
            source: self.meta.source@,
            destination: self.meta.destination@,
            domain: host_view(self.meta.domain),
            protocol_hint: self.meta.protocol_hint,
        }
    }
}

/// Gives numbers to flows.
pub struct FlowIds {
    pub next: u64,
}

/// The number that a counter gives: never zero.
pub open spec fn flow_id(next: u64) -> u64 {
    if next == 0 {
        1
    } else {
        next
    }
}

/// The counter after it gave a number.
pub open spec fn after(next: u64) -> u64 {
    if next == u64::MAX {
        0
    } else {
        (next + 1) as u64
    }
}

impl FlowIds {
    pub fn new() -> (ids: FlowIds)
        ensures
            ids.next == 1,
    {
        FlowIds { next: 1 }
    }

    /// The next number; the counter starts over at its end.
    pub fn take(&mut self) -> (id: u64)
        ensures
            id == flow_id(old(self).next),
            final(self).next == after(old(self).next),
    {
        let id: u64 = if self.next == 0 {
            1
        } else {
            self.next
        };
        self.next = if self.next == u64::MAX {
            0
        } else {
            self.next + 1
        };
        id
    }
}

/// The counter after it gave some numbers.
pub open spec fn after_many(next: u64, count: nat) -> u64
    decreases count,
{
    if count == 0 {
        next
    } else {
        after(after_many(next, (count - 1) as nat))
    }
}

proof fn lemma_counts_up(next: u64, count: nat)
    requires
        next + count <= u64::MAX,
    ensures
        after_many(next, count) == next + count,
    decreases count,
{
    if count > 0 {
        lemma_counts_up(next, (count - 1) as nat);
    }
}

/// Numbers are never zero, and two flows have different numbers unless the
/// counter started over between them.
pub proof fn law_flow_ids(first: nat, second: nat)
    requires
        first < second,
        second < u64::MAX,
    ensures
        flow_id(after_many(1, first)) != 0,
        flow_id(after_many(1, first)) != flow_id(after_many(1, second)),
{
    lemma_counts_up(1, first);
    lemma_counts_up(1, second);
}

/// Whether a service runs, and where it listens.
pub struct Lifecycle {
    pub started: bool,
    pub local_endpoint: Option<Endpoint>,
}

/// What an optional endpoint holds.
pub open spec fn endpoint_view(endpoint: Option<Endpoint>) -> Option<EndpointModel> {
    match endpoint {
        Some(endpoint) => Some(endpoint@),
        None => None,
    }
}

impl Lifecycle {
    pub fn new() -> (lifecycle: Lifecycle)
        ensures
            !lifecycle.started,
            lifecycle.local_endpoint is None,
    {
        Lifecycle { started: false, local_endpoint: None }
    }

    /// Starts, unless the service runs already; then `refusal` is said.
    pub fn start(&mut self, refusal: &str) -> (done: Result<(), ServiceError>)
        ensures
            final(self).started,
            final(self).local_endpoint == old(self).local_endpoint,
            match done {
                Ok(()) => !old(self).started,
                Err(error) => old(self).started && error.message@ == refusal@,
            },
    {
        if self.started {
            return Err(ServiceError { message: refusal.to_owned() });
        }
        self.started = true;
        Ok(())
    }

    /// The service listens: where it says, or else where it was told to.
    pub fn bound(&mut self, local: Option<Endpoint>, listen: &Endpoint)
        ensures
            final(self).started == old(self).started,
            endpoint_view(final(self).local_endpoint) == Some(
                match local {
                    Some(local) => local@,
                    None => listen@,
                },
            ),
    {
        self.local_endpoint = match local {
            Some(local) => Some(local),
            None => Some(listen.duplicate()),
        };
    }

    pub fn stop(&mut self)
        ensures
            !final(self).started,
            final(self).local_endpoint == old(self).local_endpoint,
    {
        self.started = false;
    }

    /// Where the service listens, once it does.
    pub fn local_endpoint(&self) -> (local: Option<Endpoint>)
        ensures
            endpoint_view(local) == endpoint_view(self.local_endpoint),
    {
        match &self.local_endpoint {
            Some(endpoint) => Some(endpoint.duplicate()),
            None => None,
        }
    }
}

} // verus!
