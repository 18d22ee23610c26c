//! Connections that the system redirected here.
use crate::inbound::flow::{
    after, endpoint_view, flow_id, FlowIds, FlowModel, InboundFlow, Lifecycle,
};
use crate::inspect::enrich::FlowMeta;
use crate::types::{Endpoint, EndpointModel, Network, ServiceError};
use vstd::prelude::*;

verus! {

/// How the system redirects connections.
#[derive(Clone, Copy, Debug, PartialEq, Eq, Structural)]
pub enum TransparentRedirectMode {
    Redirect,
    Tproxy,
}

/// The configuration of the service.
#[derive(Clone, Copy, Debug, PartialEq, Eq)]
pub struct TransparentInboundConfig {
    pub mode: TransparentRedirectMode,
    pub mark: Option<u32>,
}

/// Where redirected connections are to be listened for.
#[derive(Clone, Debug, PartialEq, Eq)]
pub struct TransparentTcpBind {
    pub listen: Endpoint,
    pub mode: TransparentRedirectMode,
    pub mark: Option<u32>,
}

/// A service that accepts redirected connections.
pub struct TransparentProxyInbound {
    pub id: u64,
    pub listen: Endpoint,
    pub config: TransparentInboundConfig,
    pub flow_ids: FlowIds,
    pub lifecycle: Lifecycle,
}

impl TransparentProxyInbound {
    pub fn new(id: u64, listen: Endpoint, config: TransparentInboundConfig) -> (inbound:
        TransparentProxyInbound)
        ensures
            inbound.id == id,
            inbound.listen == listen,
            inbound.config == config,
            inbound.flow_ids.next == 1,
            !inbound.lifecycle.started,
            inbound.lifecycle.local_endpoint is None,
    {
        TransparentProxyInbound {
            id,
            listen,
            config,
            flow_ids: FlowIds::new(),
            lifecycle: Lifecycle::new(),
        }
    }

    /// Where the service listens, once it does.
    pub fn local_endpoint(&self) -> (local: Option<Endpoint>)
        ensures
            endpoint_view(local) == endpoint_view(self.lifecycle.local_endpoint),
    {
        self.lifecycle.local_endpoint()
    }

    /// Starts; gives where the service is to listen, and how.
    pub fn start(&mut self) -> (bind: Result<TransparentTcpBind, ServiceError>)
        ensures
            *final(self) == (TransparentProxyInbound {
                lifecycle: final(self).lifecycle,
                ..*old(self)
            }),
            final(self).lifecycle.started,
            final(self).lifecycle.local_endpoint == old(self).lifecycle.local_endpoint,
            match bind {
                Ok(bind) => !old(self).lifecycle.started && bind.listen@ == old(self).listen@
                    && bind.mode == old(self).config.mode && bind.mark == old(self).config.mark,
                Err(error) => old(self).lifecycle.started && error.message@
                    == "transparent inbound already started"@,
            },
    {
        match self.lifecycle.start("transparent inbound already started") {
            Ok(()) => Ok(
                TransparentTcpBind {
                    listen: self.listen.duplicate(),
                    mode: self.config.mode,
                    mark: self.config.mark,
                },
            ),
            Err(error) => Err(error),
        }
    }

    /// The service listens: where it says, or else where it was told to.
    pub fn bound(&mut self, local: Option<Endpoint>)
        ensures
            *final(self) == (TransparentProxyInbound {
                lifecycle: final(self).lifecycle,
                ..*old(self)
            }),
            final(self).lifecycle.started == old(self).lifecycle.started,
            endpoint_view(final(self).lifecycle.local_endpoint) == Some(
                match local {
                    Some(local) => local@,
                    None => old(self).listen@,
                },
            ),
    {
        self.lifecycle.bound(local, &self.listen);
    }

    /// The flow of a connection that was meant for another destination.
    pub fn accepted(&mut self, peer: Endpoint, original_destination: Endpoint) -> (flow:
        InboundFlow)
        ensures
            *final(self) == (TransparentProxyInbound {
                flow_ids: final(self).flow_ids,
                ..*old(self)
            }),
            final(self).flow_ids.next == after(old(self).flow_ids.next),
            flow@ == (FlowModel {
                id: flow_id(old(self).flow_ids.next),
                inbound: old(self).id,
                interface: None,
                network: Network::Tcp,
                source: peer@,
                destination: original_destination@,
                domain: Some(original_destination@.host),
                protocol_hint: None,
            }),
            flow@ == redirected_flow(
                flow_id(old(self).flow_ids.next),
                old(self).id,
                peer@,
                original_destination@,
            ),
    {
        let id: u64 = self.flow_ids.take();
        let domain = Some(original_destination.host.duplicate());
        InboundFlow {
            id,
            inbound: self.id,
            interface: None,
            meta: FlowMeta {
                network: Network::Tcp,
                source: peer,
                destination: original_destination,
                domain,
                protocol_hint: None,
            },
        }
    }
}

/// The flow of a connection that was meant for another destination.
pub open spec fn redirected_flow(
    id: u64,
    inbound: u64,
    peer: EndpointModel,
    destination: EndpointModel,
) -> FlowModel {
    FlowModel {
        id,
        inbound,
        interface: None,
        network: Network::Tcp,
        source: peer,
        destination,
        domain: Some(destination.host),
        protocol_hint: None,
    }
}

/// A redirected connection goes on, over TCP, from the client to where it was
/// meant to go, and names that as its domain.
pub proof fn law_redirected(
    id: u64,
    inbound: u64,
    peer: EndpointModel,
    destination: EndpointModel,
)
    ensures
        ({
            let flow = redirected_flow(id, inbound, peer, destination);
            &&& flow.source == peer && flow.destination == destination
            &&& flow.network == Network::Tcp
            &&& flow.domain == Some(destination.host)
            &&& flow.id == id && flow.inbound == inbound
        }),
{
}

} // verus!
