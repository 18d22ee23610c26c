//! Connections without a proxy.
use crate::events::{Event, EventLevel, KindModel, OutboundEvents};
use crate::types::{
    Endpoint, EndpointModel, Host, HostModel, IpAddress, IpModel, OutboundError,
};
use vstd::prelude::*;

verus! {

/// Octets that are all zero.
pub open spec fn zeros(count: nat) -> Seq<u8> {
    Seq::new(count, |i: int| 0u8)
}

/// Where a datagram socket for a target is bound: any address of the target's
/// family; of version four where the target is a name or stands for any
/// address.
pub open spec fn bind_host(target: HostModel) -> HostModel {
    match target {
        HostModel::Ip(IpModel::V6(octets)) => if octets == zeros(16) {
            HostModel::Ip(IpModel::V4(zeros(4)))
        } else {
            HostModel::Ip(IpModel::V6(zeros(16)))
        },
        _ => HostModel::Ip(IpModel::V4(zeros(4))),
    }
}

pub fn udp_bind_endpoint_for_target(target: &Endpoint) -> (bind: Endpoint)
    ensures
        bind@ == (EndpointModel { host: bind_host(target@.host), port: 0 }),
{
    let v4 = [0u8, 0, 0, 0];
    assert(v4@ =~= zeros(4));
    let host = match &target.host {
        Host::Ip(ip) => match ip {
            IpAddress::V6(octets) => {
                let any = ip.is_unspecified();
                proof {
                    let all = ip@.octets();
                    assert(all == octets@);
                    if any {
                        assert(all =~= zeros(16));
                    } else if all == zeros(16) {
                        assert(forall|i: int| 0 <= i < all.len() ==> all[i] == 0);
                    }
                }
                if any {
                    Host::Ip(IpAddress::V4(v4))
                } else {
                    let v6 = [0u8, 0, 0, 0, 0, 0, 0, 0, 0, 0, 0, 0, 0, 0, 0, 0];
                    assert(v6@ =~= zeros(16));
                    Host::Ip(IpAddress::V6(v6))
                }
            },
            IpAddress::V4(_) => Host::Ip(IpAddress::V4(v4)),
        },
        Host::Domain(_) => Host::Ip(IpAddress::V4(v4)),
    };
    Endpoint::new(host, 0)
}

/// Connects to targets without a proxy.
pub struct DirectOutbound {
    pub events: OutboundEvents,
}

impl DirectOutbound {
    /// What it reports comes from here.
    pub open spec fn wf(self) -> bool {
        self.events.source@ == "rustbox.outbound.direct"@
    }

    pub fn new(id: &str) -> (outbound: DirectOutbound)
        ensures
            outbound.wf(),
            outbound.events.outbound@ == id@,
    {
        DirectOutbound { events: OutboundEvents::new("rustbox.outbound.direct", id) }
    }

    /// A connection to a target is asked for: what is reported before it is made.
    pub fn connecting(&self, flow_id: Option<u64>, target_text: &str) -> (event: Event)
        requires
            self.wf(),
        ensures
            event.is(
                EventLevel::Debug,
                "rustbox.outbound.direct"@,
                flow_id,
                KindModel::OutboundConnecting(self.events.outbound@, target_text@),
            ),
    {
        self.events.emit_connecting(flow_id, target_text)
    }

    /// What the network made of a connection, or of a socket at the place that
    /// `open_datagram` gives: what is reported and what the caller gets.
    pub fn open_stream(
        &self,
        flow_id: Option<u64>,
        target_text: &str,
        connected: Result<(), String>,
    ) -> (done: (Event, Result<(), OutboundError>))
        requires
            self.wf(),
        ensures
            done.1 is Ok <==> connected is Ok,
            done.1 matches Err(error) ==> error.message@ == connected->Err_0@,
            match connected {
                Ok(()) => done.0.is(
                    EventLevel::Info,
                    "rustbox.outbound.direct"@,
                    flow_id,
                    KindModel::OutboundConnected(self.events.outbound@, target_text@),
                ),
                Err(message) => done.0.is(
                    EventLevel::Error,
                    "rustbox.outbound.direct"@,
                    flow_id,
                    KindModel::OutboundFailed(self.events.outbound@, target_text@, message@),
                ),
            },
    {
        let result: Result<(), OutboundError> = match connected {
            Ok(()) => Ok(()),
            Err(message) => Err(OutboundError { message }),
        };
        let event = self.events.emit_result(flow_id, target_text, &result);
        (event, result)
    }

    /// Where the socket for datagrams to a target is bound.
    pub fn open_datagram(&self, target: &Endpoint) -> (bind: Endpoint)
        ensures
            bind@ == (EndpointModel { host: bind_host(target@.host), port: 0 }),
    {
        udp_bind_endpoint_for_target(target)
    }
}

/// A socket for a target of version six is bound to the address of version six
/// that stands for any, unless the target is that address itself; every other is
/// bound to 0.0.0.0.
pub proof fn law_bind_host(target: HostModel)
    requires
        target.wf(),
    ensures
        bind_host(target) matches HostModel::Ip(ip) && ip.wf() && (forall|i: int|
            0 <= i < ip.octets().len() ==> #[trigger] ip.octets()[i] == 0),
        bind_host(target) == HostModel::Ip(IpModel::V6(Seq::new(16, |i: int| 0u8))) <==> {
            &&& target matches HostModel::Ip(IpModel::V6(octets))
            &&& exists|i: int| 0 <= i < 16 && #[trigger] octets[i] != 0
        },
{
    if let HostModel::Ip(IpModel::V6(octets)) = target {
        if forall|i: int| 0 <= i < 16 ==> #[trigger] octets[i] == 0 {
            assert(octets =~= zeros(16));
        } else {
            let i = choose|i: int| 0 <= i < 16 && #[trigger] octets[i] != 0;
            assert(zeros(16)[i] == 0);
        }
    }
}

} // verus!
