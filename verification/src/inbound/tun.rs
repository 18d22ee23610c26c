//! A packet device: its routes, and the order in which it is set up and taken
//! down.
use crate::outbound::wireguard::{bit_at, contains};
use crate::text::{decimal, decimal_text, join};
use crate::types::{Endpoint, EndpointModel, IpAddress, IpCidr, IpModel, ServiceError};
use vstd::prelude::*;

verus! {

/// Who sets the routes of a device.
#[derive(Clone, Copy, Debug, PartialEq, Eq, Structural)]
pub enum RouteMode {
    Manual,
    Auto,
    Strict,
}

/// What is done with name queries on a device.
#[derive(Clone, Copy, Debug, PartialEq, Eq, Structural)]
pub enum TunDnsMode {
    Off,
    Hijack,
}

/// A proxy that the platform is told of.
#[derive(Clone, Debug, PartialEq, Eq)]
pub struct PlatformProxyConfig {
    pub listen: Endpoint,
    pub bypass: Vec<String>,
}

/// The texts that some strings hold.
pub open spec fn texts(strings: Seq<String>) -> Seq<Seq<char>> {
    strings.map_values(|text: String| text@)
}

impl PlatformProxyConfig {
    /// A copy.
    pub fn duplicate(&self) -> (copy: PlatformProxyConfig)
        ensures
            copy.listen@ == self.listen@,
            texts(copy.bypass@) == texts(self.bypass@),
    {
        let mut bypass: Vec<String> = Vec::new();
        for i in 0..self.bypass.len()
            invariant
                texts(bypass@) =~= texts(self.bypass@.take(i as int)),
        {
            let ghost before = texts(bypass@);
            let text = self.bypass[i].as_str().to_owned();
            bypass.push(text);
            assert(texts(bypass@) =~= before.push(text@));
            assert(texts(self.bypass@.take(i + 1)) =~= texts(self.bypass@.take(i as int)).push(
                text@,
            ));
        }
        assert(self.bypass@.take(self.bypass@.len() as int) =~= self.bypass@);
        PlatformProxyConfig { listen: self.listen.duplicate(), bypass }
    }
}

/// The configuration of the service.
#[derive(Clone, Debug, PartialEq, Eq)]
pub struct TunInboundConfig {
    pub interface_name: Option<String>,
    pub addresses: Vec<IpCidr>,
    pub mtu: Option<u16>,
    pub route_mode: RouteMode,
    pub dns_mode: TunDnsMode,
    pub auto_route: bool,
    pub strict_route: bool,
    pub route_includes: Vec<IpCidr>,
    pub route_excludes: Vec<IpCidr>,
    pub dns_servers: Vec<IpAddress>,
    pub platform_proxy: Option<PlatformProxyConfig>,
    pub platform_http_proxy: bool,
    pub auto_redirect: bool,
}

/// What a device is opened with.
#[derive(Clone, Debug, PartialEq, Eq)]
pub struct PacketDeviceConfig {
    pub name: Option<String>,
    pub addresses: Vec<IpCidr>,
    pub mtu: Option<u16>,
    pub route_mode: RouteMode,
    pub dns_mode: TunDnsMode,
}

/// What is known of a device that is open.
#[derive(Clone, Debug, PartialEq, Eq)]
pub struct PacketDeviceInfo {
    pub name: String,
    pub index: Option<u32>,
    pub addresses: Vec<IpCidr>,
    pub mtu: Option<u16>,
}

/// A device, by its number or its name.
#[derive(Clone, Debug, PartialEq, Eq)]
pub enum InterfaceRef {
    Index(u32),
    Name(String),
}

/// What an [`InterfaceRef`] holds.
pub enum InterfaceModel {
    Index(u32),
    Name(Seq<char>),
}

impl View for InterfaceRef {
    type V = InterfaceModel;

    open spec fn view(&self) -> InterfaceModel {
        match *self {
            InterfaceRef::Index(index) => InterfaceModel::Index(index),
            InterfaceRef::Name(name) => InterfaceModel::Name(name@),
        }
    }
}

impl InterfaceRef {
    /// A copy.
    pub fn duplicate(&self) -> (copy: InterfaceRef)
        ensures
            copy@ == self@,
    {
        match self {
            InterfaceRef::Index(index) => InterfaceRef::Index(*index),
            InterfaceRef::Name(name) => InterfaceRef::Name(name.as_str().to_owned()),
        }
    }
}

/// A change of the system's network.
#[derive(Clone, Debug, PartialEq, Eq)]
pub enum NetworkOperation {
    AddRoute {
        destination: IpCidr,
        gateway: Option<IpAddress>,
        interface: InterfaceRef,
        metric: Option<u32>,
    },
    SetInterfaceDns { interface: InterfaceRef, servers: Vec<IpAddress> },
    SetPlatformHttpProxy(PlatformProxyConfig),
    PreserveRoute { destination: IpCidr },
}

/// A block of addresses over plain values: the address and the prefix length.
pub open spec fn cidr_view(cidr: IpCidr) -> (IpModel, u8) {
    (cidr.address@, cidr.prefix_len)
}

/// What some blocks hold.
pub open spec fn cidr_views(cidrs: Seq<IpCidr>) -> Seq<(IpModel, u8)> {
    cidrs.map_values(|cidr: IpCidr| cidr_view(cidr))
}

/// What a [`NetworkOperation`] holds.
#[verifier::ext_equal]
pub enum OperationModel {
    AddRoute {
        destination: (IpModel, u8),
        gateway: Option<IpAddress>,
        interface: InterfaceModel,
        metric: Option<u32>,
    },
    SetInterfaceDns { interface: InterfaceModel, servers: Seq<IpAddress> },
    SetPlatformHttpProxy { listen: EndpointModel, bypass: Seq<Seq<char>> },
    PreserveRoute { destination: (IpModel, u8) },
}

impl View for NetworkOperation {
    type V = OperationModel;

    open spec fn view(&self) -> OperationModel {
        match *self {
            NetworkOperation::AddRoute {
                destination,
                gateway,
                interface,
                metric,
            } => OperationModel::AddRoute {
                destination: cidr_view(destination),
                gateway,
                interface: interface@,
                metric,
            },
            NetworkOperation::SetInterfaceDns {
                interface,
                servers,
            } => OperationModel::SetInterfaceDns { interface: interface@, servers: servers@ },
            NetworkOperation::SetPlatformHttpProxy(proxy) => OperationModel::SetPlatformHttpProxy {
                listen: proxy.listen@,
                bypass: texts(proxy.bypass@),
            },
            NetworkOperation::PreserveRoute { destination } => OperationModel::PreserveRoute {
                destination: cidr_view(destination),
            },
        }
    }
}

/// What some operations hold.
pub open spec fn operation_views(operations: Seq<NetworkOperation>) -> Seq<OperationModel> {
    operations.map_values(|operation: NetworkOperation| operation@)
}

/// Why the system's network is changed.
#[derive(Clone, Copy, Debug, PartialEq, Eq)]
pub enum NetworkControlReason {
    /// For a service that takes packets from a device.
    TunInbound,
}

/// Changes that are made together, and undone where one fails.
#[derive(Clone, Debug, PartialEq, Eq)]
pub struct NetworkTransaction {
    pub reason: NetworkControlReason,
    pub operations: Vec<NetworkOperation>,
    pub rollback_required: bool,
}

/// Changes that are in force.
#[derive(Clone, Debug, PartialEq, Eq)]
pub struct NetworkLease {
    pub id: u64,
    pub active: bool,
}

/// Whether some addresses hold one of a family.
pub open spec fn any_of(addresses: Seq<IpCidr>, v6: bool) -> bool {
    exists|i: int| 0 <= i < addresses.len() && ((#[trigger] addresses[i]).address is V6) == v6
}

fn has_family(addresses: &Vec<IpCidr>, v6: bool) -> (yes: bool)
    ensures
        yes == any_of(addresses@, v6),
{
    for i in 0..addresses.len()
        invariant
            forall|j: int| 0 <= j < i ==> ((#[trigger] addresses@[j]).address is V6) != v6,
    {
        let is_v6 = match addresses[i].address {
            IpAddress::V6(_) => true,
            IpAddress::V4(_) => false,
        };
        if is_v6 == v6 {
            assert((addresses@[i as int].address is V6) == v6);
            return true;
        }
    }
    false
}

/// The first address of a block whose first octet is given; the rest is zero.
pub open spec fn block_start(v6: bool, first: u8) -> IpModel {
    if v6 {
        IpModel::V6(Seq::new(16, |i: int| if i == 0 { first } else { 0u8 }))
    } else {
        IpModel::V4(Seq::new(4, |i: int| if i == 0 { first } else { 0u8 }))
    }
}

/// Each family whole.
pub open spec fn default_routes(addresses: Seq<IpCidr>) -> Seq<(IpModel, u8)> {
    (if any_of(addresses, false) {
        seq![(block_start(false, 0), 0u8)]
    } else {
        Seq::empty()
    }) + (if any_of(addresses, true) {
        seq![(block_start(true, 0), 0u8)]
    } else {
        Seq::empty()
    })
}

/// Each family in two halves, which go before a default route.
pub open spec fn strict_routes(addresses: Seq<IpCidr>) -> Seq<(IpModel, u8)> {
    (if any_of(addresses, false) {
        seq![(block_start(false, 0), 1u8), (block_start(false, 128), 1u8)]
    } else {
        Seq::empty()
    }) + (if any_of(addresses, true) {
        seq![(block_start(true, 0), 1u8), (block_start(true, 128), 1u8)]
    } else {
        Seq::empty()
    })
}

fn block(v6: bool, first: u8, prefix_len: u8) -> (cidr: IpCidr)
    ensures
        cidr_view(cidr) == (block_start(v6, first), prefix_len),
{
    let address = if v6 {
        let octets = [first, 0, 0, 0, 0, 0, 0, 0, 0, 0, 0, 0, 0, 0, 0, 0];
        assert(octets@ =~= Seq::new(16, |i: int| if i == 0 { first } else { 0u8 }));
        IpAddress::V6(octets)
    } else {
        let octets = [first, 0, 0, 0];
        assert(octets@ =~= Seq::new(4, |i: int| if i == 0 { first } else { 0u8 }));
        IpAddress::V4(octets)
    };
    IpCidr { address, prefix_len }
}

/// The routes by default: each family that the device has, whole.
pub fn default_route_includes(addresses: &Vec<IpCidr>) -> (includes: Vec<IpCidr>)
    ensures
        cidr_views(includes@) == default_routes(addresses@),
{
    let mut includes: Vec<IpCidr> = Vec::new();
    if has_family(addresses, false) {
        includes.push(block(false, 0, 0));
    }
    if has_family(addresses, true) {
        includes.push(block(true, 0, 0));
    }
    assert(cidr_views(includes@) =~= default_routes(addresses@));
    includes
}

/// The routes that go before every other: each family that the device has, in
/// two halves.
pub fn strict_route_includes(addresses: &Vec<IpCidr>) -> (includes: Vec<IpCidr>)
    ensures
        cidr_views(includes@) == strict_routes(addresses@),
{
    let mut includes: Vec<IpCidr> = Vec::new();
    if has_family(addresses, false) {
        includes.push(block(false, 0, 1));
        includes.push(block(false, 128, 1));
    }
    if has_family(addresses, true) {
        includes.push(block(true, 0, 1));
        includes.push(block(true, 128, 1));
    }
    assert(cidr_views(includes@) =~= strict_routes(addresses@));
    includes
}

/// Every address lies in exactly one half of its family.
pub proof fn law_halves(address: IpModel, lower: IpCidr, upper: IpCidr)
    requires
        address.wf(),
        cidr_view(lower) == (block_start(address is V6, 0), 1u8),
        cidr_view(upper) == (block_start(address is V6, 128), 1u8),
    ensures
        contains(lower, address) != contains(upper, address),
{
    let octets = address.octets();
    let first = octets[0];
    assert((0u8 >> 7u8) % 2 == 0) by (bit_vector);
    assert((128u8 >> 7u8) % 2 == 1) by (bit_vector);
    assert(bit_at(octets, 0) == ((first >> 7u8) % 2 == 1));
    assert(!bit_at(lower.address@.octets(), 0));
    assert(bit_at(upper.address@.octets(), 0));
    if bit_at(octets, 0) {
        assert(bit_at(lower.address@.octets(), 0) != bit_at(octets, 0));
        assert(contains(upper, address));
    } else {
        assert(bit_at(upper.address@.octets(), 0) != bit_at(octets, 0));
        assert(contains(lower, address));
    }
}

/// The blocks that are routed to the device.
pub open spec fn routes(config: TunInboundConfig) -> Seq<(IpModel, u8)> {
    if config.route_includes@.len() > 0 {
        cidr_views(config.route_includes@)
    } else if config.strict_route {
        strict_routes(config.addresses@)
    } else {
        default_routes(config.addresses@)
    }
}

/// The device that routes lead to: by its number where it has one.
pub open spec fn interface_of(info: PacketDeviceInfo) -> InterfaceModel {
    match info.index {
        Some(index) => InterfaceModel::Index(index),
        None => InterfaceModel::Name(info.name@),
    }
}

/// A route to a destination through a device, without a gateway and with a
/// metric of one.
pub open spec fn route_through(
    interface: InterfaceModel,
    destination: (IpModel, u8),
) -> OperationModel {
    OperationModel::AddRoute { destination, gateway: None, interface, metric: Some(1) }
}

/// The changes for a device: none where routes are not set by this service.
pub open spec fn planned(config: TunInboundConfig, info: PacketDeviceInfo) -> Seq<OperationModel> {
    if !config.auto_route {
        Seq::empty()
    } else {
        let interface = interface_of(info);
        routes(config).map_values(
            |destination: (IpModel, u8)| route_through(interface, destination),
        ) + (if config.dns_servers@.len() > 0 {
            seq![OperationModel::SetInterfaceDns { interface, servers: config.dns_servers@ }]
        } else {
            Seq::empty()
        }) + (match config.platform_proxy {
            Some(proxy) => seq![
                OperationModel::SetPlatformHttpProxy {
                    listen: proxy.listen@,
                    bypass: texts(proxy.bypass@),
                },
            ],
            None => Seq::empty(),
        }) + cidr_views(config.route_excludes@).map_values(
            |destination: (IpModel, u8)| OperationModel::PreserveRoute { destination },
        )
    }
}

fn copy_cidrs(cidrs: &Vec<IpCidr>) -> (copy: Vec<IpCidr>)
    ensures
        copy@ == cidrs@,
{
    let mut copy: Vec<IpCidr> = Vec::new();
    for i in 0..cidrs.len()
        invariant
            copy@ == cidrs@.take(i as int),
    {
        copy.push(cidrs[i]);
        assert(copy@ =~= cidrs@.take(i + 1));
    }
    assert(cidrs@.take(cidrs@.len() as int) =~= cidrs@);
    copy
}

fn route_operations(includes: &Vec<IpCidr>, interface: &InterfaceRef) -> (operations: Vec<
    NetworkOperation,
>)
    ensures
        operation_views(operations@) == cidr_views(includes@).map_values(
            |destination: (IpModel, u8)| route_through(interface@, destination),
        ),
{
    let mut operations: Vec<NetworkOperation> = Vec::new();
    let ghost make = |destination: (IpModel, u8)| route_through(interface@, destination);
    for i in 0..includes.len()
        invariant
            make == (|destination: (IpModel, u8)| route_through(interface@, destination)),
            operation_views(operations@) =~= cidr_views(includes@.take(i as int)).map_values(make),
    {
        let ghost before = operation_views(operations@);
        let operation = NetworkOperation::AddRoute {
            destination: includes[i],
            gateway: None,
            interface: interface.duplicate(),
            metric: Some(1),
        };
        operations.push(operation);
        assert(operation_views(operations@) =~= before.push(operation@));
        assert(cidr_views(includes@.take(i + 1)) =~= cidr_views(includes@.take(i as int)).push(
            cidr_view(includes@[i as int]),
        ));
        assert(operation@ == make(cidr_view(includes@[i as int])));
    }
    assert(includes@.take(includes@.len() as int) =~= includes@);
    operations
}

/// The changes for a device.
pub fn network_transaction(config: &TunInboundConfig, info: &PacketDeviceInfo) -> (transaction:
    NetworkTransaction)
    ensures
        transaction.reason == NetworkControlReason::TunInbound,
        operation_views(transaction.operations@) == planned(*config, *info),
        transaction.rollback_required,
{
    if !config.auto_route {
        let operations: Vec<NetworkOperation> = Vec::new();
        assert(operation_views(operations@) =~= Seq::empty());
        return NetworkTransaction {
            reason: NetworkControlReason::TunInbound,
            operations,
            rollback_required: true,
        };
    }
    let interface = match info.index {
        Some(index) => InterfaceRef::Index(index),
        None => InterfaceRef::Name(info.name.as_str().to_owned()),
    };
    let includes = if config.route_includes.len() == 0 {
        if config.strict_route {
            strict_route_includes(&config.addresses)
        } else {
            default_route_includes(&config.addresses)
        }
    } else {
        copy_cidrs(&config.route_includes)
    };
    let mut operations = route_operations(&includes, &interface);
    let ghost one = operation_views(operations@);
    let ghost mut dns: Seq<OperationModel> = Seq::empty();
    if config.dns_servers.len() > 0 {
        let mut servers: Vec<IpAddress> = Vec::new();
        for i in 0..config.dns_servers.len()
            invariant
                servers@ == config.dns_servers@.take(i as int),
        {
            servers.push(config.dns_servers[i]);
            assert(servers@ =~= config.dns_servers@.take(i + 1));
        }
        assert(servers@ =~= config.dns_servers@);
        let operation = NetworkOperation::SetInterfaceDns {
            interface: interface.duplicate(),
            servers,
        };
        operations.push(operation);
        proof {
            dns = seq![operation@];
        }
        assert(operation_views(operations@) =~= one + dns);
    }
    assert(operation_views(operations@) =~= one + dns);
    let ghost two = operation_views(operations@);
    let ghost mut proxied: Seq<OperationModel> = Seq::empty();
    if let Some(proxy) = &config.platform_proxy {
        let operation = NetworkOperation::SetPlatformHttpProxy(proxy.duplicate());
        operations.push(operation);
        proof {
            proxied = seq![operation@];
        }
        assert(operation_views(operations@) =~= two + proxied);
    }
    assert(operation_views(operations@) =~= two + proxied);
    let ghost three = operation_views(operations@);
    let ghost keep = |destination: (IpModel, u8)| OperationModel::PreserveRoute { destination };
    assert(config.route_excludes@.take(0) =~= Seq::empty());
    assert(cidr_views(config.route_excludes@.take(0)).map_values(keep) =~= Seq::empty());
    assert(operation_views(operations@) =~= three + cidr_views(
        config.route_excludes@.take(0),
    ).map_values(keep));
    for i in 0..config.route_excludes.len()
        invariant
            keep == (|destination: (IpModel, u8)| OperationModel::PreserveRoute { destination }),
            operation_views(operations@) =~= three + cidr_views(
                config.route_excludes@.take(i as int),
            ).map_values(keep),
    {
        let ghost before = operation_views(operations@);
        let operation = NetworkOperation::PreserveRoute { destination: config.route_excludes[i] };
        operations.push(operation);
        assert(operation_views(operations@) =~= before.push(operation@));
        assert(cidr_views(config.route_excludes@.take(i + 1)).map_values(keep) =~= cidr_views(
            config.route_excludes@.take(i as int),
        ).map_values(keep).push(keep(cidr_view(config.route_excludes@[i as int]))));
    }
    assert(config.route_excludes@.take(config.route_excludes@.len() as int)
        =~= config.route_excludes@);
    assert(operation_views(operations@) =~= planned(*config, *info));
    NetworkTransaction {
        reason: NetworkControlReason::TunInbound,
        operations,
        rollback_required: true,
    }
}

/// The service of a device.
pub struct TunInbound {
    pub id: u64,
    pub config: TunInboundConfig,
    pub started: bool,
    /// Whether the packet stack is still here to be attached.
    pub stack_ready: bool,
    pub network_lease: Option<NetworkLease>,
    /// The task that runs the packet stack.
    pub stack_task: Option<u64>,
}

/// Whether a device is the one that a configuration asks for.
pub open spec fn is_device_of(device: PacketDeviceConfig, config: TunInboundConfig) -> bool {
    &&& name_view(device.name) == name_view(config.interface_name)
    &&& device.addresses@ == config.addresses@
    &&& device.mtu == config.mtu
    &&& device.route_mode == config.route_mode
    &&& device.dns_mode == config.dns_mode
}

/// What follows the attempt to run the packet stack.
pub enum SpawnStep {
    /// The service runs.
    Started,
    /// The network changes are to be undone; then [`TunInbound::rolled_back`].
    Release(NetworkLease),
    Failed(ServiceError),
}

/// What an optional name holds.
pub open spec fn name_view(name: Option<String>) -> Option<Seq<char>> {
    match name {
        Some(name) => Some(name@),
        None => None,
    }
}

impl TunInbound {
    /// The service once it was started.
    pub open spec fn begun(self) -> TunInbound {
        TunInbound { started: true, ..self }
    }

    /// The service once network changes are in force and its stack was attached.
    pub open spec fn with_changes(self, lease: NetworkLease) -> TunInbound {
        TunInbound { network_lease: Some(lease), stack_ready: false, ..self }
    }

    /// The service once its stack runs as a task, or could not be run.
    pub open spec fn after_spawn(self, task: Option<u64>) -> TunInbound {
        match task {
            Some(task) => TunInbound { stack_task: Some(task), ..self },
            None => if self.network_lease is Some {
                TunInbound { network_lease: None, ..self }
            } else {
                TunInbound { started: false, ..self }
            },
        }
    }

    /// The service once its changes were undone, or could not be.
    pub open spec fn undone(self, released: bool) -> TunInbound {
        if released {
            TunInbound { started: false, ..self }
        } else {
            self
        }
    }

    /// The service once it was told to stop.
    pub open spec fn halted(self) -> TunInbound {
        TunInbound { started: false, stack_task: None, ..self }
    }

    /// The service once its changes were given up.
    pub open spec fn without_changes(self) -> TunInbound {
        TunInbound { network_lease: None, ..self }
    }

    pub fn new(id: u64, config: TunInboundConfig) -> (inbound: TunInbound)
        ensures
            inbound == (TunInbound {
                id,
                config,
                started: false,
                stack_ready: true,
                network_lease: None,
                stack_task: None,
            }),
    {
        TunInbound {
            id,
            config,
            started: false,
            stack_ready: true,
            network_lease: None,
            stack_task: None,
        }
    }

    /// The network changes that are in force.
    pub fn network_lease(&self) -> (lease: Option<NetworkLease>)
        ensures
            lease == self.network_lease,
    {
        match &self.network_lease {
            Some(lease) => Some(NetworkLease { id: lease.id, active: lease.active }),
            None => None,
        }
    }

    /// Starts: gives the device that is to be opened.
    pub fn start(&mut self) -> (device: Result<PacketDeviceConfig, ServiceError>)
        ensures
            *final(self) == (TunInbound { started: true, ..*old(self) }),
            *final(self) == old(self).begun(),
            device matches Ok(device) ==> is_device_of(device, old(self).config),
            match device {
                Ok(device) => {
                    &&& !old(self).started
                    &&& name_view(device.name) == name_view(old(self).config.interface_name)
                    &&& device.addresses@ == old(self).config.addresses@
                    &&& device.mtu == old(self).config.mtu
                    &&& device.route_mode == old(self).config.route_mode
                    &&& device.dns_mode == old(self).config.dns_mode
                },
                Err(error) => old(self).started && error.message@ == "tun inbound already started"@,
            },
    {
        if self.started {
            return Err(ServiceError::new("tun inbound already started"));
        }
        self.started = true;
        Ok(
            PacketDeviceConfig {
                name: match &self.config.interface_name {
                    Some(name) => Some(name.as_str().to_owned()),
                    None => None,
                },
                addresses: copy_cidrs(&self.config.addresses),
                mtu: self.config.mtu,
                route_mode: self.config.route_mode,
                dns_mode: self.config.dns_mode,
            },
        )
    }

    /// The network changes were made: the packet stack is attached, once.
    pub fn applied(&mut self, lease: NetworkLease) -> (done: Result<(), ServiceError>)
        ensures
            *final(self) == (TunInbound {
                network_lease: Some(lease),
                stack_ready: false,
                ..*old(self)
            }),
            *final(self) == old(self).with_changes(lease),
            match done {
                Ok(()) => old(self).stack_ready,
                Err(error) => !old(self).stack_ready && error.message@
                    == "tun inbound stack already attached"@,
            },
    {
        self.network_lease = Some(lease);
        if !self.stack_ready {
            return Err(ServiceError::new("tun inbound stack already attached"));
        }
        self.stack_ready = false;
        Ok(())
    }

    /// The name of the task that runs the packet stack.
    pub fn task_name(&self) -> (name: String)
        ensures
            name@ == "tun-inbound-stack-"@ + decimal(self.id as nat),
    {
        let number = decimal_text(self.id);
        join("tun-inbound-stack-", number.as_str())
    }

    /// The packet stack runs as a task, or it could not be run; then the network
    /// changes are undone.
    pub fn spawned(&mut self, task: Result<u64, &str>) -> (step: SpawnStep)
        ensures
            match task {
                Ok(task) => {
                    &&& step is Started
                    &&& *final(self) == (TunInbound { stack_task: Some(task), ..*old(self) })
                },
                Err(message) => match old(self).network_lease {
                    Some(lease) => {
                        &&& step == SpawnStep::Release(lease)
                        &&& *final(self) == (TunInbound { network_lease: None, ..*old(self) })
                    },
                    None => {
                        &&& step matches SpawnStep::Failed(error) && error.message@ == message@
                        &&& *final(self) == (TunInbound { started: false, ..*old(self) })
                    },
                },
            },
            *final(self) == old(self).after_spawn(
                match task {
                    Ok(task) => Some(task),
                    Err(_) => None,
                },
            ),
    {
        match task {
            Ok(task) => {
                self.stack_task = Some(task);
                SpawnStep::Started
            },
            Err(message) => match self.network_lease.take() {
                Some(lease) => SpawnStep::Release(lease),
                None => {
                    self.started = false;
                    SpawnStep::Failed(ServiceError { message: message.to_owned() })
                },
            },
        }
    }

    /// The network changes were undone after the packet stack could not be run,
    /// or could not be.
    pub fn rolled_back(&mut self, message: &str, released: Result<(), &str>) -> (error:
        ServiceError)
        ensures
            match released {
                Ok(()) => {
                    &&& error.message@ == message@
                    &&& *final(self) == (TunInbound { started: false, ..*old(self) })
                },
                Err(reason) => {
                    &&& error.message@ == message@ + "; network rollback failed: "@ + reason@
                    &&& *final(self) == *old(self)
                },
            },
            *final(self) == old(self).undone(released is Ok),
    {
        match released {
            Ok(()) => {
                self.started = false;
                ServiceError { message: message.to_owned() }
            },
            Err(reason) => {
                let head = join(message, "; network rollback failed: ");
                ServiceError { message: join(head.as_str(), reason) }
            },
        }
    }

    /// Stops: gives the task that is to be cancelled first.
    pub fn stop(&mut self) -> (task: Option<u64>)
        ensures
            task == old(self).stack_task,
            *final(self) == (TunInbound { started: false, stack_task: None, ..*old(self) }),
            *final(self) == old(self).halted(),
    {
        self.started = false;
        self.stack_task.take()
    }

    /// The task is gone: gives the network changes that are to be undone.
    pub fn stopped(&mut self) -> (lease: Option<NetworkLease>)
        ensures
            lease == old(self).network_lease,
            *final(self) == (TunInbound { network_lease: None, ..*old(self) }),
            *final(self) == old(self).without_changes(),
    {
        self.network_lease.take()
    }
}

/// What a service holds after it was started and its packet stack could not be
/// run: what it held before, but for the stack, once the changes are undone.
pub open spec fn after_failed_start(before: TunInbound) -> TunInbound {
    TunInbound { started: false, stack_ready: false, network_lease: None, ..before }
}

/// A start whose packet stack could not be run leaves no changes in force and
/// the service not started.
pub proof fn law_failed_start(
    before: TunInbound,
    begun: TunInbound,
    applied: TunInbound,
    spawned: TunInbound,
    ended: TunInbound,
    lease: NetworkLease,
)
    requires
        begun == (TunInbound { started: true, ..before }),
        applied == (TunInbound { network_lease: Some(lease), stack_ready: false, ..begun }),
        spawned == (TunInbound { network_lease: None, ..applied }),
        ended == (TunInbound { started: false, ..spawned }),
    ensures
        ended == after_failed_start(before),
{
}

/// Strict routes cover each family that the device has and leave the others
/// alone: of the routes, exactly one holds an address of such a family, and none
/// holds an address of another. Each is narrower than a default route.
pub proof fn law_strict_routes_cover(
    addresses: Seq<IpCidr>,
    includes: Seq<IpCidr>,
    address: IpModel,
    own: int,
)
    requires
        cidr_views(includes) == strict_routes(addresses),
        address.wf(),
        0 <= own < addresses.len(),
    ensures
        (addresses[own].address is V6) == (address is V6) ==> exists|i: int|
            0 <= i < includes.len() && contains(#[trigger] includes[i], address),
        forall|i: int, j: int|
            0 <= i < includes.len() && 0 <= j < includes.len() && contains(
                #[trigger] includes[i],
                address,
            ) && contains(#[trigger] includes[j], address) ==> i == j,
        (forall|i: int|
            0 <= i < addresses.len() ==> ((#[trigger] addresses[i]).address is V6) != (address
                is V6)) ==> forall|i: int|
            0 <= i < includes.len() ==> !contains(#[trigger] includes[i], address),
        forall|i: int| 0 <= i < includes.len() ==> (#[trigger] includes[i]).prefix_len > 0,
{
    let views = strict_routes(addresses);
    let v4 = any_of(addresses, false);
    let v6 = any_of(addresses, true);
    assert(includes.len() == views.len());
    assert forall|i: int| 0 <= i < includes.len() implies cidr_view(#[trigger] includes[i])
        == views[i] by {
        assert(cidr_views(includes)[i] == cidr_view(includes[i]));
    }
    let first = if v4 {
        2int
    } else {
        0int
    };
    if v4 {
        assert(cidr_view(includes[0]) == (block_start(false, 0), 1u8));
        assert(cidr_view(includes[1]) == (block_start(false, 128), 1u8));
        if !(address is V6) {
            law_halves(address, includes[0], includes[1]);
        }
    }
    if v6 {
        assert(cidr_view(includes[first]) == (block_start(true, 0), 1u8));
        assert(cidr_view(includes[first + 1]) == (block_start(true, 128), 1u8));
        if address is V6 {
            law_halves(address, includes[first], includes[first + 1]);
        }
    }
}

/// Default routes cover each family that the device has, each by one route that
/// holds every address of it, and leave the others alone.
pub proof fn law_default_routes_cover(
    addresses: Seq<IpCidr>,
    includes: Seq<IpCidr>,
    address: IpModel,
    own: int,
)
    requires
        cidr_views(includes) == default_routes(addresses),
        address.wf(),
        0 <= own < addresses.len(),
    ensures
        (addresses[own].address is V6) == (address is V6) ==> exists|i: int|
            0 <= i < includes.len() && contains(#[trigger] includes[i], address),
        forall|i: int, j: int|
            0 <= i < includes.len() && 0 <= j < includes.len() && contains(
                #[trigger] includes[i],
                address,
            ) && contains(#[trigger] includes[j], address) ==> i == j,
        (forall|i: int|
            0 <= i < addresses.len() ==> ((#[trigger] addresses[i]).address is V6) != (address
                is V6)) ==> forall|i: int|
            0 <= i < includes.len() ==> !contains(#[trigger] includes[i], address),
        forall|i: int| 0 <= i < includes.len() ==> (#[trigger] includes[i]).prefix_len == 0,
{
    let views = default_routes(addresses);
    let v4 = any_of(addresses, false);
    let v6 = any_of(addresses, true);
    assert(includes.len() == views.len());
    assert forall|i: int| 0 <= i < includes.len() implies cidr_view(#[trigger] includes[i])
        == views[i] by {
        assert(cidr_views(includes)[i] == cidr_view(includes[i]));
    }
    let first = if v4 {
        1int
    } else {
        0int
    };
    if v4 {
        assert(cidr_view(includes[0]) == (block_start(false, 0), 0u8));
        if !(address is V6) {
            assert(contains(includes[0], address));
        }
    }
    if v6 {
        assert(cidr_view(includes[first]) == (block_start(true, 0), 0u8));
        if address is V6 {
            assert(contains(includes[first], address));
        }
    }
}

/// Where the service sets routes, each block that it routes gets one route
/// through the device, in order and before anything else: the blocks that are
/// configured or, without any, the whole of the device's families.
pub proof fn law_planned_routes(config: TunInboundConfig, info: PacketDeviceInfo, at: int)
    requires
        config.auto_route,
        0 <= at < routes(config).len(),
    ensures
        at < planned(config, info).len(),
        planned(config, info)[at] matches OperationModel::AddRoute {
            destination,
            gateway,
            interface,
            metric,
        } && destination == routes(config)[at] && gateway is None && metric == Some(1u32)
            && interface == (match info.index {
            Some(index) => InterfaceModel::Index(index),
            None => InterfaceModel::Name(info.name@),
        }),
        config.route_includes@.len() > 0 ==> routes(config).len() == config.route_includes@.len()
            && routes(config)[at] == cidr_view(config.route_includes@[at]),
        config.route_includes@.len() == 0 ==> routes(config) == (if config.strict_route {
            strict_routes(config.addresses@)
        } else {
            default_routes(config.addresses@)
        }),
{
}

/// What is planned besides routes: the DNS servers of the device, where there
/// are any, the proxy of the platform, where there is one, and each block that
/// keeps its route; nothing where the service sets no routes.
pub proof fn law_planned_rest(config: TunInboundConfig, info: PacketDeviceInfo)
    ensures
        !config.auto_route ==> planned(config, info).len() == 0,
        config.auto_route ==> {
            let plan = planned(config, info);
            let servers = if config.dns_servers@.len() > 0 {
                1int
            } else {
                0int
            };
            let proxies = if config.platform_proxy is Some {
                1int
            } else {
                0int
            };
            let start = routes(config).len();
            let kept = start + servers + proxies;
            &&& plan.len() == kept + config.route_excludes@.len()
            &&& config.dns_servers@.len() > 0 ==> plan[start as int]
                == (OperationModel::SetInterfaceDns {
                interface: match info.index {
                    Some(index) => InterfaceModel::Index(index),
                    None => InterfaceModel::Name(info.name@),
                },
                servers: config.dns_servers@,
            })
            &&& config.platform_proxy matches Some(proxy) ==> plan[start + servers]
                == (OperationModel::SetPlatformHttpProxy {
                listen: proxy.listen@,
                bypass: texts(proxy.bypass@),
            })
            &&& forall|i: int|
                kept <= i < plan.len() ==> #[trigger] plan[i] == (OperationModel::PreserveRoute {
                    destination: (
                        config.route_excludes@[i - kept].address@,
                        config.route_excludes@[i - kept].prefix_len,
                    ),
                })
        },
{
    if config.auto_route {
        let plan = planned(config, info);
        let servers = if config.dns_servers@.len() > 0 {
            1int
        } else {
            0int
        };
        let proxies = if config.platform_proxy is Some {
            1int
        } else {
            0int
        };
        let kept = routes(config).len() + servers + proxies;
        let excludes = cidr_views(config.route_excludes@).map_values(
            |destination: (IpModel, u8)| OperationModel::PreserveRoute { destination },
        );
        assert forall|i: int| kept <= i < plan.len() implies #[trigger] plan[i]
            == (OperationModel::PreserveRoute {
            destination: (
                config.route_excludes@[i - kept].address@,
                config.route_excludes@[i - kept].prefix_len,
            ),
        }) by {
            assert(plan[i] == excludes[i - kept]);
            assert(cidr_views(config.route_excludes@)[i - kept] == cidr_view(
                config.route_excludes@[i - kept],
            ));
        }
    }
}

/// A service that was started and whose stack runs holds its changes and its
/// task until it is stopped; then neither is left, and it can be told that it is
/// not started. Its configuration never changes.
pub proof fn law_started_and_stopped(before: TunInbound, lease: NetworkLease, task: u64)
    ensures
        ({
            let running = before.begun().with_changes(lease).after_spawn(Some(task));
            let ended = running.halted().without_changes();
            &&& running.started
            &&& running.network_lease == Some(lease)
            &&& running.stack_task == Some(task)
            &&& !running.stack_ready
            &&& running.id == before.id && running.config == before.config
            &&& !ended.started
            &&& ended.network_lease is None
            &&& ended.stack_task is None
            &&& ended.id == before.id && ended.config == before.config
        }),
{
}

/// A start whose stack could not be run leaves no changes in force. The service
/// counts as not started once they are undone, and as started where they could
/// not be; without changes there is nothing to undo.
pub proof fn law_spawn_failed(before: TunInbound, lease: NetworkLease)
    ensures
        ({
            let failed = before.begun().with_changes(lease).after_spawn(None);
            &&& failed.network_lease is None
            &&& failed.stack_task == before.stack_task
            &&& !failed.undone(true).started
            &&& failed.undone(false).started
            &&& failed.undone(true) == after_failed_start(before)
        }),
        before.network_lease is None ==> !before.begun().after_spawn(None).started,
{
}

/// The device that is opened has the name, the addresses, the packet size and the
/// modes that are configured.
pub proof fn law_device(device: PacketDeviceConfig, config: TunInboundConfig)
    requires
        is_device_of(device, config),
    ensures
        device.name is Some <==> config.interface_name is Some,
        config.interface_name matches Some(name) ==> device.name->0@ == name@,
        device.addresses@ == config.addresses@,
        device.mtu == config.mtu,
        device.route_mode == config.route_mode && device.dns_mode == config.dns_mode,
{
}

/// Whether one of some operations routes a block that holds an address through a
/// device.
pub open spec fn routed(
    plan: Seq<OperationModel>,
    interface: InterfaceModel,
    address: IpModel,
) -> bool {
    exists|i: int, cidr: IpCidr|
        {
            &&& 0 <= i < plan.len()
            &&& #[trigger] plan[i] == (OperationModel::AddRoute {
                destination: (cidr.address@, cidr.prefix_len),
                gateway: None,
                interface,
                metric: Some(1),
            })
            &&& #[trigger] contains(cidr, address)
        }
}

/// Where the service sets the routes and none are configured, strict or not,
/// every address of a family that the device has is routed through the device.
pub proof fn law_plan_covers(
    config: TunInboundConfig,
    info: PacketDeviceInfo,
    address: IpModel,
    own: int,
)
    requires
        config.auto_route,
        config.route_includes@.len() == 0,
        address.wf(),
        0 <= own < config.addresses@.len(),
        (config.addresses@[own].address is V6) == (address is V6),
    ensures
        routed(
            planned(config, info),
            match info.index {
                Some(index) => InterfaceModel::Index(index),
                None => InterfaceModel::Name(info.name@),
            },
            address,
        ),
{
    let v6 = address is V6;
    let plan = planned(config, info);
    let all = routes(config);
    let v4_too = any_of(config.addresses@, false);
    assert(any_of(config.addresses@, v6));
    let first = if v6 && v4_too {
        if config.strict_route {
            2int
        } else {
            1int
        }
    } else {
        0int
    };
    if config.strict_route {
        let lower = lemma_block(v6, 0, 1);
        let upper = lemma_block(v6, 128, 1);
        assert(all[first] == cidr_view(lower));
        assert(all[first + 1] == cidr_view(upper));
        law_halves(address, lower, upper);
        law_planned_routes(config, info, first);
        law_planned_routes(config, info, first + 1);
        if contains(lower, address) {
            assert(plan[first] == route_through(interface_of(info), cidr_view(lower)));
        } else {
            assert(contains(upper, address));
            assert(plan[first + 1] == route_through(interface_of(info), cidr_view(upper)));
        }
    } else {
        let whole = lemma_block(v6, 0, 0);
        assert(all[first] == cidr_view(whole));
        law_planned_routes(config, info, first);
        assert(contains(whole, address));
        assert(plan[first] == route_through(interface_of(info), cidr_view(whole)));
    }
}

proof fn lemma_block(v6: bool, first: u8, prefix_len: u8) -> (cidr: IpCidr)
    ensures
        cidr_view(cidr) == (block_start(v6, first), prefix_len),
{
    if v6 {
        let octets = [first, 0u8, 0, 0, 0, 0, 0, 0, 0, 0, 0, 0, 0, 0, 0, 0];
        assert(octets@ =~= Seq::new(16, |i: int| if i == 0 { first } else { 0u8 }));
        IpCidr { address: IpAddress::V6(octets), prefix_len }
    } else {
        let octets = [first, 0u8, 0, 0];
        assert(octets@ =~= Seq::new(4, |i: int| if i == 0 { first } else { 0u8 }));
        IpCidr { address: IpAddress::V4(octets), prefix_len }
    }
}

} // verus!
