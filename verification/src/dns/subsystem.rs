//! The whole of DNS: rules, caches, pools and the memory of answers put
//! together.
use crate::dns::cache::{is_entry, kept, CachedResponse, CachingResolver, LATEST};
use crate::dns::fake_ip::{block_fits, FakeAnswer, FakeIpAllocator, FakeModel};
use crate::dns::model::{
    ActionModel, DnsConfig, DnsError, DnsQuery, DnsResponse, DnsRuleAction, DnsServerConfig,
    FakeIpConfig, QueryModel, ResponseModel,
};
use crate::dns::resolver::{chosen, RuleBasedResolver};
use crate::dns::reverse::{addresses, recorded, ReverseDns};
use crate::dns::transport::{server_fault, HickoryTransport};
use crate::table::Table;
use crate::text::join;
use vstd::prelude::*;

verus! {

/// How many addresses are led back to their domains.
pub const REVERSE_CAPACITY: usize = 4096;

/// The assembled subsystem.
#[derive(Clone, Debug)]
pub struct DnsSubsystem {
    pub rules: RuleBasedResolver,
    pub cache: CachingResolver,
    pub fake_ip: Option<FakeIpAllocator>,
    pub reverse: ReverseDns,
    pub transports: Table<String, HickoryTransport>,
}

/// The server for queries that no rule takes; `None` where there is no server.
pub open spec fn final_server(config: DnsConfig) -> Option<Seq<char>> {
    match config.final_server {
        Some(server) => Some(server@),
        None => if config.servers@.len() > 0 {
            Some(config.servers@[0].id@)
        } else {
            None
        },
    }
}

/// What is said of the first server that is refused; `None` where all are
/// accepted.
pub open spec fn servers_fault(servers: Seq<DnsServerConfig>) -> Option<Seq<char>>
    decreases servers.len(),
{
    if servers.len() == 0 {
        None
    } else {
        match server_fault(servers[0]) {
            Some(fault) => Some(fault),
            None => servers_fault(servers.skip(1)),
        }
    }
}

/// Whether a server is configured under an identifier.
pub open spec fn has_server(servers: Seq<DnsServerConfig>, id: Seq<char>) -> bool {
    exists|i: int| 0 <= i < servers.len() && (#[trigger] servers[i]).id@ == id
}

/// Whether a pool cannot be made of a configuration.
pub open spec fn pool_refused(config: Option<FakeIpConfig>) -> bool {
    config matches Some(pools) && pools.enabled && (!block_fits(pools.ipv4_pool) || (
    pools.ipv6_pool matches Some(block) && !block_fits(block)))
}

/// Why a configuration is refused; `None` where it is not.
pub open spec fn config_fault(config: DnsConfig) -> Option<Seq<char>> {
    match final_server(config) {
        None => Some("DNS needs at least one server or final_server"@),
        Some(server) => match servers_fault(config.servers@) {
            Some(fault) => Some(fault),
            None => if !has_server(config.servers@, server) {
                Some("unknown final DNS server `"@ + server + "`"@)
            } else if pool_refused(config.fake_ip) {
                Some("FakeIP pool must contain at least two usable addresses"@)
            } else {
                None
            },
        },
    }
}

/// The last of the servers that are configured under an identifier.
pub open spec fn server_under(servers: Seq<DnsServerConfig>, id: Seq<char>) -> DnsServerConfig
    decreases servers.len(),
{
    if servers.len() == 0 {
        arbitrary()
    } else if servers.last().id@ == id {
        servers.last()
    } else {
        server_under(servers.drop_last(), id)
    }
}

/// Whether a table holds the servers under their identifiers, none of them
/// with sockets from outside unless `injected` says so.
pub open spec fn holds_servers(
    transports: Map<Seq<char>, HickoryTransport>,
    servers: Seq<DnsServerConfig>,
    injected: spec_fn(Seq<char>) -> bool,
) -> bool {
    &&& forall|id: Seq<char>| #[trigger]
        transports.dom().contains(id) <==> has_server(servers, id)
    &&& forall|id: Seq<char>| #[trigger]
        transports.dom().contains(id) ==> transports[id].server == server_under(servers, id)
            && transports[id].injected == injected(id)
}

/// Whether an identifier is listed.
pub open spec fn listed(ids: Seq<String>, id: Seq<char>) -> bool {
    exists|i: int| 0 <= i < ids.len() && (#[trigger] ids[i])@ == id
}

fn is_listed(ids: &Vec<String>, id: &str) -> (yes: bool)
    ensures
        yes == listed(ids@, id@),
{
    for i in 0..ids.len()
        invariant
            forall|j: int| 0 <= j < i ==> (#[trigger] ids@[j])@ != id@,
    {
        if crate::text::same_text(ids[i].as_str(), id) {
            assert(ids@[i as int]@ == id@);
            return true;
        }
    }
    false
}

fn make_transports(servers: Vec<DnsServerConfig>, sockets: &Vec<String>) -> (made: Result<
    Table<String, HickoryTransport>,
    DnsError,
>)
    ensures
        match servers_fault(servers@) {
            None => made matches Ok(table) && table.wf() && holds_servers(
                table@,
                servers@,
                |id: Seq<char>| listed(sockets@, id),
            ),
            Some(fault) => made matches Err(error) && error.message@ == fault,
        },
{
    let mut table: Table<String, HickoryTransport> = Table::new();
    let ghost injected = |id: Seq<char>| listed(sockets@, id);
    assert(servers@.skip(0) =~= servers@);
    let ghost all = servers@;
    let mut rest = servers;
    let ghost mut i: int = 0;
    while rest.len() > 0
        invariant
            table.wf(),
            injected == (|id: Seq<char>| listed(sockets@, id)),
            0 <= i <= all.len(),
            all == servers@,
            rest@ == all.skip(i),
            holds_servers(table@, all.take(i), injected),
            servers_fault(all.skip(i)) == servers_fault(all),
        decreases rest@.len(),
    {
        assert(all.skip(i).skip(1) =~= all.skip(i + 1));
        let server = rest.remove(0);
        assert(rest@ =~= all.skip(i + 1));
        assert(server == all[i]);
        let id = server.id.clone();
        match HickoryTransport::new(server) {
            Err(error) => return Err(error),
            Ok(transport) => {
                let transport = if is_listed(sockets, id.as_str()) {
                    transport.with_socket_provider()
                } else {
                    transport
                };
                let ghost before = table@;
                table.insert(id, transport);
                proof {
                    let head = all.take(i);
                    let next = all.take(i + 1);
                    assert(next.drop_last() =~= head);
                    assert(next.last() == all[i]);
                    assert forall|other: Seq<char>| #[trigger]
                        table@.dom().contains(other) <==> has_server(next, other) by {
                        if has_server(head, other) {
                            let j = choose|j: int| 0 <= j < head.len() && (#[trigger] head[j]).id@ == other;
                            assert(next[j] == head[j]);
                        }
                        if has_server(next, other) {
                            let j = choose|j: int| 0 <= j < next.len() && (#[trigger] next[j]).id@ == other;
                            if j < i {
                                assert(head[j] == next[j]);
                            }
                        }
                        assert(next[i].id@ == id@);
                        assert(before.dom().contains(other) <==> has_server(head, other));
                    }
                    assert forall|other: Seq<char>| #[trigger]
                        table@.dom().contains(other) implies table@[other].server == server_under(
                        next,
                        other,
                    ) && table@[other].injected == injected(other) by {
                        if other != id@ {
                            assert(before.dom().contains(other));
                        }
                    }
                }
            },
        }
        proof {
            i = i + 1;
        }
    }
    assert(all.take(all.len() as int) =~= all);
    Ok(table)
}

/// What follows a query.
pub enum DnsStep {
    /// The answer was known.
    Known(DnsResponse),
    /// A server is to be asked.
    Ask(String),
    /// The answer was made here; the pools are to be saved first where `save`
    /// is set.
    Made { response: DnsResponse, save: bool },
}

/// The same over plain values.
pub enum StepModel {
    Known(ResponseModel),
    Ask(Seq<char>),
    Made { response: ResponseModel, save: bool },
    Failed(Seq<char>),
}

/// What comes of a query, over plain values.
pub open spec fn step_view(step: Result<DnsStep, DnsError>) -> StepModel {
    match step {
        Ok(DnsStep::Known(response)) => StepModel::Known(response@),
        Ok(DnsStep::Ask(server)) => StepModel::Ask(server@),
        Ok(DnsStep::Made { response, save }) => StepModel::Made { response: response@, save },
        Err(error) => StepModel::Failed(error.message@),
    }
}

/// A response without anything in it.
pub open spec fn nothing() -> ResponseModel {
    ResponseModel { answers: Seq::empty(), records: Seq::empty() }
}

impl DnsSubsystem {
    pub open spec fn wf(self) -> bool {
        &&& self.cache.wf()
        &&& self.cache.min_ttl_seconds <= self.cache.max_ttl_seconds
        &&& self.reverse.wf()
        &&& self.transports.wf()
        &&& self.fake_ip matches Some(pools) ==> pools.wf()
    }

    /// What follows a query at a time.
    pub open spec fn step_of(self, query: QueryModel, now: u64) -> StepModel {
        match self.cache.known(query, now) {
            Some(response) => StepModel::Known(response),
            None => match chosen(self.rules.rules@, self.rules.final_server@, query) {
                ActionModel::Server(server) => self.ask_of(server),
                ActionModel::Reject => StepModel::Made { response: nothing(), save: false },
                ActionModel::FakeIp => match self.fake_ip {
                    None => StepModel::Failed("DNS rule selected fake-ip but it is disabled"@),
                    Some(pools) => match pools.outcome(pools.state@, query).0 {
                        FakeModel::Failed(message) => StepModel::Failed(message),
                        FakeModel::Empty => StepModel::Made { response: nothing(), save: false },
                        FakeModel::Answer { address, fresh } => StepModel::Made {
                            response: crate::dns::fake_ip::one_address(address, pools.ttl_seconds),
                            save: fresh,
                        },
                    },
                },
            },
        }
    }

    /// Whether a server is known that is to be asked.
    pub open spec fn ask_of(self, server: Seq<char>) -> StepModel {
        if self.transports@.dom().contains(server) {
            StepModel::Ask(server)
        } else {
            StepModel::Failed("unknown DNS server `"@ + server + "`"@)
        }
    }

    /// Whether a query takes an address out of the pools.
    pub open spec fn takes_address(self, query: QueryModel, now: u64) -> bool {
        self.cache.known(query, now) is None && chosen(
            self.rules.rules@,
            self.rules.final_server@,
            query,
        ) is FakeIp
    }

    /// Whether this is what a configuration asks for, with nothing learned yet.
    pub open spec fn built(self, config: DnsConfig, injected: spec_fn(Seq<char>) -> bool) -> bool {
        &&& self.rules.rules == config.rules
        &&& Some(self.rules.final_server@) == final_server(config)
        &&& self.cache.wf()
        &&& self.cache.enabled == config.cache.enabled
        &&& self.cache.max_entries == config.cache.max_entries
        &&& self.cache.min_ttl_seconds == config.cache.min_ttl_seconds
        &&& self.cache.max_ttl_seconds == config.cache.max_ttl_seconds
        &&& self.cache.entries@ == Map::<QueryModel, CachedResponse>::empty()
        &&& self.reverse.wf()
        &&& self.reverse.capacity == REVERSE_CAPACITY
        &&& self.reverse.memory().dom().len() == 0
        &&& self.transports.wf()
        &&& holds_servers(self.transports@, config.servers@, injected)
        &&& match config.fake_ip {
            Some(pools) => if pools.enabled {
                self.fake_ip matches Some(made) && made.wf() && made.ipv4.is_of(pools.ipv4_pool)
                    && made.ttl_seconds == pools.ttl_seconds && made.state_file
                    == pools.state_file && (match pools.ipv6_pool {
                    Some(block) => made.ipv6 matches Some(pool) && pool.is_of(block),
                    None => made.ipv6 is None,
                }) && made.state@ == crate::dns::fake_ip::StateModel::empty()
            } else {
                self.fake_ip is None
            },
            None => self.fake_ip is None,
        }
    }

    /// Puts the subsystem together.
    pub fn from_config(config: DnsConfig) -> (made: Result<DnsSubsystem, DnsError>)
        requires
            config.fake_ip matches Some(pools) ==> pools.ipv4_pool.wf() && (
            pools.ipv6_pool matches Some(block) ==> block.wf()),
        ensures
            match config_fault(config) {
                Some(fault) => made matches Err(error) && error.message@ == fault,
                None => made matches Ok(dns) && dns.built(config, |id: Seq<char>| false),
            },
    {
        let sockets: Vec<String> = Vec::new();
        let made = DnsSubsystem::from_config_with_sockets(config, &sockets);
        assert((|id: Seq<char>| listed(sockets@, id)) =~= (|id: Seq<char>| false));
        made
    }

    /// Puts the subsystem together. The servers in `sockets` are reached by
    /// sockets that are supplied.
    pub fn from_config_with_sockets(config: DnsConfig, sockets: &Vec<String>) -> (made: Result<
        DnsSubsystem,
        DnsError,
    >)
        requires
            config.fake_ip matches Some(pools) ==> pools.ipv4_pool.wf() && (
            pools.ipv6_pool matches Some(block) ==> block.wf()),
        ensures
            match config_fault(config) {
                Some(fault) => made matches Err(error) && error.message@ == fault,
                None => made matches Ok(dns) && dns.built(
                    config,
                    |id: Seq<char>| listed(sockets@, id),
                ),
            },
    {
        let final_server = match config.final_server {
            Some(server) => server,
            None => {
                if config.servers.len() == 0 {
                    return Err(DnsError::new("DNS needs at least one server or final_server"));
                }
                config.servers[0].id.clone()
            },
        };
        let transports = match make_transports(config.servers, sockets) {
            Ok(transports) => transports,
            Err(error) => return Err(error),
        };
        if !transports.contains(&final_server) {
            let head = join("unknown final DNS server `", final_server.as_str());
            return Err(DnsError { message: join(head.as_str(), "`") });
        }
        let fake_ip = match config.fake_ip {
            Some(pools) => {
                if pools.enabled {
                    match FakeIpAllocator::new(pools) {
                        Ok(pools) => Some(pools),
                        Err(error) => return Err(error),
                    }
                } else {
                    None
                }
            },
            None => None,
        };
        Ok(
            DnsSubsystem {
                rules: RuleBasedResolver { rules: config.rules, final_server },
                cache: CachingResolver::new(config.cache),
                fake_ip,
                reverse: ReverseDns::new(REVERSE_CAPACITY),
                transports,
            },
        )
    }

    /// What follows a query. What was known is remembered for its addresses.
    pub fn resolve(&mut self, query: &DnsQuery, now: u64) -> (step: Result<DnsStep, DnsError>)
        requires
            old(self).wf(),
            now <= LATEST,
        ensures
            final(self).wf(),
            final(self).rules == old(self).rules,
            final(self).cache == old(self).cache,
            final(self).transports == old(self).transports,
            step_view(step) == old(self).step_of(query@, now),
            match old(self).step_of(query@, now) {
                StepModel::Known(response) => {
                    &&& final(self).reverse.capacity == old(self).reverse.capacity
                    &&& old(self).reverse.capacity == 0 ==> final(self).reverse.memory() == old(
                        self,
                    ).reverse.memory()
                    &&& old(self).reverse.capacity > 0 ==> recorded(
                        old(self).reverse.memory(),
                        final(self).reverse.memory(),
                        old(self).reverse.capacity as nat,
                        query.name@,
                        crate::dns::reverse::address_views(response.answers),
                        now,
                    )
                },
                _ => final(self).reverse == old(self).reverse,
            },
            match old(self).fake_ip {
                Some(pools) => final(self).fake_ip matches Some(after) && after.same_pools(pools)
                    && after.state@ == (if old(self).takes_address(query@, now) {
                    pools.outcome(pools.state@, query@).1
                } else {
                    pools.state@
                }),
                None => final(self).fake_ip is None,
            },
    {
        if let Some(response) = self.cache.resolve(query, now) {
            self.reverse.record_answers(query.name.as_str(), &response.answers, now);
            return Ok(DnsStep::Known(response));
        }
        match self.rules.resolve(query) {
            DnsRuleAction::Server(server) => {
                if self.transports.contains(&server) {
                    Ok(DnsStep::Ask(server))
                } else {
                    Err(unknown_server(server.as_str()))
                }
            },
            DnsRuleAction::Reject => Ok(
                DnsStep::Made { response: DnsResponse::empty(), save: false },
            ),
            DnsRuleAction::FakeIp => match self.fake_ip.take() {
                None => Err(DnsError::new("DNS rule selected fake-ip but it is disabled")),
                Some(pools) => {
                    let mut pools = pools;
                    let answer = pools.resolve(query);
                    self.fake_ip = Some(pools);
                    match answer {
                        Ok(FakeAnswer { response, changed }) => Ok(
                            DnsStep::Made { response, save: changed },
                        ),
                        Err(error) => Err(error),
                    }
                },
            },
        }
    }

    /// A query that was not known was answered: the answer is kept, and
    /// remembered for its addresses.
    pub fn answered(&mut self, query: &DnsQuery, response: &DnsResponse, now: u64)
        requires
            old(self).wf(),
            now <= LATEST,
        ensures
            final(self).wf(),
            final(self).rules == old(self).rules,
            final(self).fake_ip == old(self).fake_ip,
            final(self).transports == old(self).transports,
            final(self).cache.same_limits(old(self).cache),
            old(self).cache.keeps(response@) ==> exists|entry: CachedResponse|
                {
                    &&& #[trigger] is_entry(
                        entry,
                        response@,
                        now,
                        old(self).cache.lifetime(response@),
                    )
                    &&& kept(
                        old(self).cache.entries@,
                        final(self).cache.entries@,
                        old(self).cache.max_entries as nat,
                        query@,
                        entry,
                    )
                },
            !old(self).cache.keeps(response@) ==> final(self).cache.entries@
                == old(self).cache.entries@,
            final(self).reverse.capacity == old(self).reverse.capacity,
            old(self).reverse.capacity == 0 ==> final(self).reverse.memory() == old(
                self,
            ).reverse.memory(),
            old(self).reverse.capacity > 0 ==> recorded(
                old(self).reverse.memory(),
                final(self).reverse.memory(),
                old(self).reverse.capacity as nat,
                query.name@,
                addresses(response.answers@),
                now,
            ),
    {
        self.cache.answered(query.duplicate(), response, now);
        self.reverse.record_answers(query.name.as_str(), &response.answers, now);
    }

    /// The server that is asked by name.
    pub fn resolve_with_server(&self, server: &String) -> (found: Result<&HickoryTransport, DnsError>)
        requires
            self.transports.wf(),
        ensures
            match found {
                Ok(transport) => self.transports@.dom().contains(server@)
                    && self.transports@[server@] == *transport,
                Err(error) => !self.transports@.dom().contains(server@) && error.message@
                    == "unknown DNS server `"@ + server@ + "`"@,
            },
    {
        match self.transports.get(server) {
            Some(transport) => Ok(transport),
            None => Err(unknown_server(server.as_str())),
        }
    }
}

fn unknown_server(server: &str) -> (error: DnsError)
    ensures
        error.message@ == "unknown DNS server `"@ + server@ + "`"@,
{
    let head = join("unknown DNS server `", server);
    DnsError { message: join(head.as_str(), "`") }
}

/// An answer that is kept is known to the next query of the same name and kind,
/// until it expires.
pub proof fn law_known_after_answer(
    before: DnsSubsystem,
    after: DnsSubsystem,
    query: QueryModel,
    response: ResponseModel,
    entry: CachedResponse,
    now: u64,
    later: u64,
)
    requires
        before.cache.keeps(response),
        after.cache.same_limits(before.cache),
        is_entry(entry, response, now, before.cache.lifetime(response)),
        kept(
            before.cache.entries@,
            after.cache.entries@,
            before.cache.max_entries as nat,
            query,
            entry,
        ),
        later < now + before.cache.lifetime(response) * crate::dns::cache::SECOND,
    ensures
        after.step_of(query, later) == StepModel::Known(response),
{
    crate::dns::cache::law_reused(
        before.cache,
        after.cache,
        query,
        response,
        entry,
        now,
        later,
    );
}

/// What is known is given back whatever the rules say. What is not known goes
/// where the rules send it: to a server that is configured, to the pools of
/// made-up addresses, or nowhere, which is answered with nothing.
pub proof fn law_step(dns: DnsSubsystem, query: QueryModel, now: u64)
    ensures
        ({
            let step = dns.step_of(query, now);
            match dns.cache.known(query, now) {
                Some(response) => step == StepModel::Known(response),
                None => match chosen(dns.rules.rules@, dns.rules.final_server@, query) {
                    ActionModel::Server(server) => if dns.transports@.dom().contains(server) {
                        step == StepModel::Ask(server)
                    } else {
                        step is Failed
                    },
                    ActionModel::Reject => step matches StepModel::Made { response, save } && !save
                        && response.answers.len() == 0 && response.records.len() == 0,
                    ActionModel::FakeIp => match dns.fake_ip {
                        None => step is Failed,
                        Some(pools) => match pools.outcome(pools.state@, query).0 {
                            FakeModel::Failed(message) => step == StepModel::Failed(message),
                            FakeModel::Empty => step matches StepModel::Made { response, save }
                                && !save && response.answers.len() == 0,
                            FakeModel::Answer { address, fresh } => step matches StepModel::Made {
                                response,
                                save,
                            } && save == fresh && response.answers.len() == 1
                                && response.answers[0] == (
                                crate::types::HostModel::Ip(address),
                                pools.ttl_seconds,
                            ) && response.records.len() == 0,
                        },
                    },
                },
            }
        }),
{
}

/// A configuration is accepted where it has a server for what no rule takes,
/// which is one of its servers, where each of its servers is accepted, and where
/// its pools, if they are enabled, have room.
pub proof fn law_config_accepted(config: DnsConfig)
    ensures
        config_fault(config) is None <==> {
            &&& config.final_server is Some || config.servers@.len() > 0
            &&& forall|i: int|
                0 <= i < config.servers@.len() ==> server_fault(#[trigger] config.servers@[i])
                    is None
            &&& exists|i: int|
                0 <= i < config.servers@.len() && (#[trigger] config.servers@[i]).id@ == (
                match config.final_server {
                    Some(server) => server@,
                    None => config.servers@[0].id@,
                })
            &&& config.fake_ip matches Some(pools) ==> pools.enabled ==> block_fits(pools.ipv4_pool)
                && (pools.ipv6_pool matches Some(block) ==> block_fits(block))
        },
        config_fault(config) is None && config.final_server is None ==> final_server(config)
            == Some(config.servers@[0].id@),
        config.final_server matches Some(server) ==> final_server(config) == Some(server@),
{
    lemma_servers_accepted(config.servers@);
}

proof fn lemma_servers_accepted(servers: Seq<DnsServerConfig>)
    ensures
        servers_fault(servers) is None <==> forall|i: int|
            0 <= i < servers.len() ==> server_fault(#[trigger] servers[i]) is None,
    decreases servers.len(),
{
    if servers.len() > 0 {
        let rest = servers.skip(1);
        lemma_servers_accepted(rest);
        if servers_fault(servers) is None {
            assert forall|i: int| 0 <= i < servers.len() implies server_fault(
                #[trigger] servers[i],
            ) is None by {
                if i > 0 {
                    assert(rest[i - 1] == servers[i]);
                }
            }
        } else if forall|i: int|
            0 <= i < servers.len() ==> server_fault(#[trigger] servers[i]) is None {
            assert(server_fault(servers[0]) is None);
            assert forall|i: int| 0 <= i < rest.len() implies server_fault(
                #[trigger] rest[i],
            ) is None by {
                assert(rest[i] == servers[i + 1]);
            }
        }
    }
}

/// Of servers with the same identifier the last is the one that is asked, and
/// the memory of answers has room for 4096 addresses.
pub proof fn law_last_server(servers: Seq<DnsServerConfig>, id: Seq<char>, at: int)
    requires
        0 <= at < servers.len(),
        servers[at].id@ == id,
        forall|i: int| at < i < servers.len() ==> (#[trigger] servers[i]).id@ != id,
    ensures
        server_under(servers, id) == servers[at],
        REVERSE_CAPACITY == 4096,
    decreases servers.len(),
{
    if at < servers.len() - 1 {
        assert(servers[servers.len() - 1].id@ != id);
        assert forall|i: int| at < i < servers.drop_last().len() implies (
        #[trigger] servers.drop_last()[i]).id@ != id by {
            assert(servers.drop_last()[i] == servers[i]);
        }
        law_last_server(servers.drop_last(), id, at);
    }
}

/// A new subsystem knows nothing: every query goes by the rules. It asks the
/// servers that are configured, each by its own configuration, keeps answers
/// within the limits that are configured, and makes up addresses only where that
/// is enabled.
pub proof fn law_new_subsystem(
    dns: DnsSubsystem,
    config: DnsConfig,
    injected: spec_fn(Seq<char>) -> bool,
    query: QueryModel,
    now: u64,
    at: int,
)
    requires
        dns.built(config, injected),
        0 <= at < config.servers@.len(),
    ensures
        dns.cache.known(query, now) is None,
        !(dns.step_of(query, now) is Known),
        dns.rules.rules@ == config.rules@,
        config.final_server matches Some(server) ==> dns.rules.final_server@ == server@,
        dns.transports@.dom().contains(config.servers@[at].id@),
        dns.transports@[config.servers@[at].id@].injected == injected(config.servers@[at].id@),
        (forall|i: int|
            at < i < config.servers@.len() ==> (#[trigger] config.servers@[i]).id@
                != config.servers@[at].id@) ==> dns.transports@[config.servers@[at].id@].server
            == config.servers@[at],
        dns.cache.enabled == config.cache.enabled,
        dns.cache.max_entries == config.cache.max_entries,
        dns.cache.min_ttl_seconds == config.cache.min_ttl_seconds,
        dns.cache.max_ttl_seconds == config.cache.max_ttl_seconds,
        dns.reverse.capacity == 4096,
        dns.fake_ip is Some <==> config.fake_ip is Some && config.fake_ip->0.enabled,
        dns.fake_ip matches Some(pools) ==> pools.ttl_seconds == config.fake_ip->0.ttl_seconds,
{
    let id = config.servers@[at].id@;
    assert(has_server(config.servers@, id));
    assert(dns.transports@.dom().contains(id));
    if forall|i: int| at < i < config.servers@.len() ==> (#[trigger] config.servers@[i]).id@ != id {
        law_last_server(config.servers@, id, at);
    }
}

/// An address is taken out of the pools only for a query that is not known and
/// that a rule sends there; nothing is taken for one that was answered before.
pub proof fn law_takes_address(dns: DnsSubsystem, query: QueryModel, now: u64)
    ensures
        dns.cache.known(query, now) is Some ==> !dns.takes_address(query, now),
        dns.takes_address(query, now) ==> !(dns.step_of(query, now) is Known) && !(dns.step_of(
            query,
            now,
        ) is Ask),
        dns.cache.known(query, now) is None && chosen(
            dns.rules.rules@,
            dns.rules.final_server@,
            query,
        ) is FakeIp ==> dns.takes_address(query, now),
{
}

} // verus!
