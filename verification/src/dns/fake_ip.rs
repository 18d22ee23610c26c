//! Addresses that stand for names: handed out of a pool, one for each name and
//! family, and led back to the name.
use crate::dns::model::{
    name_fault, normalized, DnsAnswer, DnsError, DnsName, DnsQuery, DnsRecordType, DnsResponse,
    FakeIpConfig, QueryModel, ResponseModel,
};
use crate::octets::{array16, array4, be_value};
use crate::table::{Key, Table};
use crate::types::{Host, HostModel, IpAddress, IpCidr, IpModel};
use vstd::prelude::*;

verus! {

/// Two to the power of `exponent`.
pub open spec fn power2(exponent: nat) -> nat
    decreases exponent,
{
    if exponent == 0 {
        1
    } else {
        2 * power2((exponent - 1) as nat)
    }
}

proof fn lemma_power2_add(left: nat, right: nat)
    ensures
        power2(left + right) == power2(left) * power2(right),
    decreases left,
{
    if left > 0 {
        lemma_power2_add((left - 1) as nat, right);
        let rest = power2((left - 1) as nat);
        let other = power2(right);
        assert(2 * (rest * other) == (2 * rest) * other) by (nonlinear_arith);
    } else {
        assert(1 * power2(right) == power2(right));
    }
}

proof fn lemma_power2_positive(exponent: nat)
    ensures
        power2(exponent) >= 1,
    decreases exponent,
{
    if exponent > 0 {
        lemma_power2_positive((exponent - 1) as nat);
    }
}

proof fn lemma_power2_grows(low: nat, high: nat)
    requires
        low <= high,
    ensures
        power2(low) <= power2(high),
    decreases high,
{
    if low < high {
        lemma_power2_grows(low, (high - 1) as nat);
    }
}

proof fn lemma_power2_known()
    ensures
        power2(2) == 4,
        power2(8) == 256,
        power2(32) == 0x1_0000_0000,
        power2(128) == 0x1_0000_0000_0000_0000_0000_0000_0000_0000,
{
    reveal_with_fuel(power2, 33);
    lemma_power2_add(32, 32);
    lemma_power2_add(64, 64);
    assert(0x1_0000_0000 * 0x1_0000_0000 == 0x1_0000_0000_0000_0000) by (nonlinear_arith);
    assert(0x1_0000_0000_0000_0000 * 0x1_0000_0000_0000_0000
        == 0x1_0000_0000_0000_0000_0000_0000_0000_0000) by (nonlinear_arith);
}

/// The low `count` bytes of a number, most significant first.
pub open spec fn be_bytes(value: nat, count: nat) -> Seq<u8>
    decreases count,
{
    if count == 0 {
        Seq::empty()
    } else {
        be_bytes(value / 256, (count - 1) as nat).push((value % 256) as u8)
    }
}

proof fn lemma_be_bytes(value: nat, count: nat)
    requires
        value < power2(8 * count),
    ensures
        be_bytes(value, count).len() == count,
        be_value(be_bytes(value, count)) == value,
    decreases count,
{
    if count > 0 {
        let less = (count - 1) as nat;
        lemma_power2_known();
        lemma_power2_add(8, 8 * less);
        assert(8 * count == 8 + 8 * less);
        assert(value / 256 < power2(8 * less)) by (nonlinear_arith)
            requires
                value < 256 * power2(8 * less),
        ;
        lemma_be_bytes(value / 256, less);
        assert(be_bytes(value, count).drop_last() =~= be_bytes(value / 256, less));
    }
}

proof fn lemma_be_value_bound(bytes: Seq<u8>)
    ensures
        be_value(bytes) < power2(8 * bytes.len()),
    decreases bytes.len(),
{
    if bytes.len() > 0 {
        let rest = bytes.drop_last();
        lemma_be_value_bound(rest);
        lemma_power2_known();
        lemma_power2_add(8, 8 * rest.len());
        assert(8 * bytes.len() == 8 + 8 * rest.len());
    }
}

/// Reads up to sixteen bytes as a number.
fn read_number(bytes: &[u8]) -> (value: u128)
    requires
        bytes@.len() <= 16,
    ensures
        value == be_value(bytes@),
{
    let mut value: u128 = 0;
    for i in 0..bytes.len()
        invariant
            bytes@.len() <= 16,
            value == be_value(bytes@.take(i as int)),
    {
        let ghost next = bytes@.take(i + 1);
        proof {
            assert(next.drop_last() =~= bytes@.take(i as int));
            lemma_be_value_bound(next);
            lemma_power2_grows(8 * next.len(), 128);
            lemma_power2_known();
        }
        value = value * 256 + bytes[i] as u128;
    }
    assert(bytes@.take(bytes@.len() as int) =~= bytes@);
    value
}

/// The low `count` bytes of a number.
fn write_number(value: u128, count: usize) -> (bytes: Vec<u8>)
    ensures
        bytes@ == be_bytes(value as nat, count as nat),
    decreases count,
{
    if count == 0 {
        return Vec::new();
    }
    let mut bytes = write_number(value / 256, count - 1);
    bytes.push((value % 256) as u8);
    bytes
}

/// Addresses of one family, one after the other.
#[derive(Clone, Copy, Debug)]
pub struct AddressPool {
    pub base: u128,
    pub usable: u128,
    pub family: u8,
}

/// The bits of an address.
pub open spec fn address_bits(address: IpAddress) -> nat {
    match address {
        IpAddress::V4(_) => 32,
        IpAddress::V6(_) => 128,
    }
}

/// The first number of a block.
pub open spec fn block_start(cidr: IpCidr) -> nat {
    let value = be_value(cidr.address@.octets());
    (value - value % power2((address_bits(cidr.address) - cidr.prefix_len) as nat)) as nat
}

/// How many numbers a block has.
pub open spec fn block_size(cidr: IpCidr) -> nat {
    power2((address_bits(cidr.address) - cidr.prefix_len) as nat)
}

/// Whether a block can be a pool.
pub open spec fn block_fits(cidr: IpCidr) -> bool {
    2 <= address_bits(cidr.address) - cidr.prefix_len < 128
}

impl AddressPool {
    /// The addresses lie within their family.
    pub open spec fn wf(self) -> bool {
        &&& self.usable >= 2
        &&& self.family == 4 || self.family == 6
        &&& self.base + self.usable <= power2(if self.family == 4 {
            32
        } else {
            128
        })
    }

    /// The pool of a block: every address but the first and the last.
    pub open spec fn is_of(self, cidr: IpCidr) -> bool {
        &&& self.base == block_start(cidr) + 1
        &&& self.usable == block_size(cidr) - 2
        &&& self.family == (if cidr.address is V4 {
            4u8
        } else {
            6u8
        })
    }

    /// The address at an offset; the pool begins again at its end.
    pub open spec fn address_of(self, offset: nat) -> IpModel {
        let value = (self.base + offset % (self.usable as nat)) as nat;
        if self.family == 4 {
            IpModel::V4(be_bytes(value, 4))
        } else {
            IpModel::V6(be_bytes(value, 16))
        }
    }

    pub fn new(cidr: IpCidr) -> (pool: Result<AddressPool, DnsError>)
        requires
            cidr.wf(),
        ensures
            match pool {
                Ok(pool) => block_fits(cidr) && pool.is_of(cidr) && pool.wf(),
                Err(error) => !block_fits(cidr) && error.message@
                    == "FakeIP pool must contain at least two usable addresses"@,
            },
    {
        let ghost octets = cidr.address@.octets();
        let (address, bits, family): (u128, u8, u8) = match &cidr.address {
            IpAddress::V4(octets) => (read_number(octets), 32, 4),
            IpAddress::V6(octets) => (read_number(octets), 128, 6),
        };
        let host_bits: u8 = bits - cidr.prefix_len;
        if host_bits < 2 || host_bits >= 128 {
            return Err(DnsError::new("FakeIP pool must contain at least two usable addresses"));
        }
        proof {
            lemma_power2_known();
        }
        let mut total: u128 = 1;
        for i in 0..host_bits
            invariant
                host_bits < 128,
                total == power2(i as nat),
        {
            proof {
                lemma_power2_known();
                lemma_power2_grows((i + 1) as nat, 127);
                assert(power2(128) == 2 * power2(127));
            }
            total = total * 2;
        }
        proof {
            lemma_power2_grows(2, host_bits as nat);
            lemma_be_value_bound(octets);
            lemma_block(address as nat, host_bits as nat, bits as nat);
        }
        let rest: u128 = address % total;
        assert(rest <= address) by {
            vstd::arithmetic::div_mod::lemma_mod_decreases(address as nat, total as nat);
        }
        Ok(AddressPool { base: address - rest + 1, usable: total - 2, family })
    }

    pub fn address_at(self, offset: u128) -> (address: IpAddress)
        requires
            self.wf(),
        ensures
            address@ == self.address_of(offset as nat),
    {
        proof {
            lemma_power2_known();
        }
        let value: u128 = self.base + offset % self.usable;
        if self.family == 4 {
            let bytes = write_number(value, 4);
            proof {
                lemma_be_bytes(value as nat, 4);
            }
            let octets = array4(bytes.as_slice(), 0);
            assert(octets@ =~= bytes@);
            IpAddress::V4(octets)
        } else {
            let bytes = write_number(value, 16);
            proof {
                lemma_be_bytes(value as nat, 16);
            }
            let octets = array16(bytes.as_slice(), 0);
            assert(octets@ =~= bytes@);
            IpAddress::V6(octets)
        }
    }

    pub fn next_offset(self, offset: u128) -> (next: u128)
        requires
            self.wf(),
            offset < u128::MAX,
        ensures
            next == (offset + 1) % (self.usable as int),
            next < self.usable,
    {
        (offset + 1) % self.usable
    }
}

proof fn lemma_block(value: nat, host_bits: nat, bits: nat)
    requires
        value < power2(bits),
        host_bits <= bits,
    ensures
        value - value % power2(host_bits) + power2(host_bits) <= power2(bits),
{
    let total = power2(host_bits);
    let count = power2((bits - host_bits) as nat);
    lemma_power2_positive(host_bits);
    lemma_power2_add((bits - host_bits) as nat, host_bits);
    let quotient = value / total;
    assert(value == total * quotient + value % total) by {
        vstd::arithmetic::div_mod::lemma_fundamental_div_mod(value as int, total as int);
    }
    assert(quotient < count) by (nonlinear_arith)
        requires
            value == total * quotient + value % total,
            value < count * total,
            value % total >= 0,
            total >= 1,
    ;
    assert(total * quotient + total <= count * total) by (nonlinear_arith)
        requires
            quotient + 1 <= count,
            total >= 1,
    ;
}

/// The names and addresses that were handed out.
#[derive(Clone, Debug)]
pub struct FakeIpState {
    pub by_name: Table<FamilyName, IpAddress>,
    pub by_ip: Table<IpAddress, String>,
    pub next_v4: u128,
    pub next_v6: u128,
}

/// A name and the family of the address that stands for it.
#[derive(Clone, Debug)]
pub struct FamilyName {
    pub name: DnsName,
    pub family: u8,
}

impl View for FamilyName {
    type V = (Seq<char>, u8);

    open spec fn view(&self) -> (Seq<char>, u8) {
        (self.name@, self.family)
    }
}

impl Key for FamilyName {
    fn same_key(&self, other: &FamilyName) -> (same: bool) {
        self.family == other.family && self.name.same_key(&other.name)
    }
}

/// What a [`FakeIpState`] holds.
#[verifier::ext_equal]
pub struct StateModel {
    pub by_name: Map<(Seq<char>, u8), IpModel>,
    pub by_ip: Map<IpModel, Seq<char>>,
    pub next_v4: nat,
    pub next_v6: nat,
}

impl FakeIpState {
    pub open spec fn wf(self) -> bool {
        self.by_name.wf() && self.by_ip.wf() && self.next_v4 < u128::MAX && self.next_v6
            < u128::MAX
    }

    pub open spec fn view(&self) -> StateModel {
        StateModel {
            by_name: self.by_name@.map_values(|address: IpAddress| address@),
            by_ip: self.by_ip@.map_values(|name: String| name@),
            next_v4: self.next_v4 as nat,
            next_v6: self.next_v6 as nat,
        }
    }

    pub fn new() -> (state: FakeIpState)
        ensures
            state.wf(),
            state@ == StateModel::empty(),
    {
        let state = FakeIpState {
            by_name: Table::new(),
            by_ip: Table::new(),
            next_v4: 0,
            next_v6: 0,
        };
        assert(state@ =~= StateModel::empty());
        state
    }

    /// Sets a name and its address.
    fn link(&mut self, name: DnsName, family: u8, address: IpAddress)
        requires
            old(self).wf(),
        ensures
            final(self).wf(),
            final(self)@ == old(self)@.link(name@, family, address@),
    {
        let text = name.0.clone();
        self.by_name.insert(FamilyName { name, family }, address);
        self.by_ip.insert(address, text);
        assert(self@ =~= old(self)@.link(name@, family, address@));
    }
}

impl StateModel {
    /// Nothing was handed out.
    pub open spec fn empty() -> StateModel {
        StateModel { by_name: Map::empty(), by_ip: Map::empty(), next_v4: 0, next_v6: 0 }
    }

    /// The state once a name has an address.
    pub open spec fn link(self, name: Seq<char>, family: u8, address: IpModel) -> StateModel {
        StateModel {
            by_name: self.by_name.insert((name, family), address),
            by_ip: self.by_ip.insert(address, name),
            ..self
        }
    }

    /// Whether every address that leads back to a name is the name's address.
    pub open spec fn consistent(self) -> bool {
        forall|ip: IpModel| #[trigger]
            self.by_ip.dom().contains(ip) ==> self.by_name.dom().contains(
                (self.by_ip[ip], family_of(ip)),
            ) && self.by_name[(self.by_ip[ip], family_of(ip))] == ip
    }
}

/// The family of an address.
pub open spec fn family_of(address: IpModel) -> u8 {
    match address {
        IpModel::V4(_) => 4,
        IpModel::V6(_) => 6,
    }
}

fn family(address: &IpAddress) -> (family: u8)
    ensures
        family == family_of(address@),
{
    match address {
        IpAddress::V4(_) => 4,
        IpAddress::V6(_) => 6,
    }
}

/// The pools and what was handed out of them.
#[derive(Clone, Debug)]
pub struct FakeIpAllocator {
    pub ipv4: AddressPool,
    pub ipv6: Option<AddressPool>,
    pub ttl_seconds: u32,
    pub state_file: Option<String>,
    pub state: FakeIpState,
}

/// What comes of a query.
#[verifier::ext_equal]
pub enum FakeModel {
    /// The query is refused.
    Failed(Seq<char>),
    /// There is nothing to answer.
    Empty,
    /// An address, and whether it was handed out just now.
    Answer { address: IpModel, fresh: bool },
}

/// A response, and whether the state changed, so that it is to be saved.
pub struct FakeAnswer {
    pub response: DnsResponse,
    pub changed: bool,
}

/// A response of one address.
pub open spec fn one_address(address: IpModel, ttl_seconds: u32) -> ResponseModel {
    ResponseModel { answers: seq![(HostModel::Ip(address), ttl_seconds)], records: Seq::empty() }
}

fn response(address: IpAddress, ttl_seconds: u32) -> (response: DnsResponse)
    ensures
        response@ == one_address(address@, ttl_seconds),
{
    let mut answers: Vec<DnsAnswer> = Vec::new();
    answers.push(DnsAnswer { host: Host::Ip(address), ttl_seconds });
    let response = DnsResponse { answers, records: Vec::new() };
    assert(response@ =~= one_address(address@, ttl_seconds));
    response
}

/// The address that a pool hands out for a name, and the state after it.
pub open spec fn handed_out(
    pool: AddressPool,
    family: u8,
    state: StateModel,
    name: Seq<char>,
) -> (FakeModel, StateModel) {
    if state.by_name.dom().contains((name, family)) {
        (FakeModel::Answer { address: state.by_name[(name, family)], fresh: false }, state)
    } else {
        let offset = if family == 4 {
            state.next_v4
        } else {
            state.next_v6
        };
        let address = pool.address_of(offset);
        let next = ((offset + 1) % (pool.usable as nat)) as nat;
        let linked = state.link(name, family, address);
        (
            FakeModel::Answer { address, fresh: true },
            if family == 4 {
                StateModel { next_v4: next, ..linked }
            } else {
                StateModel { next_v6: next, ..linked }
            },
        )
    }
}

impl FakeIpAllocator {
    pub open spec fn wf(self) -> bool {
        &&& self.ipv4.wf()
        &&& self.ipv6 matches Some(pool) ==> pool.wf()
        &&& self.state.wf()
    }

    /// The same pools and settings.
    pub open spec fn same_pools(self, other: FakeIpAllocator) -> bool {
        &&& self.ipv4 == other.ipv4
        &&& self.ipv6 == other.ipv6
        &&& self.ttl_seconds == other.ttl_seconds
        &&& self.state_file == other.state_file
    }

    /// What comes of a query in a state, and the state after it.
    pub open spec fn outcome(self, state: StateModel, query: QueryModel) -> (FakeModel, StateModel) {
        match query.record_type {
            DnsRecordType::A => handed_out(self.ipv4, 4, state, query.name),
            DnsRecordType::Aaaa => match self.ipv6 {
                Some(pool) => handed_out(pool, 6, state, query.name),
                None => (
                    FakeModel::Failed("FakeIP AAAA requested but ipv6_pool is not configured"@),
                    state,
                ),
            },
            _ => (FakeModel::Empty, state),
        }
    }

    pub fn new(config: FakeIpConfig) -> (made: Result<FakeIpAllocator, DnsError>)
        requires
            config.ipv4_pool.wf(),
            config.ipv6_pool matches Some(pool) ==> pool.wf(),
        ensures
            match made {
                Ok(allocator) => {
                    &&& allocator.wf()
                    &&& block_fits(config.ipv4_pool)
                    &&& allocator.ipv4.is_of(config.ipv4_pool)
                    &&& match config.ipv6_pool {
                        Some(block) => block_fits(block) && (allocator.ipv6 matches Some(pool)
                            && pool.is_of(block)),
                        None => allocator.ipv6 is None,
                    }
                    &&& allocator.ttl_seconds == config.ttl_seconds
                    &&& allocator.state_file == config.state_file
                    &&& allocator.state@ == StateModel::empty()
                },
                Err(error) => {
                    &&& error.message@ == "FakeIP pool must contain at least two usable addresses"@
                    &&& !block_fits(config.ipv4_pool) || (config.ipv6_pool matches Some(block)
                        && !block_fits(block))
                },
            },
    {
        let ipv4 = match AddressPool::new(config.ipv4_pool) {
            Ok(pool) => pool,
            Err(error) => return Err(error),
        };
        let ipv6 = match config.ipv6_pool {
            Some(block) => match AddressPool::new(block) {
                Ok(pool) => Some(pool),
                Err(error) => return Err(error),
            },
            None => None,
        };
        Ok(
            FakeIpAllocator {
                ipv4,
                ipv6,
                ttl_seconds: config.ttl_seconds,
                state_file: config.state_file,
                state: FakeIpState::new(),
            },
        )
    }

    /// The address that stands for the name of a query.
    pub fn resolve(&mut self, query: &DnsQuery) -> (answer: Result<FakeAnswer, DnsError>)
        requires
            old(self).wf(),
        ensures
            final(self).wf(),
            final(self).same_pools(*old(self)),
            final(self).state@ == old(self).outcome(old(self).state@, query@).1,
            match old(self).outcome(old(self).state@, query@).0 {
                FakeModel::Failed(message) => answer matches Err(error) && error.message@
                    == message,
                FakeModel::Empty => answer matches Ok(found) && found.response@
                    == (ResponseModel { answers: Seq::empty(), records: Seq::empty() })
                    && !found.changed,
                FakeModel::Answer { address, fresh } => answer matches Ok(found)
                    && found.response@ == one_address(address, old(self).ttl_seconds)
                    && found.changed == fresh,
            },
    {
        let (pool, address_family): (AddressPool, u8) = match query.record_type {
            DnsRecordType::A => (self.ipv4, 4),
            DnsRecordType::Aaaa => match self.ipv6 {
                Some(pool) => (pool, 6),
                None => return Err(
                    DnsError::new("FakeIP AAAA requested but ipv6_pool is not configured"),
                ),
            },
            _ => return Ok(FakeAnswer { response: DnsResponse::empty(), changed: false }),
        };
        let ghost before = self.state@;
        let key = FamilyName { name: query.name.duplicate(), family: address_family };
        if let Some(address) = self.state.by_name.get(&key) {
            return Ok(
                FakeAnswer { response: response(*address, self.ttl_seconds), changed: false },
            );
        }
        let offset: u128 = if address_family == 4 {
            self.state.next_v4
        } else {
            self.state.next_v6
        };
        let address = pool.address_at(offset);
        let next: u128 = pool.next_offset(offset);
        if address_family == 4 {
            self.state.next_v4 = next;
        } else {
            self.state.next_v6 = next;
        }
        self.state.link(query.name.duplicate(), address_family, address);
        assert(self.state@ =~= handed_out(pool, address_family, before, query@.name).1);
        Ok(FakeAnswer { response: response(address, self.ttl_seconds), changed: true })
    }

    /// The name that an address stands for.
    pub fn lookup(&self, address: IpAddress) -> (name: Option<String>)
        requires
            self.wf(),
        ensures
            match name {
                Some(text) => self.state@.by_ip.dom().contains(address@)
                    && self.state@.by_ip[address@] == text@,
                None => !self.state@.by_ip.dom().contains(address@),
            },
    {
        match self.state.by_ip.get(&address) {
            Some(name) => Some(name.clone()),
            None => None,
        }
    }

    /// Takes up what was saved: names, with their addresses as far as these
    /// could be read, and the offsets.
    pub fn load(&mut self, entries: &Vec<(String, Option<IpAddress>)>, next_v4: u128, next_v6: u128)
        requires
            old(self).wf(),
            next_v4 < u128::MAX,
            next_v6 < u128::MAX,
        ensures
            final(self).wf(),
            final(self).same_pools(*old(self)),
            final(self).state@ == loaded(
                (StateModel {
                    next_v4: next_v4 as nat,
                    next_v6: next_v6 as nat,
                    ..old(self).state@
                }),
                saved_views(entries@),
            ),
    {
        self.state.next_v4 = next_v4;
        self.state.next_v6 = next_v6;
        let ghost start = StateModel {
            next_v4: next_v4 as nat,
            next_v6: next_v6 as nat,
            ..old(self).state@
        };
        let ghost all = saved_views(entries@);
        assert(self.state@ =~= start);
        for i in 0..entries.len()
            invariant
                self.wf(),
                self.same_pools(*old(self)),
                all == saved_views(entries@),
                self.state@ == loaded(start, all.take(i as int)),
        {
            assert(all.take(i + 1).drop_last() =~= all.take(i as int));
            let (name, address) = &entries[i];
            assert(all.take(i + 1).last() == saved_view(entries@[i as int]));
            if let Ok(name) = DnsName::from_text(name.as_str()) {
                if let Some(address) = address {
                    self.state.link(name, family(address), *address);
                }
            }
        }
        assert(all.take(entries@.len() as int) =~= all);
    }

    /// What is saved: each address with its name, in no order that is promised.
    pub fn save(&self) -> (entries: Vec<(String, IpAddress)>)
        requires
            self.wf(),
        ensures
            is_snapshot(snapshot_views(entries@), self.state@.by_ip),
    {
        let mut entries: Vec<(String, IpAddress)> = Vec::new();
        let table = &self.state.by_ip;
        let ghost keys = crate::table::keys_of(table.entries@);
        for i in 0..table.entries.len()
            invariant
                table == &self.state.by_ip,
                entries@.len() == i,
                forall|j: int|
                    0 <= j < i ==> {
                        &&& (#[trigger] entries@[j]).1@ == table.entries@[j].0@
                        &&& entries@[j].0@ == table.entries@[j].1@
                    },
        {
            let (address, name) = &table.entries[i];
            entries.push((name.clone(), *address));
        }
        proof {
            let pairs = snapshot_views(entries@);
            table.lemma_len();
            assert forall|j: int| 0 <= j < pairs.len() implies self.state@.by_ip.dom().contains(
                (#[trigger] pairs[j]).1,
            ) && self.state@.by_ip[pairs[j].1] == pairs[j].0 by {
                table.lemma_entry(j);
                assert(entries@[j].1@ == table.entries@[j].0@);
            }
            assert forall|j: int, k: int| 0 <= j < k < pairs.len() implies (#[trigger] pairs[j]).1
                != (#[trigger] pairs[k]).1 by {
                assert(keys[j] == entries@[j].1@);
                assert(keys[k] == entries@[k].1@);
            }
            assert(self.state@.by_ip.dom() =~= table@.dom());
        }
        entries
    }
}

/// A saved entry.
pub open spec fn saved_view(entry: (String, Option<IpAddress>)) -> (Seq<char>, Option<IpModel>) {
    (
        entry.0@,
        match entry.1 {
            Some(address) => Some(address@),
            None => None,
        },
    )
}

/// Saved entries.
pub open spec fn saved_views(entries: Seq<(String, Option<IpAddress>)>) -> Seq<
    (Seq<char>, Option<IpModel>),
> {
    entries.map_values(|entry: (String, Option<IpAddress>)| saved_view(entry))
}

/// The state after saved entries were taken up, one after the other. An entry
/// with no proper name or no address is passed over.
pub open spec fn loaded(state: StateModel, entries: Seq<(Seq<char>, Option<IpModel>)>) -> StateModel
    decreases entries.len(),
{
    if entries.len() == 0 {
        state
    } else {
        let before = loaded(state, entries.drop_last());
        let (text, address) = entries.last();
        let name = normalized(text);
        match address {
            Some(address) => if name_fault(name) is None {
                before.link(name, family_of(address), address)
            } else {
                before
            },
            None => before,
        }
    }
}

/// Entries to be saved.
pub open spec fn snapshot_views(entries: Seq<(String, IpAddress)>) -> Seq<(Seq<char>, IpModel)> {
    entries.map_values(|entry: (String, IpAddress)| (entry.0@, entry.1@))
}

/// Whether entries list each address once, with its name.
pub open spec fn is_snapshot(
    entries: Seq<(Seq<char>, IpModel)>,
    by_ip: Map<IpModel, Seq<char>>,
) -> bool {
    &&& entries.len() == by_ip.dom().len()
    &&& forall|j: int|
        0 <= j < entries.len() ==> by_ip.dom().contains((#[trigger] entries[j]).1)
            && by_ip[entries[j].1] == entries[j].0
    &&& forall|j: int, k: int|
        0 <= j < k < entries.len() ==> (#[trigger] entries[j]).1 != (#[trigger] entries[k]).1
}

/// Asking again for a name gives the same address and changes nothing.
pub proof fn law_stable(allocator: FakeIpAllocator, state: StateModel, query: QueryModel)
    ensures
        ({
            let (first, after) = allocator.outcome(state, query);
            let (second, last) = allocator.outcome(after, query);
            first matches FakeModel::Answer { address, fresh } ==> second
                == (FakeModel::Answer { address, fresh: false }) && last == after
        }),
{
}

/// An address that was just handed out leads back to its name.
pub proof fn law_leads_back(allocator: FakeIpAllocator, state: StateModel, query: QueryModel)
    ensures
        ({
            let (first, after) = allocator.outcome(state, query);
            first matches FakeModel::Answer { address, fresh } ==> fresh
                ==> after.by_ip.dom().contains(address) && after.by_ip[address] == query.name
        }),
{
}

/// Handing out addresses keeps every address that leads back to a name the
/// name's address, where the pools are of their own families.
pub proof fn law_consistent(allocator: FakeIpAllocator, state: StateModel, query: QueryModel)
    requires
        state.consistent(),
        allocator.ipv4.family == 4,
        allocator.ipv6 matches Some(pool) ==> pool.family == 6,
    ensures
        allocator.outcome(state, query).1.consistent(),
{
    let after = allocator.outcome(state, query).1;
    assert forall|ip: IpModel| #[trigger] after.by_ip.dom().contains(ip) implies {
        &&& after.by_name.dom().contains((after.by_ip[ip], family_of(ip)))
        &&& after.by_name[(after.by_ip[ip], family_of(ip))] == ip
    } by {
        if state.by_ip.dom().contains(ip) {
            assert(state.by_name.dom().contains((state.by_ip[ip], family_of(ip))));
        }
    }
}

/// The addresses of a pool are neither the first nor the last of its block.
pub proof fn law_within_block(cidr: IpCidr, pool: AddressPool, offset: nat)
    requires
        cidr.wf(),
        block_fits(cidr),
        pool.is_of(cidr),
        pool.wf(),
    ensures
        block_start(cidr) < be_value(pool.address_of(offset).octets()) < block_start(cidr)
            + block_size(cidr) - 1,
{
    let value = (pool.base + offset % (pool.usable as nat)) as nat;
    lemma_power2_known();
    if pool.family == 4 {
        lemma_be_bytes(value, 4);
    } else {
        lemma_be_bytes(value, 16);
    }
}

/// As many addresses as a pool has are all different.
pub proof fn law_distinct(pool: AddressPool, left: nat, right: nat)
    requires
        pool.wf(),
        left < pool.usable,
        right < pool.usable,
        left != right,
    ensures
        pool.address_of(left) != pool.address_of(right),
{
    let first = (pool.base + left) as nat;
    let second = (pool.base + right) as nat;
    lemma_power2_known();
    assert(left % (pool.usable as nat) == left) by (nonlinear_arith)
        requires
            left < pool.usable,
    ;
    assert(right % (pool.usable as nat) == right) by (nonlinear_arith)
        requires
            right < pool.usable,
    ;
    if pool.family == 4 {
        lemma_be_bytes(first, 4);
        lemma_be_bytes(second, 4);
    } else {
        lemma_be_bytes(first, 16);
        lemma_be_bytes(second, 16);
    }
}

/// The names in the order in which they came for the first time.
pub open spec fn first_seen(names: Seq<Seq<char>>) -> Seq<Seq<char>>
    decreases names.len(),
{
    if names.len() == 0 {
        Seq::empty()
    } else {
        let before = first_seen(names.drop_last());
        if before.contains(names.last()) {
            before
        } else {
            before.push(names.last())
        }
    }
}

impl FakeIpAllocator {
    /// Whether addresses are handed out for a kind of record.
    pub open spec fn serves(self, kind: DnsRecordType) -> bool {
        kind == DnsRecordType::A || (kind == DnsRecordType::Aaaa && self.ipv6 is Some)
    }

    /// The pool for a kind of record that is served.
    pub open spec fn pool_for(self, kind: DnsRecordType) -> AddressPool {
        if kind == DnsRecordType::A {
            self.ipv4
        } else {
            self.ipv6->0
        }
    }

    /// What a new allocator holds after it was asked for the names, one after
    /// the other.
    pub open spec fn after_names(self, kind: DnsRecordType, names: Seq<Seq<char>>) -> StateModel
        decreases names.len(),
    {
        if names.len() == 0 {
            StateModel::empty()
        } else {
            self.outcome(
                self.after_names(kind, names.drop_last()),
                QueryModel { name: names.last(), record_type: kind },
            ).1
        }
    }

    /// What a new allocator answers to the name at `at`, asked for the names one
    /// after the other.
    pub open spec fn answer_at(self, kind: DnsRecordType, names: Seq<Seq<char>>, at: int) -> FakeModel {
        self.outcome(
            self.after_names(kind, names.take(at)),
            QueryModel { name: names[at], record_type: kind },
        ).0
    }

    /// The address in that answer.
    pub open spec fn address_at_name(
        self,
        kind: DnsRecordType,
        names: Seq<Seq<char>>,
        at: int,
    ) -> IpModel {
        self.answer_at(kind, names, at)->address
    }
}

/// The number under which a state files a family.
pub open spec fn family_for(kind: DnsRecordType) -> u8 {
    if kind == DnsRecordType::A {
        4
    } else {
        6
    }
}

/// Whether a state holds these names of a family, each with the address of its
/// place, and nothing else.
pub open spec fn holds_names(
    state: StateModel,
    pool: AddressPool,
    family: u8,
    order: Seq<Seq<char>>,
) -> bool {
    &&& (if family == 4 {
        state.next_v4
    } else {
        state.next_v6
    }) == order.len() % (pool.usable as nat)
    &&& order.no_duplicates()
    &&& forall|name: Seq<char>, other: u8| #[trigger]
        state.by_name.dom().contains((name, other)) ==> other == family && order.contains(name)
    &&& forall|i: int|
        0 <= i < order.len() ==> {
            &&& state.by_name.dom().contains((#[trigger] order[i], family))
            &&& state.by_name[(order[i], family)] == pool.address_of(i as nat)
            &&& state.by_ip.dom().contains(pool.address_of(i as nat))
            &&& state.by_ip[pool.address_of(i as nat)] == order[i]
        }
    &&& forall|ip: IpModel| #[trigger]
        state.by_ip.dom().contains(ip) ==> exists|i: int|
            0 <= i < order.len() && ip == #[trigger] pool.address_of(i as nat)
}

/// One more name, handed the next address of a pool that is not used up.
proof fn lemma_one_more(
    pool: AddressPool,
    family: u8,
    before: StateModel,
    order: Seq<Seq<char>>,
    name: Seq<char>,
)
    requires
        pool.wf(),
        holds_names(before, pool, family, order),
        !order.contains(name),
        order.len() < pool.usable,
    ensures
        holds_names(handed_out(pool, family, before, name).1, pool, family, order.push(name)),
        handed_out(pool, family, before, name).0 == (FakeModel::Answer {
            address: pool.address_of(order.len()),
            fresh: true,
        }),
{
    let count = order.len();
    let usable = pool.usable as nat;
    vstd::arithmetic::div_mod::lemma_small_mod(count, usable);
    let after = handed_out(pool, family, before, name).1;
    let address = pool.address_of(count);
    let longer = order.push(name);
    assert(!before.by_name.dom().contains((name, family)));
    assert forall|i: int| 0 <= i < longer.len() implies {
        &&& after.by_name.dom().contains((#[trigger] longer[i], family))
        &&& after.by_name[(longer[i], family)] == pool.address_of(i as nat)
        &&& after.by_ip.dom().contains(pool.address_of(i as nat))
        &&& after.by_ip[pool.address_of(i as nat)] == longer[i]
    } by {
        if i < count {
            assert(longer[i] == order[i]);
            assert(order.contains(order[i]));
            law_distinct(pool, i as nat, count);
        }
    }
    assert forall|other_name: Seq<char>, other: u8| #[trigger]
        after.by_name.dom().contains((other_name, other)) implies other == family
        && longer.contains(other_name) by {
        if before.by_name.dom().contains((other_name, other)) {
            let i = choose|i: int| 0 <= i < order.len() && order[i] == other_name;
            assert(longer[i] == other_name);
        } else {
            assert(longer[count as int] == name);
        }
    }
    assert forall|ip: IpModel| #[trigger] after.by_ip.dom().contains(ip) implies exists|i: int|
        0 <= i < longer.len() && ip == #[trigger] pool.address_of(i as nat) by {
        if before.by_ip.dom().contains(ip) {
            let i = choose|i: int|
                0 <= i < order.len() && ip == #[trigger] pool.address_of(i as nat);
            assert(0 <= i < longer.len() && ip == pool.address_of(i as nat));
        } else {
            let last = count as int;
            assert(0 <= last < longer.len() && ip == pool.address_of(last as nat));
        }
    }
    assert(longer.no_duplicates()) by {
        assert forall|i: int, j: int| 0 <= i < longer.len() && 0 <= j < longer.len() && i
            != j implies longer[i] != longer[j] by {
            if i < count {
                assert(order.contains(order[i]));
            }
            if j < count {
                assert(order.contains(order[j]));
            }
        }
    }
}

proof fn lemma_after_names(
    allocator: FakeIpAllocator,
    kind: DnsRecordType,
    names: Seq<Seq<char>>,
)
    requires
        allocator.serves(kind),
        allocator.pool_for(kind).wf(),
        first_seen(names).len() <= allocator.pool_for(kind).usable,
    ensures
        holds_names(
            allocator.after_names(kind, names),
            allocator.pool_for(kind),
            family_for(kind),
            first_seen(names),
        ),
    decreases names.len(),
{
    let pool = allocator.pool_for(kind);
    if names.len() == 0 {
        assert(0nat % (pool.usable as nat) == 0);
    } else {
        let rest = names.drop_last();
        let name = names.last();
        lemma_after_names(allocator, kind, rest);
        let before = allocator.after_names(kind, rest);
        let order = first_seen(rest);
        if order.contains(name) {
            let i = choose|i: int| 0 <= i < order.len() && order[i] == name;
            assert(before.by_name.dom().contains((order[i], family_for(kind))));
        } else {
            lemma_one_more(pool, family_for(kind), before, order, name);
        }
    }
}

proof fn lemma_first_seen(names: Seq<Seq<char>>, at: int)
    requires
        0 <= at <= names.len(),
    ensures
        first_seen(names.take(at)).len() <= first_seen(names).len(),
        first_seen(names.take(at)) == first_seen(names).take(
            first_seen(names.take(at)).len() as int,
        ),
    decreases names.len() - at,
{
    if at == names.len() {
        assert(names.take(at) =~= names);
        assert(first_seen(names).take(first_seen(names).len() as int) =~= first_seen(names));
    } else {
        lemma_first_seen(names, at + 1);
        assert(names.take(at + 1).drop_last() =~= names.take(at));
        let now = first_seen(names.take(at));
        let next = first_seen(names.take(at + 1));
        let all = first_seen(names);
        assert(now =~= next.take(now.len() as int));
        assert(all.take(now.len() as int) =~= next.take(now.len() as int));
    }
}

/// The answer to the name at `at` is the address of the name's place.
proof fn lemma_answer_at(
    allocator: FakeIpAllocator,
    kind: DnsRecordType,
    names: Seq<Seq<char>>,
    at: int,
) -> (place: int)
    requires
        allocator.serves(kind),
        allocator.pool_for(kind).wf(),
        first_seen(names).len() <= allocator.pool_for(kind).usable,
        0 <= at < names.len(),
    ensures
        0 <= place < first_seen(names).len(),
        first_seen(names)[place] == names[at],
        allocator.answer_at(kind, names, at) is Answer,
        allocator.address_at_name(kind, names, at) == allocator.pool_for(kind).address_of(
            place as nat,
        ),
{
    let pool = allocator.pool_for(kind);
    let name = names[at];
    lemma_first_seen(names, at);
    lemma_first_seen(names, at + 1);
    assert(names.take(at + 1).drop_last() =~= names.take(at));
    assert(names.take(at + 1).last() == name);
    lemma_after_names(allocator, kind, names.take(at));
    let before = allocator.after_names(kind, names.take(at));
    let order = first_seen(names.take(at));
    let all = first_seen(names);
    if order.contains(name) {
        let i = choose|i: int| 0 <= i < order.len() && order[i] == name;
        assert(before.by_name.dom().contains((order[i], family_for(kind))));
        assert(all.take(order.len() as int)[i] == all[i]);
        i
    } else {
        let longer = first_seen(names.take(at + 1));
        assert(longer =~= order.push(name));
        assert(all.take(longer.len() as int)[order.len() as int] == all[order.len() as int]);
        lemma_one_more(pool, family_for(kind), before, order, name);
        order.len() as int
    }
}

proof fn lemma_place_asked(names: Seq<Seq<char>>, place: int) -> (at: int)
    requires
        0 <= place < first_seen(names).len(),
    ensures
        0 <= at < names.len(),
        names[at] == first_seen(names)[place],
    decreases names.len(),
{
    let before = first_seen(names.drop_last());
    if place < before.len() {
        lemma_place_asked(names.drop_last(), place)
    } else {
        names.len() - 1
    }
}

/// A new allocator that is asked for names of one kind, each any number of
/// times, and for no more of them than its pool has addresses: a name always
/// gets the same address, different names get different ones, each address
/// leads back to its name, and no other address leads anywhere.
pub proof fn law_all_names(allocator: FakeIpAllocator, kind: DnsRecordType, names: Seq<Seq<char>>)
    requires
        allocator.serves(kind),
        allocator.pool_for(kind).wf(),
        first_seen(names).len() <= allocator.pool_for(kind).usable,
    ensures
        forall|i: int|
            0 <= i < names.len() ==> (#[trigger] allocator.answer_at(kind, names, i)) is Answer,
        forall|i: int, j: int|
            0 <= i < names.len() && 0 <= j < names.len() ==> (#[trigger] allocator.address_at_name(
                kind,
                names,
                i,
            ) == #[trigger] allocator.address_at_name(kind, names, j) <==> names[i] == names[j]),
        forall|i: int|
            0 <= i < names.len() ==> {
                let address = #[trigger] allocator.address_at_name(kind, names, i);
                let by_ip = allocator.after_names(kind, names).by_ip;
                by_ip.dom().contains(address) && by_ip[address] == names[i]
            },
        forall|ip: IpModel| #[trigger]
            allocator.after_names(kind, names).by_ip.dom().contains(ip) ==> exists|i: int|
                0 <= i < names.len() && ip == #[trigger] allocator.address_at_name(kind, names, i),
{
    let pool = allocator.pool_for(kind);
    let order = first_seen(names);
    let state = allocator.after_names(kind, names);
    lemma_after_names(allocator, kind, names);
    assert forall|i: int| 0 <= i < names.len() implies (#[trigger] allocator.answer_at(
        kind,
        names,
        i,
    )) is Answer by {
        let _ = lemma_answer_at(allocator, kind, names, i);
    }
    assert forall|i: int, j: int| 0 <= i < names.len() && 0 <= j < names.len() implies (
    #[trigger] allocator.address_at_name(kind, names, i) == #[trigger] allocator.address_at_name(
        kind,
        names,
        j,
    ) <==> names[i] == names[j]) by {
        let first = lemma_answer_at(allocator, kind, names, i);
        let second = lemma_answer_at(allocator, kind, names, j);
        if first != second {
            law_distinct(pool, first as nat, second as nat);
        }
    }
    assert forall|i: int| 0 <= i < names.len() implies {
        let address = #[trigger] allocator.address_at_name(kind, names, i);
        state.by_ip.dom().contains(address) && state.by_ip[address] == names[i]
    } by {
        let place = lemma_answer_at(allocator, kind, names, i);
        assert(order[place] == names[i]);
    }
    assert forall|ip: IpModel| #[trigger] state.by_ip.dom().contains(ip) implies exists|i: int|
        0 <= i < names.len() && ip == #[trigger] allocator.address_at_name(kind, names, i) by {
        let place = choose|place: int|
            0 <= place < order.len() && ip == #[trigger] pool.address_of(place as nat);
        let at = lemma_place_asked(names, place);
        let again = lemma_answer_at(allocator, kind, names, at);
        assert(order[again] == order[place]);
        assert(ip == allocator.address_at_name(kind, names, at));
    }
}

/// What is saved as it would be read back.
pub open spec fn read_back(entries: Seq<(Seq<char>, IpModel)>) -> Seq<(Seq<char>, Option<IpModel>)> {
    entries.map_values(|entry: (Seq<char>, IpModel)| (entry.0, Some(entry.1)))
}

/// Whether a name is kept as it is.
pub open spec fn plain_name(name: Seq<char>) -> bool {
    normalized(name) == name && name_fault(name) is None
}

/// What was saved and is taken up again leads every address back to its name,
/// and the name to the address, where the names are kept as they are.
pub proof fn law_restored(state: StateModel, entries: Seq<(Seq<char>, IpModel)>)
    requires
        state.consistent(),
        state.by_ip.dom().finite(),
        is_snapshot(entries, state.by_ip),
        forall|ip: IpModel| #[trigger]
            state.by_ip.dom().contains(ip) ==> plain_name(state.by_ip[ip]),
    ensures
        ({
            let start = StateModel {
                next_v4: state.next_v4,
                next_v6: state.next_v6,
                ..StateModel::empty()
            };
            let after = loaded(start, read_back(entries));
            &&& after.by_ip == state.by_ip
            &&& after.next_v4 == state.next_v4
            &&& after.next_v6 == state.next_v6
            &&& forall|ip: IpModel| #[trigger]
                state.by_ip.dom().contains(ip) ==> after.by_name.dom().contains(
                    (state.by_ip[ip], family_of(ip)),
                ) && after.by_name[(state.by_ip[ip], family_of(ip))] == ip
        }),
{
    let start = StateModel {
        next_v4: state.next_v4,
        next_v6: state.next_v6,
        ..StateModel::empty()
    };
    lemma_loaded(state, start, entries, entries.len() as int);
    let after = loaded(start, read_back(entries));
    assert(read_back(entries).take(entries.len() as int) =~= read_back(entries));
    let listed = Set::new(
        |ip: IpModel| exists|j: int| 0 <= j < entries.len() && (#[trigger] entries[j]).1 == ip,
    );
    let addresses = entries.map_values(|entry: (Seq<char>, IpModel)| entry.1);
    assert(addresses.no_duplicates()) by {
        assert forall|j: int, k: int| 0 <= j < addresses.len() && 0 <= k < addresses.len() && j
            != k implies addresses[j] != addresses[k] by {
            assert(addresses[j] == entries[j].1);
            assert(addresses[k] == entries[k].1);
        }
    }
    addresses.unique_seq_to_set();
    assert(addresses.to_set().subset_of(state.by_ip.dom())) by {
        assert forall|ip: IpModel| addresses.to_set().contains(ip) implies state.by_ip.dom().contains(
            ip,
        ) by {
            let j = addresses.index_of(ip);
            assert(addresses[j] == entries[j].1);
        }
    }
    vstd::set_lib::lemma_subset_equality(addresses.to_set(), state.by_ip.dom());
    assert forall|ip: IpModel| #[trigger] state.by_ip.dom().contains(ip) implies {
        &&& after.by_ip.dom().contains(ip)
        &&& after.by_ip[ip] == state.by_ip[ip]
        &&& after.by_name.dom().contains((state.by_ip[ip], family_of(ip)))
        &&& after.by_name[(state.by_ip[ip], family_of(ip))] == ip
    } by {
        assert(addresses.to_set().contains(ip));
        let j = addresses.index_of(ip);
        assert(entries[j].1 == ip);
    }
    assert(after.by_ip =~= state.by_ip);
}

proof fn lemma_loaded(
    state: StateModel,
    start: StateModel,
    entries: Seq<(Seq<char>, IpModel)>,
    count: int,
)
    requires
        0 <= count <= entries.len(),
        state.consistent(),
        is_snapshot(entries, state.by_ip),
        forall|ip: IpModel| #[trigger]
            state.by_ip.dom().contains(ip) ==> plain_name(state.by_ip[ip]),
        start.by_ip == Map::<IpModel, Seq<char>>::empty(),
        start.by_name == Map::<(Seq<char>, u8), IpModel>::empty(),
    ensures
        ({
            let after = loaded(start, read_back(entries).take(count));
            &&& after.next_v4 == start.next_v4
            &&& after.next_v6 == start.next_v6
            &&& forall|ip: IpModel| #[trigger]
                after.by_ip.dom().contains(ip) ==> state.by_ip.dom().contains(ip)
            &&& forall|j: int|
                0 <= j < count ==> {
                    &&& after.by_ip.dom().contains((#[trigger] entries[j]).1)
                    &&& after.by_ip[entries[j].1] == entries[j].0
                    &&& after.by_name.dom().contains((entries[j].0, family_of(entries[j].1)))
                    &&& after.by_name[(entries[j].0, family_of(entries[j].1))] == entries[j].1
                }
        }),
    decreases count,
{
    if count > 0 {
        lemma_loaded(state, start, entries, count - 1);
        let all = read_back(entries);
        assert(all.take(count).drop_last() =~= all.take(count - 1));
        let (name, ip) = entries[count - 1];
        assert(all.take(count).last() == (name, Some(ip)));
        assert(state.by_ip.dom().contains(ip));
        let before = loaded(start, all.take(count - 1));
        let after = loaded(start, all.take(count));
        assert(after == before.link(name, family_of(ip), ip));
        assert forall|j: int| 0 <= j < count implies {
            &&& after.by_ip.dom().contains((#[trigger] entries[j]).1)
            &&& after.by_ip[entries[j].1] == entries[j].0
            &&& after.by_name.dom().contains((entries[j].0, family_of(entries[j].1)))
            &&& after.by_name[(entries[j].0, family_of(entries[j].1))] == entries[j].1
        } by {
            if j < count - 1 {
                assert(entries[j].1 != entries[count - 1].1);
                assert(state.by_ip.dom().contains(entries[j].1));
            }
        }
    }
}

/// A pool hands out the addresses of its block one after the other, from the
/// second to the last but one: each shares the block's prefix, and the rest of
/// its bits count from one.
pub proof fn law_counts_up(cidr: IpCidr, pool: AddressPool, offset: nat)
    requires
        cidr.wf(),
        block_fits(cidr),
        pool.is_of(cidr),
        pool.wf(),
        offset < pool.usable,
    ensures
        ({
            let bits: nat = match cidr.address {
                IpAddress::V4(_) => 32,
                IpAddress::V6(_) => 128,
            };
            let size = power2((bits - cidr.prefix_len) as nat);
            let value = be_value(pool.address_of(offset).octets());
            &&& (pool.address_of(offset) is V6) == (cidr.address is V6)
            &&& pool.address_of(offset).octets().len() * 8 == bits
            &&& pool.usable == size - 2
            &&& value / size == be_value(cidr.address@.octets()) / size
            &&& value % size == offset + 1
        }),
{
    let bits = address_bits(cidr.address);
    let size = power2((bits - cidr.prefix_len) as nat);
    let own = be_value(cidr.address@.octets());
    let value = (pool.base + offset) as nat;
    lemma_power2_known();
    lemma_power2_positive((bits - cidr.prefix_len) as nat);
    assert(offset % (pool.usable as nat) == offset) by (nonlinear_arith)
        requires
            offset < pool.usable,
    ;
    if pool.family == 4 {
        lemma_be_bytes(value, 4);
    } else {
        lemma_be_bytes(value, 16);
    }
    let quotient = own / size;
    vstd::arithmetic::div_mod::lemma_fundamental_div_mod(own as int, size as int);
    assert(value == size * quotient + (offset + 1));
    vstd::arithmetic::div_mod::lemma_fundamental_div_mod_converse(
        value as int,
        size as int,
        quotient as int,
        (offset + 1) as int,
    );
}

/// Queries for addresses of version four get them out of the one pool, those for
/// version six out of the other, or fail where there is none; every other query
/// is answered with nothing and changes nothing.
pub proof fn law_kinds_served(allocator: FakeIpAllocator, state: StateModel, query: QueryModel)
    ensures
        query.record_type == DnsRecordType::A && !state.by_name.dom().contains((query.name, 4u8))
            ==> allocator.outcome(state, query).0 == (FakeModel::Answer {
            address: allocator.ipv4.address_of(state.next_v4),
            fresh: true,
        }),
        query.record_type == DnsRecordType::Aaaa && !state.by_name.dom().contains(
            (query.name, 6u8),
        ) ==> match allocator.ipv6 {
            Some(pool) => allocator.outcome(state, query).0 == (FakeModel::Answer {
                address: pool.address_of(state.next_v6),
                fresh: true,
            }),
            None => allocator.outcome(state, query).0 is Failed,
        },
        query.record_type == DnsRecordType::Aaaa && allocator.ipv6 is None ==> allocator.outcome(
            state,
            query,
        ).0 is Failed && allocator.outcome(state, query).1 == state,
        query.record_type != DnsRecordType::A && query.record_type != DnsRecordType::Aaaa
            ==> allocator.outcome(state, query) == (FakeModel::Empty, state),
{
}

/// A saved entry with a name that can be one and an address is taken up after
/// those before it; then the name has that address and the address leads back to
/// the name. Other entries are passed over.
pub proof fn law_entry_taken_up(
    state: StateModel,
    entries: Seq<(Seq<char>, Option<IpModel>)>,
    text: Seq<char>,
    address: IpModel,
)
    ensures
        ({
            let after = loaded(state, entries.push((text, Some(address))));
            let name = normalized(text);
            let family = if address is V4 {
                4u8
            } else {
                6u8
            };
            if name_fault(name) is None {
                &&& after.by_name.dom().contains((name, family))
                &&& after.by_name[(name, family)] == address
                &&& after.by_ip.dom().contains(address)
                &&& after.by_ip[address] == name
            } else {
                after == loaded(state, entries)
            }
        }),
        loaded(state, entries.push((text, None))) == loaded(state, entries),
        loaded(state, Seq::empty()) == state,
{
    assert(entries.push((text, Some(address))).drop_last() =~= entries);
    assert(entries.push((text, None)).drop_last() =~= entries);
}

} // verus!
