//! Names, queries, responses, and the rules that route queries.
use crate::table::Key;
use crate::text::{
    chars_of, find, find_chars, finishes_with, finishes_with_chars, is_white,
    joined_by, lemma_find_is_first, lemma_split_joined, lower, lower_char, lower_chars, occurs_at, same_chars, same_text, split, split_chars, string_of, trim, trim_chars, trim_end,
    trim_end_of, trim_end_of_chars, trim_start, utf8, views,
};
use crate::types::{Endpoint, Host, IpAddress, IpCidr, Network};
use vstd::prelude::*;

verus! {

/// A failure of the DNS subsystem.
#[derive(Clone, Debug, PartialEq, Eq)]
pub struct DnsError {
    pub message: String,
}

impl DnsError {
    pub fn new(message: impl Into<String>) -> (error: DnsError)
        ensures
            call_ensures(Into::<String>::into, (message,), error.message),
    {
        DnsError { message: message.into() }
    }
}

/// A domain name in lower case, without the dot of the root.
#[derive(Clone, Debug, PartialEq, Eq, Hash)]
pub struct DnsName(pub String);

/// A name as it is kept: without white space around it, without dots at its
/// end, in lower case.
pub open spec fn normalized(text: Seq<char>) -> Seq<char> {
    lower(trim_end_of(trim(text), '.'))
}

/// The labels of a name.
pub open spec fn labels(name: Seq<char>) -> Seq<Seq<char>> {
    split(name, seq!['.'])
}

/// Whether a label is neither empty nor longer than 63 bytes.
pub open spec fn label_fits(label: Seq<char>) -> bool {
    0 < label.len() && utf8(label).len() <= 63
}

/// Why a name is refused; `None` where it is not.
pub open spec fn name_fault(name: Seq<char>) -> Option<Seq<char>> {
    if name.len() == 0 || utf8(name).len() > 253 {
        Some("DNS name is empty or too long"@)
    } else if exists|i: int|
        0 <= i < labels(name).len() && !#[trigger] label_fits(labels(name)[i]) {
        Some("DNS name contains an invalid label"@)
    } else {
        None
    }
}

impl View for DnsName {
    type V = Seq<char>;

    open spec fn view(&self) -> Seq<char> {
        self.0@
    }
}

impl Key for DnsName {
    fn same_key(&self, other: &DnsName) -> (same: bool) {
        same_text(self.0.as_str(), other.0.as_str())
    }
}

/// The length of characters in bytes.
fn byte_len(chars: &[char]) -> (count: usize)
    ensures
        count == utf8(chars@).len(),
{
    let text = string_of(chars);
    text.as_str().as_bytes().len()
}

impl DnsName {
    /// Whether this is a name that [`DnsName::new`] can give.
    pub open spec fn wf(self) -> bool {
        name_fault(self@) is None
    }

    /// A name out of a text.
    pub fn new(value: impl Into<String>) -> (made: Result<DnsName, DnsError>)
        ensures
            exists|text: String|
                {
                    &&& #[trigger] call_ensures(Into::<String>::into, (value,), text)
                    &&& made_of(text@, made)
                },
    {
        let text: String = value.into();
        DnsName::from_text(text.as_str())
    }

    pub(crate) fn from_text(text: &str) -> (made: Result<DnsName, DnsError>)
        ensures
            made_of(text@, made),
    {
        let chars = chars_of(text);
        let trimmed = trim_chars(chars.as_slice());
        let bare = trim_end_of_chars(trimmed.as_slice(), '.');
        let name = lower_chars(bare.as_slice());
        assert(name@ == normalized(text@));
        if name.len() == 0 || byte_len(name.as_slice()) > 253 {
            return Err(DnsError::new("DNS name is empty or too long"));
        }
        let dot = vec!['.'];
        assert(dot@ =~= seq!['.']);
        let parts = split_chars(name.as_slice(), dot.as_slice());
        let ghost all = labels(name@);
        assert(views(parts@) == all);
        for i in 0..parts.len()
            invariant
                views(parts@) == all,
                all == labels(name@),
                name@ == normalized(text@),
                name@.len() > 0,
                utf8(name@).len() <= 253,
                forall|j: int| 0 <= j < i ==> #[trigger] label_fits(all[j]),
        {
            assert(all[i as int] == parts@[i as int]@);
            if parts[i].len() == 0 || byte_len(parts[i].as_slice()) > 63 {
                assert(!label_fits(all[i as int]));
                return Err(DnsError::new("DNS name contains an invalid label"));
            }
        }
        Ok(DnsName(string_of(name.as_slice())))
    }

    pub fn as_str(&self) -> (text: &str)
        ensures
            text@ == self@,
    {
        self.0.as_str()
    }

    /// A copy of the name.
    pub fn duplicate(&self) -> (copy: DnsName)
        ensures
            copy@ == self@,
    {
        DnsName(self.0.clone())
    }
}

/// What comes of a text as a name.
pub open spec fn made_of(text: Seq<char>, made: Result<DnsName, DnsError>) -> bool {
    match name_fault(normalized(text)) {
        None => made matches Ok(name) && name@ == normalized(text) && name.wf(),
        Some(message) => made matches Err(error) && error.message@ == message,
    }
}

/// The kind of record that a query asks for.
#[derive(Clone, Copy, Debug, PartialEq, Eq, Hash, Structural)]
pub enum DnsRecordType {
    A,
    Aaaa,
    Cname,
    Mx,
    Ns,
    Ptr,
    Soa,
    Srv,
    Txt,
    Caa,
    Https,
    Svcb,
    Naptr,
    Tlsa,
    Ds,
    Dnskey,
    Any,
    Other(u16),
}

impl DnsRecordType {
    /// The number of the kind in a message.
    pub open spec fn code_of(self) -> u16 {
        match self {
            DnsRecordType::A => 1,
            DnsRecordType::Ns => 2,
            DnsRecordType::Cname => 5,
            DnsRecordType::Soa => 6,
            DnsRecordType::Ptr => 12,
            DnsRecordType::Mx => 15,
            DnsRecordType::Txt => 16,
            DnsRecordType::Aaaa => 28,
            DnsRecordType::Srv => 33,
            DnsRecordType::Naptr => 35,
            DnsRecordType::Ds => 43,
            DnsRecordType::Dnskey => 48,
            DnsRecordType::Tlsa => 52,
            DnsRecordType::Svcb => 64,
            DnsRecordType::Https => 65,
            DnsRecordType::Any => 255,
            DnsRecordType::Caa => 257,
            DnsRecordType::Other(code) => code,
        }
    }

    /// Whether `Other` is used only where there is no name for the kind.
    pub open spec fn named(self) -> bool {
        self matches DnsRecordType::Other(code) ==> ![
            1u16, 2, 5, 6, 12, 15, 16, 28, 33, 35, 43, 48, 52, 64, 65, 255, 257,
        ]@.contains(code)
    }

    /// The number of the kind in a message.
    pub fn code(self) -> (code: u16)
        ensures
            code == self.code_of(),
    {
        match self {
            DnsRecordType::A => 1,
            DnsRecordType::Ns => 2,
            DnsRecordType::Cname => 5,
            DnsRecordType::Soa => 6,
            DnsRecordType::Ptr => 12,
            DnsRecordType::Mx => 15,
            DnsRecordType::Txt => 16,
            DnsRecordType::Aaaa => 28,
            DnsRecordType::Srv => 33,
            DnsRecordType::Naptr => 35,
            DnsRecordType::Ds => 43,
            DnsRecordType::Dnskey => 48,
            DnsRecordType::Tlsa => 52,
            DnsRecordType::Svcb => 64,
            DnsRecordType::Https => 65,
            DnsRecordType::Any => 255,
            DnsRecordType::Caa => 257,
            DnsRecordType::Other(code) => code,
        }
    }

    /// The kind with a number.
    pub fn from_code(code: u16) -> (kind: DnsRecordType)
        ensures
            kind.code_of() == code,
            kind.named(),
    {
        match code {
            1 => DnsRecordType::A,
            2 => DnsRecordType::Ns,
            5 => DnsRecordType::Cname,
            6 => DnsRecordType::Soa,
            12 => DnsRecordType::Ptr,
            15 => DnsRecordType::Mx,
            16 => DnsRecordType::Txt,
            28 => DnsRecordType::Aaaa,
            33 => DnsRecordType::Srv,
            35 => DnsRecordType::Naptr,
            43 => DnsRecordType::Ds,
            48 => DnsRecordType::Dnskey,
            52 => DnsRecordType::Tlsa,
            64 => DnsRecordType::Svcb,
            65 => DnsRecordType::Https,
            255 => DnsRecordType::Any,
            257 => DnsRecordType::Caa,
            _ => DnsRecordType::Other(code),
        }
    }
}

/// A number stands for one kind only.
pub proof fn law_record_code(left: DnsRecordType, right: DnsRecordType)
    requires
        left.named(),
        right.named(),
        left.code_of() == right.code_of(),
    ensures
        left == right,
{
    let known = [1u16, 2, 5, 6, 12, 15, 16, 28, 33, 35, 43, 48, 52, 64, 65, 255, 257]@;
    assert(known[0] == 1 && known[1] == 2 && known[2] == 5 && known[3] == 6 && known[4] == 12
        && known[5] == 15 && known[6] == 16 && known[7] == 28 && known[8] == 33 && known[9] == 35
        && known[10] == 43 && known[11] == 48 && known[12] == 52 && known[13] == 64 && known[14]
        == 65 && known[15] == 255 && known[16] == 257);
}

/// A question: which records does a name have?
#[derive(Clone, Debug, PartialEq, Eq, Hash)]
pub struct DnsQuery {
    pub name: DnsName,
    pub record_type: DnsRecordType,
}

/// What a [`DnsQuery`] holds.
#[verifier::ext_equal]
pub struct QueryModel {
    pub name: Seq<char>,
    pub record_type: DnsRecordType,
}

impl View for DnsQuery {
    type V = QueryModel;

    open spec fn view(&self) -> QueryModel {
        QueryModel { name: self.name@, record_type: self.record_type }
    }
}

impl Key for DnsQuery {
    fn same_key(&self, other: &DnsQuery) -> (same: bool) {
        self.record_type == other.record_type && self.name.same_key(&other.name)
    }
}

impl DnsQuery {
    /// A copy of the query.
    pub fn duplicate(&self) -> (copy: DnsQuery)
        ensures
            copy@ == self@,
    {
        DnsQuery { name: self.name.duplicate(), record_type: self.record_type }
    }
}

/// A host that answers a query.
#[derive(Clone, Debug, PartialEq, Eq)]
pub struct DnsAnswer {
    pub host: Host,
    pub ttl_seconds: u32,
}

impl View for DnsAnswer {
    type V = (crate::types::HostModel, u32);

    open spec fn view(&self) -> (crate::types::HostModel, u32) {
        (self.host@, self.ttl_seconds)
    }
}

/// A record as it came from a server: its time to live, the address that it
/// holds, if any, and its bytes.
#[derive(Clone, Debug, PartialEq, Eq)]
pub struct DnsRecord {
    pub ttl_seconds: u32,
    pub address: Option<IpAddress>,
    pub wire: Vec<u8>,
}

/// What a [`DnsRecord`] holds.
#[verifier::ext_equal]
pub struct RecordModel {
    pub ttl_seconds: u32,
    pub address: Option<IpAddress>,
    pub wire: Seq<u8>,
}

impl View for DnsRecord {
    type V = RecordModel;

    open spec fn view(&self) -> RecordModel {
        RecordModel { ttl_seconds: self.ttl_seconds, address: self.address, wire: self.wire@ }
    }
}

/// The answers to a query and the records that they were read from.
#[derive(Clone, Debug, PartialEq, Eq)]
pub struct DnsResponse {
    pub answers: Vec<DnsAnswer>,
    pub records: Vec<DnsRecord>,
}

/// What a [`DnsResponse`] holds.
#[verifier::ext_equal]
pub struct ResponseModel {
    pub answers: Seq<(crate::types::HostModel, u32)>,
    pub records: Seq<RecordModel>,
}

/// What some answers hold.
pub open spec fn answer_views(answers: Seq<DnsAnswer>) -> Seq<(crate::types::HostModel, u32)> {
    answers.map_values(|answer: DnsAnswer| answer@)
}

/// What some records hold.
pub open spec fn record_views(records: Seq<DnsRecord>) -> Seq<RecordModel> {
    records.map_values(|record: DnsRecord| record@)
}

impl View for DnsResponse {
    type V = ResponseModel;

    open spec fn view(&self) -> ResponseModel {
        ResponseModel {
            answers: answer_views(self.answers@),
            records: record_views(self.records@),
        }
    }
}

/// A copy of some answers.
pub fn duplicate_answers(answers: &Vec<DnsAnswer>) -> (copy: Vec<DnsAnswer>)
    ensures
        answer_views(copy@) == answer_views(answers@),
{
    let mut copy: Vec<DnsAnswer> = Vec::new();
    for i in 0..answers.len()
        invariant
            answer_views(copy@) =~= answer_views(answers@.take(i as int)),
    {
        let ghost before = answer_views(copy@);
        let answer = DnsAnswer {
            host: answers[i].host.duplicate(),
            ttl_seconds: answers[i].ttl_seconds,
        };
        copy.push(answer);
        assert(answer_views(copy@) =~= before.push(answers@[i as int]@));
        assert(answer_views(answers@.take(i + 1)) =~= answer_views(answers@.take(i as int)).push(
            answers@[i as int]@,
        ));
    }
    assert(answers@.take(answers@.len() as int) =~= answers@);
    copy
}

impl DnsResponse {
    pub fn empty() -> (response: DnsResponse)
        ensures
            response.answers@.len() == 0,
            response.records@.len() == 0,
            response@ == (ResponseModel { answers: Seq::empty(), records: Seq::empty() }),
    {
        let response = DnsResponse { answers: Vec::new(), records: Vec::new() };
        assert(response@ =~= ResponseModel { answers: Seq::empty(), records: Seq::empty() });
        response
    }

    /// A copy of the response.
    pub fn duplicate(&self) -> (copy: DnsResponse)
        ensures
            copy@ == self@,
    {
        let answers = duplicate_answers(&self.answers);
        let mut records: Vec<DnsRecord> = Vec::new();
        for i in 0..self.records.len()
            invariant
                record_views(records@) =~= record_views(self.records@.take(i as int)),
        {
            let ghost before = record_views(records@);
            let record = &self.records[i];
            let copy = DnsRecord {
                ttl_seconds: record.ttl_seconds,
                address: record.address,
                wire: record.wire.clone(),
            };
            assert(copy@ =~= self.records@[i as int]@);
            records.push(copy);
            assert(record_views(records@) =~= before.push(self.records@[i as int]@));
            assert(record_views(self.records@.take(i + 1)) =~= record_views(
                self.records@.take(i as int),
            ).push(self.records@[i as int]@));
        }
        assert(self.records@.take(self.records@.len() as int) =~= self.records@);
        DnsResponse { answers, records }
    }
}

/// What a rule looks for in a query.
#[derive(Clone, Debug, Default, PartialEq, Eq)]
pub struct DnsRuleMatcher {
    pub domains: Vec<String>,
    pub domain_suffixes: Vec<String>,
    pub domain_keywords: Vec<String>,
    pub record_types: Vec<DnsRecordType>,
    pub invert: bool,
}

/// Whether a name is a suffix or stands below it.
pub open spec fn under_suffix(name: Seq<char>, suffix: Seq<char>) -> bool {
    name == suffix || (finishes_with(name, suffix) && name.len() > suffix.len() && name[name.len()
        - suffix.len() - 1] == '.')
}

/// Whether a name is one of the domains.
pub open spec fn in_domains(name: Seq<char>, domains: Seq<String>) -> bool {
    exists|i: int| 0 <= i < domains.len() && (#[trigger] domains[i])@ == name
}

/// Whether a name is or stands below one of the suffixes.
pub open spec fn in_suffixes(name: Seq<char>, suffixes: Seq<String>) -> bool {
    exists|i: int| 0 <= i < suffixes.len() && under_suffix(name, (#[trigger] suffixes[i])@)
}

/// Whether one of the keywords occurs in a name.
pub open spec fn in_keywords(name: Seq<char>, keywords: Seq<String>) -> bool {
    exists|i: int| 0 <= i < keywords.len() && find(name, (#[trigger] keywords[i])@) is Some
}

impl DnsRuleMatcher {
    /// Whether the names ask for the query's name; without any they do.
    pub open spec fn name_matches(self, name: Seq<char>) -> bool {
        ||| self.domains@.len() == 0 && self.domain_suffixes@.len() == 0
            && self.domain_keywords@.len() == 0
        ||| in_domains(name, self.domains@)
        ||| in_suffixes(name, self.domain_suffixes@)
        ||| in_keywords(name, self.domain_keywords@)
    }

    /// Whether the rule applies to a query.
    pub open spec fn matches_query(self, query: QueryModel) -> bool {
        ((self.record_types@.len() == 0 || self.record_types@.contains(query.record_type))
            && self.name_matches(query.name)) != self.invert
    }

    pub fn matches(&self, query: &DnsQuery) -> (matched: bool)
        ensures
            matched == self.matches_query(query@),
    {
        let matched = self.matches_inner(query);
        if self.invert {
            !matched
        } else {
            matched
        }
    }

    fn matches_inner(&self, query: &DnsQuery) -> (matched: bool)
        ensures
            matched == ((self.record_types@.len() == 0 || self.record_types@.contains(
                query.record_type,
            )) && self.name_matches(query.name@)),
    {
        if self.record_types.len() != 0 && !contains_type(&self.record_types, query.record_type) {
            return false;
        }
        if self.domains.len() == 0 && self.domain_suffixes.len() == 0 && self.domain_keywords.len()
            == 0 {
            return true;
        }
        let name = chars_of(query.name.as_str());
        any_domain(name.as_slice(), &self.domains) || any_suffix(
            name.as_slice(),
            &self.domain_suffixes,
        ) || any_keyword(name.as_slice(), &self.domain_keywords)
    }
}

fn contains_type(kinds: &Vec<DnsRecordType>, kind: DnsRecordType) -> (yes: bool)
    ensures
        yes == kinds@.contains(kind),
{
    for i in 0..kinds.len()
        invariant
            forall|j: int| 0 <= j < i ==> kinds@[j] != kind,
    {
        if kinds[i] == kind {
            return true;
        }
    }
    false
}

fn any_domain(name: &[char], domains: &Vec<String>) -> (yes: bool)
    ensures
        yes == in_domains(name@, domains@),
{
    for i in 0..domains.len()
        invariant
            forall|j: int| 0 <= j < i ==> (#[trigger] domains@[j])@ != name@,
    {
        let domain = chars_of(domains[i].as_str());
        if same_chars(domain.as_slice(), name) {
            assert(domains@[i as int]@ == name@);
            return true;
        }
    }
    false
}

fn any_suffix(name: &[char], suffixes: &Vec<String>) -> (yes: bool)
    ensures
        yes == in_suffixes(name@, suffixes@),
{
    for i in 0..suffixes.len()
        invariant
            forall|j: int| 0 <= j < i ==> !under_suffix(name@, (#[trigger] suffixes@[j])@),
    {
        let suffix = chars_of(suffixes[i].as_str());
        if same_chars(suffix.as_slice(), name) || (finishes_with_chars(name, suffix.as_slice())
            && name.len() > suffix.len() && name[name.len() - suffix.len() - 1] == '.') {
            assert(under_suffix(name@, suffixes@[i as int]@));
            return true;
        }
    }
    false
}

fn any_keyword(name: &[char], keywords: &Vec<String>) -> (yes: bool)
    ensures
        yes == in_keywords(name@, keywords@),
{
    for i in 0..keywords.len()
        invariant
            forall|j: int| 0 <= j < i ==> find(name@, (#[trigger] keywords@[j])@) is None,
    {
        let keyword = chars_of(keywords[i].as_str());
        if find_chars(name, keyword.as_slice()).is_some() {
            assert(find(name@, keywords@[i as int]@) is Some);
            return true;
        }
    }
    false
}

/// A rule: what it looks for and what follows.
#[derive(Clone, Debug, PartialEq, Eq)]
pub enum DnsRuleConfig {
    Server { server: String, matcher: DnsRuleMatcher },
    FakeIp { matcher: DnsRuleMatcher },
    Reject { matcher: DnsRuleMatcher },
}

/// What becomes of a query.
#[derive(Clone, Debug, PartialEq, Eq)]
pub enum DnsRuleAction {
    Server(String),
    FakeIp,
    Reject,
}

/// What a [`DnsRuleAction`] holds.
pub enum ActionModel {
    Server(Seq<char>),
    FakeIp,
    Reject,
}

impl View for DnsRuleAction {
    type V = ActionModel;

    open spec fn view(&self) -> ActionModel {
        match *self {
            DnsRuleAction::Server(server) => ActionModel::Server(server@),
            DnsRuleAction::FakeIp => ActionModel::FakeIp,
            DnsRuleAction::Reject => ActionModel::Reject,
        }
    }
}

impl DnsRuleConfig {
    pub open spec fn matcher_of(self) -> DnsRuleMatcher {
        match self {
            DnsRuleConfig::Server { matcher, .. } => matcher,
            DnsRuleConfig::FakeIp { matcher } => matcher,
            DnsRuleConfig::Reject { matcher } => matcher,
        }
    }

    pub open spec fn action_of(self) -> ActionModel {
        match self {
            DnsRuleConfig::Server { server, .. } => ActionModel::Server(server@),
            DnsRuleConfig::FakeIp { .. } => ActionModel::FakeIp,
            DnsRuleConfig::Reject { .. } => ActionModel::Reject,
        }
    }

    pub fn matcher(&self) -> (matcher: &DnsRuleMatcher)
        ensures
            *matcher == self.matcher_of(),
    {
        match self {
            DnsRuleConfig::Server { matcher, .. } => matcher,
            DnsRuleConfig::FakeIp { matcher } => matcher,
            DnsRuleConfig::Reject { matcher } => matcher,
        }
    }

    pub fn action(&self) -> (action: DnsRuleAction)
        ensures
            action@ == self.action_of(),
    {
        match self {
            DnsRuleConfig::Server { server, .. } => DnsRuleAction::Server(server.clone()),
            DnsRuleConfig::FakeIp { .. } => DnsRuleAction::FakeIp,
            DnsRuleConfig::Reject { .. } => DnsRuleAction::Reject,
        }
    }
}

/// How a server is spoken to.
#[derive(Clone, Copy, Debug, PartialEq, Eq, Structural)]
pub enum DnsServerProtocol {
    Udp,
    Tcp,
    Tls,
    Https,
    Quic,
}

/// A server that queries go to.
#[derive(Clone, Debug, PartialEq, Eq)]
pub struct DnsServerConfig {
    pub id: String,
    pub protocol: DnsServerProtocol,
    pub endpoint: Endpoint,
    pub outbound: Option<String>,
}

/// What the cache keeps, and how long.
#[derive(Clone, Debug, PartialEq, Eq)]
pub struct DnsCacheConfig {
    pub enabled: bool,
    pub max_entries: usize,
    pub min_ttl_seconds: u32,
    pub max_ttl_seconds: u32,
}

impl Default for DnsCacheConfig {
    fn default() -> (config: DnsCacheConfig)
        ensures
            config == (DnsCacheConfig {
                enabled: true,
                max_entries: 1024,
                min_ttl_seconds: 0,
                max_ttl_seconds: 3600,
            }),
    {
        DnsCacheConfig {
            enabled: true,
            max_entries: 1024,
            min_ttl_seconds: 0,
            max_ttl_seconds: 3600,
        }
    }
}

impl DnsCacheConfig {
    /// Whether the configuration is accepted: room for an entry, and a positive
    /// longest time.
    pub fn is_valid(&self) -> (valid: bool)
        ensures
            valid == (self.max_entries >= 1 && self.max_ttl_seconds >= 1),
    {
        self.max_entries >= 1 && self.max_ttl_seconds >= 1
    }
}

/// The time to live of fake addresses, unless another is configured.
pub const DEFAULT_FAKE_IP_TTL_SECONDS: u32 = 60;

/// The pools of fake addresses.
#[derive(Clone, Debug, PartialEq, Eq)]
pub struct FakeIpConfig {
    pub enabled: bool,
    pub ipv4_pool: IpCidr,
    pub ipv6_pool: Option<IpCidr>,
    pub state_file: Option<String>,
    pub ttl_seconds: u32,
}

impl FakeIpConfig {
    /// Whether the configuration is accepted: a positive time to live.
    pub fn is_valid(&self) -> (valid: bool)
        ensures
            valid == (self.ttl_seconds >= 1),
    {
        self.ttl_seconds >= 1
    }
}

/// Traffic that is taken for DNS.
#[derive(Clone, Debug, PartialEq, Eq)]
pub struct DnsHijackTarget {
    pub network: Option<Network>,
    pub endpoint: Endpoint,
}

/// The configuration of the DNS subsystem.
#[derive(Clone, Debug, PartialEq, Eq)]
pub struct DnsConfig {
    pub servers: Vec<DnsServerConfig>,
    pub rules: Vec<DnsRuleConfig>,
    pub final_server: Option<String>,
    pub cache: DnsCacheConfig,
    pub fake_ip: Option<FakeIpConfig>,
    pub hijack: Vec<DnsHijackTarget>,
}

impl DnsConfig {
    /// Whether the configuration is accepted: its parts are.
    pub fn is_valid(&self) -> (valid: bool)
        ensures
            valid == (self.cache.max_entries >= 1 && self.cache.max_ttl_seconds >= 1 && (
            self.fake_ip matches Some(pool) ==> pool.ttl_seconds >= 1)),
    {
        let pool = match &self.fake_ip {
            Some(pool) => pool.is_valid(),
            None => true,
        };
        self.cache.is_valid() && pool
    }
}

/// A rule that is inverted applies where it did not, and only there.
pub proof fn law_inverted(matcher: DnsRuleMatcher, query: QueryModel)
    ensures
        (DnsRuleMatcher { invert: !matcher.invert, ..matcher }).matches_query(query)
            == !matcher.matches_query(query),
{
}

/// Making a name of a name changes nothing, unless white space is left at its
/// end.
pub proof fn law_normalized_twice(text: Seq<char>)
    requires
        normalized(text).len() > 0,
        !is_white(normalized(text).last()),
    ensures
        normalized(normalized(text)) == normalized(text),
{
    let trimmed = trim(text);
    let bare = trim_end_of(trimmed, '.');
    let name = lower(bare);
    lemma_trimmed_start(text);
    lemma_trim_end_prefix(trim_start(text));
    lemma_trim_end_of_prefix(trimmed, '.');
    assert(name.len() == bare.len());
    assert(bare[0] == trim_start(text)[0]);
    assert(name[0] == lower_char(bare[0]));
    assert(name.last() == lower_char(bare.last()));
    assert(!is_white(name[0]));
    assert(trim_start(name) == name);
    assert(trim_end(name) == name);
    assert(trim_end_of(name, '.') == name);
    assert forall|i: int| 0 <= i < name.len() implies lower_char(#[trigger] name[i]) == name[i] by {
        assert(name[i] == lower_char(bare[i]));
    }
    assert(lower(name) =~= name);
}

proof fn lemma_trimmed_start(text: Seq<char>)
    ensures
        trim_start(text).len() > 0 ==> !is_white(trim_start(text)[0]),
    decreases text.len(),
{
    if text.len() > 0 && is_white(text[0]) {
        lemma_trimmed_start(text.skip(1));
    }
}

proof fn lemma_trim_end_prefix(text: Seq<char>)
    ensures
        trim_end(text).len() <= text.len(),
        trim_end(text) == text.take(trim_end(text).len() as int),
    decreases text.len(),
{
    if text.len() > 0 && is_white(text.last()) {
        lemma_trim_end_prefix(text.drop_last());
        assert(text.drop_last().take(trim_end(text).len() as int) =~= text.take(
            trim_end(text).len() as int,
        ));
    } else {
        assert(text.take(text.len() as int) =~= text);
    }
}

proof fn lemma_trim_end_of_prefix(text: Seq<char>, mark: char)
    ensures
        trim_end_of(text, mark).len() <= text.len(),
        trim_end_of(text, mark) == text.take(trim_end_of(text, mark).len() as int),
        trim_end_of(text, mark).len() > 0 ==> trim_end_of(text, mark).last() != mark,
    decreases text.len(),
{
    if text.len() > 0 && text.last() == mark {
        lemma_trim_end_of_prefix(text.drop_last(), mark);
        assert(text.drop_last().take(trim_end_of(text, mark).len() as int) =~= text.take(
            trim_end_of(text, mark).len() as int,
        ));
    } else {
        assert(text.take(text.len() as int) =~= text);
    }
}

/// A rule without kinds that is not inverted applies to every query for one of
/// its domains, whatever its suffixes and keywords are.
pub proof fn law_domain_matches(matcher: DnsRuleMatcher, query: QueryModel, at: int)
    requires
        matcher.record_types@.len() == 0,
        !matcher.invert,
        0 <= at < matcher.domains@.len(),
        matcher.domains@[at]@ == query.name,
    ensures
        matcher.matches_query(query),
{
    assert(in_domains(query.name, matcher.domains@));
}

/// A rule without kinds that is not inverted applies to every query for one of
/// its suffixes and for every name below it, whatever its domains and keywords
/// are.
pub proof fn law_suffix_matches(
    matcher: DnsRuleMatcher,
    query: QueryModel,
    at: int,
    below: Seq<char>,
)
    requires
        matcher.record_types@.len() == 0,
        !matcher.invert,
        0 <= at < matcher.domain_suffixes@.len(),
        query.name == matcher.domain_suffixes@[at]@ || query.name == below + seq!['.']
            + matcher.domain_suffixes@[at]@,
    ensures
        matcher.matches_query(query),
{
    let suffix = matcher.domain_suffixes@[at]@;
    if query.name != suffix {
        let place = query.name.len() - suffix.len();
        assert(query.name.subrange(place, place + suffix.len()) =~= suffix);
        assert(query.name[place - 1] == '.');
    }
    assert(under_suffix(query.name, suffix));
    assert(in_suffixes(query.name, matcher.domain_suffixes@));
}

/// A rule without kinds that is not inverted applies to every query for a name
/// in which one of its keywords stands, whatever its domains and suffixes are.
pub proof fn law_keyword_matches(
    matcher: DnsRuleMatcher,
    query: QueryModel,
    at: int,
    before: Seq<char>,
    after: Seq<char>,
)
    requires
        matcher.record_types@.len() == 0,
        !matcher.invert,
        0 <= at < matcher.domain_keywords@.len(),
        query.name == before + matcher.domain_keywords@[at]@ + after,
    ensures
        matcher.matches_query(query),
{
    let keyword = matcher.domain_keywords@[at]@;
    let place = before.len() as int;
    assert(query.name.subrange(place, place + keyword.len()) =~= keyword);
    assert(occurs_at(query.name, keyword, place));
    lemma_find_is_first(query.name, keyword);
    assert(in_keywords(query.name, matcher.domain_keywords@));
}

/// A rule without domains, suffixes and keywords looks at the kind alone, and
/// without kinds it applies to every query.
pub proof fn law_kind_alone(matcher: DnsRuleMatcher, query: QueryModel)
    requires
        !matcher.invert,
        matcher.domains@.len() == 0,
        matcher.domain_suffixes@.len() == 0,
        matcher.domain_keywords@.len() == 0,
    ensures
        matcher.record_types@.len() == 0 ==> matcher.matches_query(query),
        matcher.record_types@.len() > 0 ==> matcher.matches_query(query)
            == matcher.record_types@.contains(query.record_type),
{
}

/// Kinds narrow a rule: with some it applies where it did without them and the
/// query asks for one of them.
pub proof fn law_kinds_narrow(
    matcher: DnsRuleMatcher,
    any_kind: DnsRuleMatcher,
    query: QueryModel,
)
    requires
        !matcher.invert,
        matcher.record_types@.len() > 0,
        any_kind.record_types@.len() == 0,
        any_kind == (DnsRuleMatcher { record_types: any_kind.record_types, ..matcher }),
    ensures
        matcher.matches_query(query) == (any_kind.matches_query(query)
            && matcher.record_types@.contains(query.record_type)),
{
}

/// A rule that is not inverted and names anything applies only to a name that
/// is one of its domains, is or stands below one of its suffixes, or holds one
/// of its keywords.
pub proof fn law_matches_for_a_reason(matcher: DnsRuleMatcher, query: QueryModel)
    requires
        !matcher.invert,
        matcher.matches_query(query),
        matcher.domains@.len() + matcher.domain_suffixes@.len() + matcher.domain_keywords@.len()
            > 0,
    ensures
        ({
            ||| exists|i: int|
                0 <= i < matcher.domains@.len() && (#[trigger] matcher.domains@[i])@ == query.name
            ||| exists|i: int|
                0 <= i < matcher.domain_suffixes@.len() && (#[trigger] matcher.domain_suffixes@[i])@
                    == query.name
            ||| exists|i: int, below: Seq<char>|
                0 <= i < matcher.domain_suffixes@.len() && query.name == #[trigger] (below
                    + seq!['.'] + matcher.domain_suffixes@[i]@)
            ||| exists|i: int, before: Seq<char>, after: Seq<char>|
                0 <= i < matcher.domain_keywords@.len() && query.name == #[trigger] (before
                    + matcher.domain_keywords@[i]@ + after)
        }),
{
    let name = query.name;
    if in_domains(name, matcher.domains@) {
    } else if in_suffixes(name, matcher.domain_suffixes@) {
        let i = choose|i: int|
            0 <= i < matcher.domain_suffixes@.len() && under_suffix(
                name,
                (#[trigger] matcher.domain_suffixes@[i])@,
            );
        let suffix = matcher.domain_suffixes@[i]@;
        if name != suffix {
            let place = name.len() - suffix.len();
            let below = name.take(place - 1);
            assert(name.subrange(place, place + suffix.len()) == suffix);
            assert forall|j: int| 0 <= j < suffix.len() implies name[place + j] == suffix[j] by {
                assert(name.subrange(place, place + suffix.len())[j] == suffix[j]);
            }
            assert(name =~= below + seq!['.'] + suffix);
        }
    } else {
        let i = choose|i: int|
            0 <= i < matcher.domain_keywords@.len() && find(
                name,
                (#[trigger] matcher.domain_keywords@[i])@,
            ) is Some;
        let keyword = matcher.domain_keywords@[i]@;
        lemma_find_is_first(name, keyword);
        let place = find(name, keyword)->0;
        let before = name.take(place);
        let after = name.skip(place + keyword.len());
        assert forall|j: int| 0 <= j < keyword.len() implies name[place + j] == keyword[j] by {
            assert(name.subrange(place, place + keyword.len())[j] == keyword[j]);
        }
        assert(name =~= before + keyword + after);
    }
}

/// The numbers of the kinds are those of the registry of DNS.
pub proof fn law_record_numbers()
    ensures
        DnsRecordType::A.code_of() == 1,
        DnsRecordType::Ns.code_of() == 2,
        DnsRecordType::Cname.code_of() == 5,
        DnsRecordType::Soa.code_of() == 6,
        DnsRecordType::Ptr.code_of() == 12,
        DnsRecordType::Mx.code_of() == 15,
        DnsRecordType::Txt.code_of() == 16,
        DnsRecordType::Aaaa.code_of() == 28,
        DnsRecordType::Srv.code_of() == 33,
        DnsRecordType::Naptr.code_of() == 35,
        DnsRecordType::Ds.code_of() == 43,
        DnsRecordType::Dnskey.code_of() == 48,
        DnsRecordType::Tlsa.code_of() == 52,
        DnsRecordType::Svcb.code_of() == 64,
        DnsRecordType::Https.code_of() == 65,
        DnsRecordType::Any.code_of() == 255,
        DnsRecordType::Caa.code_of() == 257,
        forall|code: u16| #[trigger] DnsRecordType::Other(code).code_of() == code,
{
}

/// White space around a name and dots at its end do not count, and neither does
/// the case of its letters.
pub proof fn law_name_kept(before: Seq<char>, name: Seq<char>, dots: nat, after: Seq<char>)
    requires
        name.len() > 0,
        !is_white(name[0]),
        !is_white(name.last()),
        name.last() != '.',
        forall|i: int| 0 <= i < before.len() ==> is_white(#[trigger] before[i]),
        forall|i: int| 0 <= i < after.len() ==> is_white(#[trigger] after[i]),
    ensures
        ({
            let kept = normalized(before + name + Seq::new(dots, |i: int| '.') + after);
            &&& kept.len() == name.len()
            &&& forall|i: int|
                0 <= i < name.len() ==> #[trigger] kept[i] == (if 'A' <= name[i] && name[i]
                    <= 'Z' {
                    (name[i] as u8 + 32) as u8 as char
                } else {
                    name[i]
                })
        }),
{
    let bare = name + Seq::new(dots, |i: int| '.');
    let text = before + name + Seq::new(dots, |i: int| '.') + after;
    assert(text =~= before + (bare + after));
    lemma_leading_white(before, bare + after);
    lemma_trailing_white(bare, after);
    lemma_dots_end(name, dots);
}

proof fn lemma_leading_white(before: Seq<char>, rest: Seq<char>)
    requires
        forall|i: int| 0 <= i < before.len() ==> is_white(#[trigger] before[i]),
        rest.len() > 0,
        !is_white(rest[0]),
    ensures
        trim_start(before + rest) == rest,
    decreases before.len(),
{
    let text = before + rest;
    if before.len() == 0 {
        assert(text =~= rest);
    } else {
        assert(text[0] == before[0]);
        assert(text.skip(1) =~= before.skip(1) + rest);
        assert forall|i: int| 0 <= i < before.skip(1).len() implies is_white(
            #[trigger] before.skip(1)[i],
        ) by {
            assert(before.skip(1)[i] == before[i + 1]);
        }
        lemma_leading_white(before.skip(1), rest);
    }
}

proof fn lemma_trailing_white(rest: Seq<char>, after: Seq<char>)
    requires
        forall|i: int| 0 <= i < after.len() ==> is_white(#[trigger] after[i]),
        rest.len() > 0,
        !is_white(rest.last()),
    ensures
        trim_end(rest + after) == rest,
    decreases after.len(),
{
    let text = rest + after;
    if after.len() == 0 {
        assert(text =~= rest);
    } else {
        assert(text.last() == after.last());
        assert(text.drop_last() =~= rest + after.drop_last());
        assert forall|i: int| 0 <= i < after.drop_last().len() implies is_white(
            #[trigger] after.drop_last()[i],
        ) by {
            assert(after.drop_last()[i] == after[i]);
        }
        lemma_trailing_white(rest, after.drop_last());
    }
}

proof fn lemma_dots_end(name: Seq<char>, dots: nat)
    requires
        name.len() > 0,
        name.last() != '.',
    ensures
        trim_end_of(name + Seq::new(dots, |i: int| '.'), '.') == name,
    decreases dots,
{
    let text = name + Seq::new(dots, |i: int| '.');
    if dots == 0 {
        assert(text =~= name);
    } else {
        lemma_dots_end(name, (dots - 1) as nat);
        assert(text.drop_last() =~= name + Seq::new((dots - 1) as nat, |i: int| '.'));
    }
}

/// A name of labels with dots between them is accepted where it takes at most
/// 253 bytes and each label takes at least one and at most 63.
pub proof fn law_name_accepted(parts: Seq<Seq<char>>, name: Seq<char>)
    requires
        parts.len() > 0,
        forall|i: int| 0 <= i < parts.len() ==> !(#[trigger] parts[i]).contains('.'),
        name == joined_by(parts, '.'),
    ensures
        name_fault(name) is None <==> {
            &&& name.len() > 0
            &&& utf8(name).len() <= 253
            &&& forall|i: int|
                0 <= i < parts.len() ==> (#[trigger] parts[i]).len() > 0 && utf8(parts[i]).len()
                    <= 63
        },
{
    lemma_split_joined(parts, '.');
    assert(labels(name) == parts);
    if name_fault(name) is None {
        assert forall|i: int| 0 <= i < parts.len() implies (#[trigger] parts[i]).len() > 0
            && utf8(parts[i]).len() <= 63 by {
            assert(label_fits(labels(name)[i]));
        }
    }
}

} // verus!
