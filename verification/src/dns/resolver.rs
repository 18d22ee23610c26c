//! Which server, pool or record answers a query.
use crate::dns::model::{
    answer_views, ActionModel, DnsAnswer, DnsName, DnsQuery, DnsRecordType, DnsResponse,
    DnsRuleAction, DnsRuleConfig, QueryModel,
};
use crate::table::{Key, Table};
use crate::types::{Host, HostModel, IpAddress, IpModel};
use vstd::prelude::*;

verus! {

impl Key for String {
    fn same_key(&self, other: &String) -> (same: bool) {
        crate::text::same_text(self.as_str(), other.as_str())
    }
}

/// Rules in order, and the server for what no rule applies to.
#[derive(Clone, Debug)]
pub struct RuleBasedResolver {
    pub rules: Vec<DnsRuleConfig>,
    pub final_server: String,
}

/// What the first rule that applies says; else the last server.
pub open spec fn chosen(
    rules: Seq<DnsRuleConfig>,
    final_server: Seq<char>,
    query: QueryModel,
) -> ActionModel
    decreases rules.len(),
{
    if rules.len() == 0 {
        ActionModel::Server(final_server)
    } else if rules[0].matcher_of().matches_query(query) {
        rules[0].action_of()
    } else {
        chosen(rules.skip(1), final_server, query)
    }
}

impl RuleBasedResolver {
    pub fn new(rules: Vec<DnsRuleConfig>, final_server: impl Into<String>) -> (resolver:
        RuleBasedResolver)
        ensures
            resolver.rules == rules,
            call_ensures(Into::<String>::into, (final_server,), resolver.final_server),
    {
        RuleBasedResolver { rules, final_server: final_server.into() }
    }

    /// What becomes of a query.
    pub fn resolve(&self, query: &DnsQuery) -> (action: DnsRuleAction)
        ensures
            action@ == chosen(self.rules@, self.final_server@, query@),
    {
        assert(self.rules@.skip(0) =~= self.rules@);
        for i in 0..self.rules.len()
            invariant
                chosen(self.rules@.skip(i as int), self.final_server@, query@) == chosen(
                    self.rules@,
                    self.final_server@,
                    query@,
                ),
        {
            assert(self.rules@.skip(i as int)[0] == self.rules@[i as int]);
            assert(self.rules@.skip(i as int).skip(1) =~= self.rules@.skip(i + 1));
            if self.rules[i].matcher().matches(query) {
                return self.rules[i].action();
            }
        }
        assert(self.rules@.skip(self.rules@.len() as int).len() == 0);
        DnsRuleAction::Server(self.final_server.clone())
    }
}

/// Answers that are known in advance.
#[derive(Clone, Debug)]
pub struct StaticResolver {
    pub records: Table<DnsName, Vec<DnsAnswer>>,
}

/// Whether an answer is of the kind that a query asks for.
pub open spec fn is_of_kind(answer: (HostModel, u32), kind: DnsRecordType) -> bool {
    match (answer.0, kind) {
        (HostModel::Ip(IpModel::V4(_)), DnsRecordType::A) => true,
        (HostModel::Ip(IpModel::V6(_)), DnsRecordType::Aaaa) => true,
        _ => false,
    }
}

impl StaticResolver {
    pub open spec fn wf(self) -> bool {
        self.records.wf()
    }

    /// The answers of a name, in the order in which they were given.
    pub open spec fn answers_of(self, name: Seq<char>) -> Seq<(HostModel, u32)> {
        if self.records@.dom().contains(name) {
            answer_views(self.records@[name]@)
        } else {
            Seq::empty()
        }
    }

    /// Whether this holds what `before` did and one more answer of a name.
    pub open spec fn adds(
        self,
        before: StaticResolver,
        name: Seq<char>,
        answer: (HostModel, u32),
    ) -> bool {
        forall|other: Seq<char>| #[trigger]
            self.answers_of(other) == (if other == name {
                before.answers_of(name).push(answer)
            } else {
                before.answers_of(other)
            })
    }

    pub fn new() -> (resolver: StaticResolver)
        ensures
            resolver.wf(),
            forall|name: Seq<char>| #[trigger]
                resolver.answers_of(name) == Seq::<(HostModel, u32)>::empty(),
    {
        StaticResolver { records: Table::new() }
    }

    fn insert(self, name: DnsName, answer: DnsAnswer) -> (resolver: StaticResolver)
        requires
            self.wf(),
        ensures
            resolver.wf(),
            resolver.adds(self, name@, answer@),
    {
        let mut resolver = self;
        let mut answers: Vec<DnsAnswer> = match resolver.records.get(&name) {
            Some(answers) => crate::dns::model::duplicate_answers(answers),
            None => Vec::new(),
        };
        assert(answer_views(answers@) =~= self.answers_of(name@));
        let ghost before = answers@;
        answers.push(answer);
        assert(answer_views(answers@) =~= answer_views(before).push(answer@));
        resolver.records.insert(name, answers);
        resolver
    }

    pub fn insert_v4(self, name: DnsName, address: [u8; 4], ttl_seconds: u32) -> (resolver:
        StaticResolver)
        requires
            self.wf(),
        ensures
            resolver.wf(),
            resolver.adds(self, name@, (HostModel::Ip(IpModel::V4(address@)), ttl_seconds)),
    {
        self.insert(name, DnsAnswer { host: Host::Ip(IpAddress::V4(address)), ttl_seconds })
    }

    pub fn insert_v6(self, name: DnsName, address: [u8; 16], ttl_seconds: u32) -> (resolver:
        StaticResolver)
        requires
            self.wf(),
        ensures
            resolver.wf(),
            resolver.adds(self, name@, (HostModel::Ip(IpModel::V6(address@)), ttl_seconds)),
    {
        self.insert(name, DnsAnswer { host: Host::Ip(IpAddress::V6(address)), ttl_seconds })
    }

    /// The answers of a name that are of the kind asked for.
    pub fn resolve(&self, query: &DnsQuery) -> (response: DnsResponse)
        requires
            self.wf(),
        ensures
            response@.answers == self.answers_of(query.name@).filter(
                |answer: (HostModel, u32)| is_of_kind(answer, query.record_type),
            ),
            response@.records.len() == 0,
    {
        let mut answers: Vec<DnsAnswer> = Vec::new();
        let ghost kind = query.record_type;
        let ghost keep = |answer: (HostModel, u32)| is_of_kind(answer, kind);
        if let Some(known) = self.records.get(&query.name) {
            let ghost all = answer_views(known@);
            reveal(Seq::filter);
            for i in 0..known.len()
                invariant
                    all == answer_views(known@),
                    kind == query.record_type,
                    keep == (|answer: (HostModel, u32)| is_of_kind(answer, kind)),
                    answer_views(answers@) == all.take(i as int).filter(keep),
            {
                reveal(Seq::filter);
                assert(all.take(i + 1).drop_last() =~= all.take(i as int));
                assert(all.take(i + 1).last() == known@[i as int]@);
                let wanted = match (&known[i].host, query.record_type) {
                    (Host::Ip(IpAddress::V4(_)), DnsRecordType::A) => true,
                    (Host::Ip(IpAddress::V6(_)), DnsRecordType::Aaaa) => true,
                    _ => false,
                };
                assert(wanted == keep(known@[i as int]@));
                let ghost before = answers@;
                if wanted {
                    answers.push(
                        DnsAnswer {
                            host: known[i].host.duplicate(),
                            ttl_seconds: known[i].ttl_seconds,
                        },
                    );
                    assert(answer_views(answers@) =~= answer_views(before).push(known@[i as int]@));
                }
            }
            assert(all.take(known@.len() as int) =~= all);
        } else {
            reveal(Seq::filter);
            assert(answer_views(answers@) =~= Seq::empty());
        }
        let response = DnsResponse { answers, records: Vec::new() };
        assert(response@.answers == self.answers_of(query.name@).filter(keep));
        response
    }
}

/// An address that was given is among the answers to a query of its kind, after
/// those given before.
pub proof fn law_inserted(
    before: StaticResolver,
    after: StaticResolver,
    name: Seq<char>,
    answer: (HostModel, u32),
    kind: DnsRecordType,
)
    requires
        after.adds(before, name, answer),
        is_of_kind(answer, kind),
    ensures
        ({
            let keep = |other: (HostModel, u32)| is_of_kind(other, kind);
            after.answers_of(name).filter(keep) == before.answers_of(name).filter(keep).push(answer)
        }),
{
    let keep = |other: (HostModel, u32)| is_of_kind(other, kind);
    reveal(Seq::filter);
    assert(after.answers_of(name) == before.answers_of(name).push(answer));
    assert(before.answers_of(name).push(answer).drop_last() =~= before.answers_of(name));
}

/// The first rule that applies decides: where no rule before it does, what
/// becomes of a query is what that rule asks for.
pub proof fn law_first_rule(
    rules: Seq<DnsRuleConfig>,
    final_server: Seq<char>,
    query: QueryModel,
    at: int,
)
    requires
        0 <= at < rules.len(),
        forall|i: int|
            0 <= i < at ==> !(match #[trigger] rules[i] {
                DnsRuleConfig::Server { matcher, .. } => matcher.matches_query(query),
                DnsRuleConfig::FakeIp { matcher } => matcher.matches_query(query),
                DnsRuleConfig::Reject { matcher } => matcher.matches_query(query),
            }),
    ensures
        match rules[at] {
            DnsRuleConfig::Server { server, matcher } => matcher.matches_query(query) ==> chosen(
                rules,
                final_server,
                query,
            ) == ActionModel::Server(server@),
            DnsRuleConfig::FakeIp { matcher } => matcher.matches_query(query) ==> chosen(
                rules,
                final_server,
                query,
            ) is FakeIp,
            DnsRuleConfig::Reject { matcher } => matcher.matches_query(query) ==> chosen(
                rules,
                final_server,
                query,
            ) is Reject,
        },
    decreases at,
{
    if at > 0 {
        let rest = rules.skip(1);
        assert forall|i: int| 0 <= i < at - 1 implies !(match #[trigger] rest[i] {
            DnsRuleConfig::Server { matcher, .. } => matcher.matches_query(query),
            DnsRuleConfig::FakeIp { matcher } => matcher.matches_query(query),
            DnsRuleConfig::Reject { matcher } => matcher.matches_query(query),
        }) by {
            assert(rest[i] == rules[i + 1]);
        }
        assert(rules[0].matcher_of().matches_query(query) == match rules[0] {
            DnsRuleConfig::Server { matcher, .. } => matcher.matches_query(query),
            DnsRuleConfig::FakeIp { matcher } => matcher.matches_query(query),
            DnsRuleConfig::Reject { matcher } => matcher.matches_query(query),
        });
        law_first_rule(rest, final_server, query, at - 1);
    }
}

/// A query to which no rule applies goes to the last server.
pub proof fn law_no_rule(rules: Seq<DnsRuleConfig>, final_server: Seq<char>, query: QueryModel)
    requires
        forall|i: int|
            0 <= i < rules.len() ==> !(match #[trigger] rules[i] {
                DnsRuleConfig::Server { matcher, .. } => matcher.matches_query(query),
                DnsRuleConfig::FakeIp { matcher } => matcher.matches_query(query),
                DnsRuleConfig::Reject { matcher } => matcher.matches_query(query),
            }),
    ensures
        chosen(rules, final_server, query) == ActionModel::Server(final_server),
    decreases rules.len(),
{
    if rules.len() > 0 {
        let rest = rules.skip(1);
        assert forall|i: int| 0 <= i < rest.len() implies !(match #[trigger] rest[i] {
            DnsRuleConfig::Server { matcher, .. } => matcher.matches_query(query),
            DnsRuleConfig::FakeIp { matcher } => matcher.matches_query(query),
            DnsRuleConfig::Reject { matcher } => matcher.matches_query(query),
        }) by {
            assert(rest[i] == rules[i + 1]);
        }
        assert(!rules[0].matcher_of().matches_query(query)) by {
            assert(!(match rules[0] {
                DnsRuleConfig::Server { matcher, .. } => matcher.matches_query(query),
                DnsRuleConfig::FakeIp { matcher } => matcher.matches_query(query),
                DnsRuleConfig::Reject { matcher } => matcher.matches_query(query),
            }));
        }
        law_no_rule(rest, final_server, query);
    }
}

/// An address answers the queries for its own family and no others; a name
/// answers none.
pub proof fn law_kind_of_answer(answer: (HostModel, u32), kind: DnsRecordType)
    ensures
        is_of_kind(answer, kind) ==> answer.0 is Ip,
        answer.0 matches HostModel::Ip(ip) ==> (is_of_kind(answer, kind) <==> kind == (match ip {
            IpModel::V4(_) => DnsRecordType::A,
            IpModel::V6(_) => DnsRecordType::Aaaa,
        })),
{
}

} // verus!
