//! Responses kept for as long as their records live.
use crate::dns::model::{DnsCacheConfig, DnsQuery, DnsResponse, QueryModel, ResponseModel};
use crate::table::Table;
use vstd::prelude::*;

verus! {

/// Nanoseconds in a second.
pub const SECOND: u64 = 1_000_000_000;

/// The latest time, in nanoseconds, at which entries can be made.
pub const LATEST: u64 = 0x8000_0000_0000_0000;

/// A response and the time, in nanoseconds, until which it holds.
#[derive(Clone, Debug)]
pub struct CachedResponse {
    pub response: DnsResponse,
    pub expires_at: u64,
}

/// A cache in front of a resolver.
#[derive(Clone, Debug)]
pub struct CachingResolver {
    pub enabled: bool,
    pub max_entries: usize,
    pub min_ttl_seconds: u32,
    pub max_ttl_seconds: u32,
    pub entries: Table<DnsQuery, CachedResponse>,
}

/// How long a response holds: as long as the shortest-lived of its answers and
/// records; zero where it has none.
pub open spec fn shortest(response: ResponseModel) -> u32 {
    let ttls = response.answers.map_values(|answer: (crate::types::HostModel, u32)| answer.1)
        + response.records.map_values(|record: crate::dns::model::RecordModel| record.ttl_seconds);
    least(ttls)
}

/// The least of some numbers; zero of none.
pub open spec fn least(ttls: Seq<u32>) -> u32
    decreases ttls.len(),
{
    if ttls.len() == 0 {
        0
    } else if ttls.len() == 1 {
        ttls[0]
    } else {
        let rest = least(ttls.drop_last());
        if ttls.last() < rest {
            ttls.last()
        } else {
            rest
        }
    }
}

/// A number brought between two others.
pub open spec fn clamped(value: u32, low: u32, high: u32) -> u32 {
    if value < low {
        low
    } else if value > high {
        high
    } else {
        value
    }
}

/// The entry of a query after a response was kept at a time.
pub open spec fn is_entry(
    entry: CachedResponse,
    response: ResponseModel,
    now: u64,
    ttl: u32,
) -> bool {
    entry.response@ == response && entry.expires_at == now + ttl * SECOND
}

/// How the entries change when a response is kept: one makes room where none is
/// left.
pub open spec fn kept(
    before: Map<QueryModel, CachedResponse>,
    after: Map<QueryModel, CachedResponse>,
    max_entries: nat,
    query: QueryModel,
    entry: CachedResponse,
) -> bool {
    if before.dom().len() >= max_entries {
        exists|gone: QueryModel| #[trigger]
            before.dom().contains(gone) && after == before.remove(gone).insert(query, entry)
    } else {
        after == before.insert(query, entry)
    }
}

fn take_least(ttls: &Vec<u32>) -> (ttl: u32)
    ensures
        ttl == least(ttls@),
{
    if ttls.len() == 0 {
        return 0;
    }
    let mut ttl: u32 = ttls[0];
    assert(ttls@.take(1).len() == 1);
    for i in 1..ttls.len()
        invariant
            1 <= i <= ttls@.len(),
            ttl == least(ttls@.take(i as int)),
    {
        assert(ttls@.take(i + 1).drop_last() =~= ttls@.take(i as int));
        if ttls[i] < ttl {
            ttl = ttls[i];
        }
    }
    assert(ttls@.take(ttls@.len() as int) =~= ttls@);
    ttl
}

fn shortest_ttl(response: &DnsResponse) -> (ttl: u32)
    ensures
        ttl == shortest(response@),
{
    let mut ttls: Vec<u32> = Vec::new();
    let ghost first = response@.answers.map_values(
        |answer: (crate::types::HostModel, u32)| answer.1,
    );
    let ghost second = response@.records.map_values(
        |record: crate::dns::model::RecordModel| record.ttl_seconds,
    );
    for i in 0..response.answers.len()
        invariant
            first == response@.answers.map_values(
                |answer: (crate::types::HostModel, u32)| answer.1,
            ),
            ttls@ =~= first.take(i as int),
    {
        assert(first[i as int] == response.answers@[i as int].ttl_seconds);
        ttls.push(response.answers[i].ttl_seconds);
    }
    assert(ttls@ =~= first);
    for i in 0..response.records.len()
        invariant
            second == response@.records.map_values(
                |record: crate::dns::model::RecordModel| record.ttl_seconds,
            ),
            ttls@ =~= first + second.take(i as int),
    {
        assert(second[i as int] == response.records@[i as int].ttl_seconds);
        ttls.push(response.records[i].ttl_seconds);
    }
    assert(ttls@ =~= first + second);
    take_least(&ttls)
}

impl CachingResolver {
    /// No more entries than there is room for.
    pub open spec fn wf(self) -> bool {
        self.entries.wf() && self.entries@.dom().len() <= self.max_entries
    }

    /// How long a response is kept.
    pub open spec fn lifetime(self, response: ResponseModel) -> u32 {
        clamped(shortest(response), self.min_ttl_seconds, self.max_ttl_seconds)
    }

    /// Whether a response is kept at all.
    pub open spec fn keeps(self, response: ResponseModel) -> bool {
        self.enabled && self.lifetime(response) > 0 && self.max_entries > 0
    }

    /// What is known of a query at a time.
    pub open spec fn known(self, query: QueryModel, now: u64) -> Option<ResponseModel> {
        if self.enabled && self.entries@.dom().contains(query) && self.entries@[query].expires_at
            > now {
            Some(self.entries@[query].response@)
        } else {
            None
        }
    }

    /// The same limits.
    pub open spec fn same_limits(self, other: CachingResolver) -> bool {
        &&& self.enabled == other.enabled
        &&& self.max_entries == other.max_entries
        &&& self.min_ttl_seconds == other.min_ttl_seconds
        &&& self.max_ttl_seconds == other.max_ttl_seconds
    }

    pub fn new(config: DnsCacheConfig) -> (cache: CachingResolver)
        ensures
            cache.wf(),
            cache.enabled == config.enabled,
            cache.max_entries == config.max_entries,
            cache.min_ttl_seconds == config.min_ttl_seconds,
            cache.max_ttl_seconds == config.max_ttl_seconds,
            cache.entries@ == Map::<QueryModel, CachedResponse>::empty(),
    {
        CachingResolver {
            enabled: config.enabled,
            max_entries: config.max_entries,
            min_ttl_seconds: config.min_ttl_seconds,
            max_ttl_seconds: config.max_ttl_seconds,
            entries: Table::new(),
        }
    }

    /// The response to a query that needs no asking.
    pub fn resolve(&self, query: &DnsQuery, now: u64) -> (hit: Option<DnsResponse>)
        requires
            self.wf(),
        ensures
            match self.known(query@, now) {
                Some(response) => hit matches Some(found) && found@ == response,
                None => hit is None,
            },
    {
        if !self.enabled {
            return None;
        }
        match self.entries.get(query) {
            Some(entry) => {
                if entry.expires_at > now {
                    Some(entry.response.duplicate())
                } else {
                    None
                }
            },
            None => None,
        }
    }

    /// A query was answered that was asked at `now`.
    pub fn answered(&mut self, query: DnsQuery, response: &DnsResponse, now: u64)
        requires
            old(self).wf(),
            old(self).min_ttl_seconds <= old(self).max_ttl_seconds,
            now <= LATEST,
        ensures
            final(self).wf(),
            final(self).same_limits(*old(self)),
            old(self).keeps(response@) ==> exists|entry: CachedResponse|
                {
                    &&& #[trigger] is_entry(entry, response@, now, old(self).lifetime(response@))
                    &&& kept(
                        old(self).entries@,
                        final(self).entries@,
                        old(self).max_entries as nat,
                        query@,
                        entry,
                    )
                },
            !old(self).keeps(response@) ==> final(self).entries@ == old(self).entries@,
    {
        if !self.enabled {
            return;
        }
        let shortest = shortest_ttl(response);
        let ttl: u32 = if shortest < self.min_ttl_seconds {
            self.min_ttl_seconds
        } else if shortest > self.max_ttl_seconds {
            self.max_ttl_seconds
        } else {
            shortest
        };
        if ttl == 0 || self.max_entries == 0 {
            return;
        }
        let ghost before = self.entries@;
        if self.entries.len() >= self.max_entries {
            self.entries.remove_any();
        }
        let ghost mid = self.entries@;
        assert(ttl * SECOND <= 0xffff_ffff * 1_000_000_000) by (nonlinear_arith)
            requires
                ttl <= 0xffff_ffff,
                SECOND == 1_000_000_000,
        ;
        let entry = CachedResponse {
            response: response.duplicate(),
            expires_at: now + ttl as u64 * SECOND,
        };
        assert(is_entry(entry, response@, now, old(self).lifetime(response@)));
        proof {
            self.entries.lemma_len();
        }
        self.entries.insert(query, entry);
        assert(kept(before, self.entries@, self.max_entries as nat, query@, entry));
    }
}

/// A response that is kept is given back, without asking, to the same query
/// until it expires.
pub proof fn law_reused(
    before: CachingResolver,
    after: CachingResolver,
    query: QueryModel,
    response: ResponseModel,
    entry: CachedResponse,
    now: u64,
    later: u64,
)
    requires
        before.keeps(response),
        after.same_limits(before),
        is_entry(entry, response, now, before.lifetime(response)),
        kept(before.entries@, after.entries@, before.max_entries as nat, query, entry),
        later < now + before.lifetime(response) * SECOND,
    ensures
        after.known(query, later) == Some(response),
{
    if before.entries@.dom().len() >= before.max_entries {
        let gone = choose|gone: QueryModel| #[trigger]
            before.entries@.dom().contains(gone) && after.entries@ == before.entries@.remove(
                gone,
            ).insert(query, entry);
    }
}

/// Nothing is given back once it has expired.
pub proof fn law_expires(cache: CachingResolver, query: QueryModel, now: u64)
    requires
        cache.entries@.dom().contains(query),
        now >= cache.entries@[query].expires_at,
    ensures
        cache.known(query, now) is None,
{
}

/// How long a response holds is the time to live of one of its answers or
/// records, and no answer or record lives shorter; a response without any holds
/// for no time.
pub proof fn law_shortest(response: ResponseModel)
    ensures
        response.answers.len() + response.records.len() == 0 ==> shortest(response) == 0,
        response.answers.len() + response.records.len() > 0 ==> ((exists|i: int|
            0 <= i < response.answers.len() && (#[trigger] response.answers[i]).1 == shortest(
                response,
            )) || (exists|i: int|
            0 <= i < response.records.len() && (#[trigger] response.records[i]).ttl_seconds
                == shortest(response))),
        forall|i: int|
            0 <= i < response.answers.len() ==> shortest(response) <= (
            #[trigger] response.answers[i]).1,
        forall|i: int|
            0 <= i < response.records.len() ==> shortest(response) <= (
            #[trigger] response.records[i]).ttl_seconds,
{
    let first = response.answers.map_values(|answer: (crate::types::HostModel, u32)| answer.1);
    let second = response.records.map_values(
        |record: crate::dns::model::RecordModel| record.ttl_seconds,
    );
    let ttls = first + second;
    lemma_least(ttls);
    assert forall|i: int| 0 <= i < response.answers.len() implies shortest(response) <= (
    #[trigger] response.answers[i]).1 by {
        assert(ttls[i] == response.answers[i].1);
    }
    assert forall|i: int| 0 <= i < response.records.len() implies shortest(response) <= (
    #[trigger] response.records[i]).ttl_seconds by {
        assert(ttls[first.len() + i] == response.records[i].ttl_seconds);
    }
    if ttls.len() > 0 {
        let at = choose|at: int| 0 <= at < ttls.len() && ttls[at] == least(ttls);
        if at < first.len() {
            assert(response.answers[at].1 == shortest(response));
        } else {
            assert(response.records[at - first.len()].ttl_seconds == shortest(response));
        }
    }
}

proof fn lemma_least(ttls: Seq<u32>)
    ensures
        forall|i: int| 0 <= i < ttls.len() ==> least(ttls) <= #[trigger] ttls[i],
        ttls.len() > 0 ==> exists|i: int| 0 <= i < ttls.len() && #[trigger] ttls[i] == least(ttls),
    decreases ttls.len(),
{
    if ttls.len() == 1 {
        assert(ttls[0] == least(ttls));
    } else if ttls.len() > 1 {
        let rest = ttls.drop_last();
        lemma_least(rest);
        assert forall|i: int| 0 <= i < ttls.len() implies least(ttls) <= #[trigger] ttls[i] by {
            if i < rest.len() {
                assert(rest[i] == ttls[i]);
            }
        }
        if ttls.last() < least(rest) {
            assert(ttls[ttls.len() - 1] == least(ttls));
        } else {
            let at = choose|at: int| 0 <= at < rest.len() && rest[at] == least(rest);
            assert(ttls[at] == least(ttls));
        }
    }
}

/// A response is kept for as long as it holds, but never for less than the
/// shortest time that is configured nor for more than the longest.
pub proof fn law_lifetime(cache: CachingResolver, response: ResponseModel)
    requires
        cache.min_ttl_seconds <= cache.max_ttl_seconds,
    ensures
        cache.min_ttl_seconds <= cache.lifetime(response) <= cache.max_ttl_seconds,
        cache.min_ttl_seconds <= shortest(response) <= cache.max_ttl_seconds ==> cache.lifetime(
            response,
        ) == shortest(response),
        shortest(response) < cache.min_ttl_seconds ==> cache.lifetime(response)
            == cache.min_ttl_seconds,
        shortest(response) > cache.max_ttl_seconds ==> cache.lifetime(response)
            == cache.max_ttl_seconds,
{
}

/// A cache that is disabled, or has no room, keeps nothing, and one that is
/// disabled knows nothing; otherwise every response is kept that lives for any
/// time at all.
pub proof fn law_keeps(cache: CachingResolver, query: QueryModel, response: ResponseModel, now: u64)
    ensures
        !cache.enabled ==> !cache.keeps(response) && cache.known(query, now) is None,
        cache.max_entries == 0 ==> !cache.keeps(response),
        cache.enabled && cache.max_entries > 0 ==> (cache.keeps(response) <==> cache.lifetime(
            response,
        ) > 0),
{
}

/// An entry holds for as many thousand million nanoseconds as its response has
/// seconds to live.
pub proof fn law_entry_end(entry: CachedResponse, response: ResponseModel, now: u64, ttl: u32)
    requires
        is_entry(entry, response, now, ttl),
    ensures
        entry.expires_at == now + ttl * 1_000_000_000,
        entry.response@ == response,
{
}

/// Keeping a response loses no other entry while there is room, and at most one
/// where there is none; no other entry changes.
pub proof fn law_others_kept(
    before: Map<QueryModel, CachedResponse>,
    after: Map<QueryModel, CachedResponse>,
    max_entries: nat,
    query: QueryModel,
    entry: CachedResponse,
    one: QueryModel,
    two: QueryModel,
)
    requires
        kept(before, after, max_entries, query, entry),
        before.dom().contains(one),
        before.dom().contains(two),
        one != query,
        two != query,
        one != two,
    ensures
        after.dom().contains(query) && after[query] == entry,
        before.dom().len() < max_entries ==> after.dom().contains(one) && after[one] == before[one],
        (after.dom().contains(one) && after[one] == before[one]) || (after.dom().contains(two)
            && after[two] == before[two]),
{
}

} // verus!
