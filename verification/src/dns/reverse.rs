//! Which domain an address was given for.
use crate::dns::cache::{LATEST, SECOND};
use crate::dns::model::DnsAnswer;
use crate::table::{Key, Table};
use crate::types::{Host, IpAddress, IpModel};
use vstd::prelude::*;

verus! {

impl Key for IpAddress {
    fn same_key(&self, other: &IpAddress) -> (same: bool) {
        self.same(other)
    }
}

/// A domain and the time, in nanoseconds, until which it holds.
#[derive(Clone, Debug)]
pub struct ReverseEntry {
    pub domain: String,
    pub expires_at: u64,
}

/// The domains of addresses, for up to a number of addresses.
#[derive(Clone, Debug)]
pub struct ReverseDns {
    pub capacity: usize,
    pub entries: Table<IpAddress, ReverseEntry>,
}

/// What an entry holds: the domain, and when it expires.
pub type ReverseModel = (Seq<char>, int);

/// What the entries hold.
pub open spec fn reverse_view(entries: Map<IpModel, ReverseEntry>) -> Map<IpModel, ReverseModel> {
    entries.map_values(|entry: ReverseEntry| (entry.domain@, entry.expires_at as int))
}

/// How the entries change by one answer: where no room is left for another
/// address, one makes room.
pub open spec fn one_recorded(
    before: Map<IpModel, ReverseModel>,
    after: Map<IpModel, ReverseModel>,
    capacity: nat,
    ip: IpModel,
    entry: ReverseModel,
) -> bool {
    if before.dom().len() >= capacity && !before.dom().contains(ip) {
        exists|gone: IpModel| #[trigger]
            before.dom().contains(gone) && after == before.remove(gone).insert(ip, entry)
    } else {
        after == before.insert(ip, entry)
    }
}

/// How the entries change by one answer that may not live: it is then passed
/// over.
pub open spec fn answer_recorded(
    before: Map<IpModel, ReverseModel>,
    after: Map<IpModel, ReverseModel>,
    capacity: nat,
    domain: Seq<char>,
    answer: (IpModel, u32),
    now: u64,
) -> bool {
    if answer.1 > 0 {
        one_recorded(before, after, capacity, answer.0, (domain, now + answer.1 * SECOND))
    } else {
        after == before
    }
}

/// Whether each answer leads from one state of the entries to the next.
pub open spec fn is_history(
    states: Seq<Map<IpModel, ReverseModel>>,
    capacity: nat,
    domain: Seq<char>,
    answers: Seq<(IpModel, u32)>,
    now: u64,
) -> bool {
    &&& states.len() == answers.len() + 1
    &&& forall|i: int|
        0 <= i < answers.len() ==> answer_recorded(
            #[trigger] states[i],
            states[i + 1],
            capacity,
            domain,
            answers[i],
            now,
        )
}

/// How the entries change by answers, one after the other.
pub open spec fn recorded(
    before: Map<IpModel, ReverseModel>,
    after: Map<IpModel, ReverseModel>,
    capacity: nat,
    domain: Seq<char>,
    answers: Seq<(IpModel, u32)>,
    now: u64,
) -> bool {
    exists|states: Seq<Map<IpModel, ReverseModel>>|
        {
            &&& #[trigger] is_history(states, capacity, domain, answers, now)
            &&& states[0] == before
            &&& states.last() == after
        }
}

/// The addresses and lifetimes of answers.
pub open spec fn pair_views(answers: Seq<(IpAddress, u32)>) -> Seq<(IpModel, u32)> {
    answers.map_values(|answer: (IpAddress, u32)| (answer.0@, answer.1))
}

/// The addresses among answers.
pub open spec fn addresses(answers: Seq<DnsAnswer>) -> Seq<(IpModel, u32)> {
    address_views(crate::dns::model::answer_views(answers))
}

/// The addresses among answers over plain values.
pub open spec fn address_views(answers: Seq<(crate::types::HostModel, u32)>) -> Seq<(IpModel, u32)>
    decreases answers.len(),
{
    if answers.len() == 0 {
        Seq::empty()
    } else {
        let head = address_views(answers.drop_last());
        match answers.last().0 {
            crate::types::HostModel::Ip(ip) => head.push((ip, answers.last().1)),
            crate::types::HostModel::Domain(_) => head,
        }
    }
}

impl ReverseDns {
    /// No more entries than there is room for.
    pub open spec fn wf(self) -> bool {
        self.entries.wf() && self.entries@.dom().len() <= self.capacity
    }

    /// The domain of each address, and when it expires.
    pub open spec fn memory(&self) -> Map<IpModel, ReverseModel> {
        reverse_view(self.entries@)
    }

    pub fn new(capacity: usize) -> (reverse: ReverseDns)
        ensures
            reverse.wf(),
            reverse.capacity == capacity,
            reverse.memory() == Map::<IpModel, ReverseModel>::empty(),
    {
        let reverse = ReverseDns { capacity, entries: Table::new() };
        assert(reverse.memory() =~= Map::<IpModel, ReverseModel>::empty());
        reverse
    }

    /// The domain of an address at a time.
    pub open spec fn domain_of(self, ip: IpModel, now: u64) -> Option<Seq<char>> {
        if self.memory().dom().contains(ip) && self.memory()[ip].1 > now {
            Some(self.memory()[ip].0)
        } else {
            None
        }
    }

    pub fn lookup(&self, ip: IpAddress, now: u64) -> (domain: Option<String>)
        requires
            self.wf(),
        ensures
            match self.domain_of(ip@, now) {
                Some(text) => domain matches Some(found) && found@ == text,
                None => domain is None,
            },
    {
        match self.entries.get(&ip) {
            Some(entry) => {
                if entry.expires_at > now {
                    Some(entry.domain.clone())
                } else {
                    None
                }
            },
            None => None,
        }
    }

    /// Keeps the domain of the addresses that it was answered with.
    pub fn record(&mut self, domain: &str, answers: &[(IpAddress, u32)], now: u64)
        requires
            old(self).wf(),
            now <= LATEST,
        ensures
            final(self).wf(),
            final(self).capacity == old(self).capacity,
            old(self).capacity == 0 ==> final(self).memory() == old(self).memory(),
            old(self).capacity > 0 ==> recorded(
                old(self).memory(),
                final(self).memory(),
                old(self).capacity as nat,
                domain@,
                pair_views(answers@),
                now,
            ),
    {
        if self.capacity == 0 {
            return;
        }
        let ghost all = pair_views(answers@);
        let ghost mut states = seq![self.memory()];
        for i in 0..answers.len()
            invariant
                self.wf(),
                self.capacity == old(self).capacity,
                self.capacity > 0,
                now <= LATEST,
                all == pair_views(answers@),
                is_history(states, self.capacity as nat, domain@, all.take(i as int), now),
                states[0] == old(self).memory(),
                states.last() == self.memory(),
        {
            let (ip, ttl) = answers[i];
            assert(all[i as int] == (ip@, ttl));
            if ttl > 0 {
                self.record_one(domain, ip, ttl, now);
            }
            proof {
                let before = states;
                states = states.push(self.memory());
                assert forall|j: int| 0 <= j < i + 1 implies answer_recorded(
                    #[trigger] states[j],
                    states[j + 1],
                    self.capacity as nat,
                    domain@,
                    all.take(i + 1)[j],
                    now,
                ) by {
                    if j < i {
                        assert(before[j] == states[j]);
                        assert(all.take(i as int)[j] == all.take(i + 1)[j]);
                    }
                }
            }
        }
        assert(all.take(answers@.len() as int) =~= all);
    }

    fn record_one(&mut self, domain: &str, ip: IpAddress, ttl: u32, now: u64)
        requires
            old(self).wf(),
            old(self).capacity > 0,
            now <= LATEST,
        ensures
            final(self).wf(),
            final(self).capacity == old(self).capacity,
            one_recorded(
                old(self).memory(),
                final(self).memory(),
                old(self).capacity as nat,
                ip@,
                (domain@, now + ttl * SECOND),
            ),
    {
        let ghost before = self.entries@;
        assert(reverse_view(before).dom() =~= before.dom());
        let full = self.entries.len() >= self.capacity && !self.entries.contains(&ip);
        if full {
            self.entries.remove_any();
        }
        let ghost mid = self.entries@;
        assert(ttl * SECOND <= 0xffff_ffff * 1_000_000_000) by (nonlinear_arith)
            requires
                ttl <= 0xffff_ffff,
                SECOND == 1_000_000_000,
        ;
        let entry = ReverseEntry {
            domain: domain.to_string(),
            expires_at: now + ttl as u64 * SECOND,
        };
        let ghost model = (domain@, now + ttl * SECOND);
        self.entries.insert(ip, entry);
        proof {
            assert(reverse_view(self.entries@) =~= reverse_view(mid).insert(ip@, model));
            if full {
                let gone = choose|gone: IpModel| #[trigger]
                    before.dom().contains(gone) && mid == before.remove(gone);
                assert(reverse_view(mid) =~= reverse_view(before).remove(gone));
                assert(reverse_view(before).dom().contains(gone));
            }
        }
    }

    /// Keeps the domain of the addresses among answers.
    pub fn record_answers(&mut self, domain: &str, answers: &Vec<DnsAnswer>, now: u64)
        requires
            old(self).wf(),
            now <= LATEST,
        ensures
            final(self).wf(),
            final(self).capacity == old(self).capacity,
            old(self).capacity == 0 ==> final(self).memory() == old(self).memory(),
            old(self).capacity > 0 ==> recorded(
                old(self).memory(),
                final(self).memory(),
                old(self).capacity as nat,
                domain@,
                addresses(answers@),
                now,
            ),
    {
        let mut pairs: Vec<(IpAddress, u32)> = Vec::new();
        let ghost all = crate::dns::model::answer_views(answers@);
        for i in 0..answers.len()
            invariant
                all == crate::dns::model::answer_views(answers@),
                pair_views(pairs@) =~= address_views(all.take(i as int)),
        {
            assert(all.take(i + 1).drop_last() =~= all.take(i as int));
            assert(all.take(i + 1).last() == answers@[i as int]@);
            let ghost before = pair_views(pairs@);
            match &answers[i].host {
                Host::Ip(ip) => {
                    pairs.push((*ip, answers[i].ttl_seconds));
                    assert(pair_views(pairs@) =~= before.push(
                        (ip@, answers@[i as int].ttl_seconds),
                    ));
                },
                Host::Domain(_) => {},
            }
        }
        assert(all.take(answers@.len() as int) =~= all);
        self.record(domain, pairs.as_slice(), now);
    }
}

/// The address of the last living answer leads back to the domain until the
/// answer expires, whatever dead answers follow it.
pub proof fn law_last_answer(
    before: ReverseDns,
    after: ReverseDns,
    domain: Seq<char>,
    answers: Seq<(IpModel, u32)>,
    last: int,
    now: u64,
    later: u64,
)
    requires
        before.capacity > 0,
        recorded(before.memory(), after.memory(), before.capacity as nat, domain, answers, now),
        0 <= last < answers.len(),
        answers[last].1 > 0,
        forall|i: int| last < i < answers.len() ==> (#[trigger] answers[i]).1 == 0,
        later < now + answers[last].1 * SECOND,
    ensures
        after.domain_of(answers[last].0, later) == Some(domain),
{
    let states = choose|states: Seq<Map<IpModel, ReverseModel>>|
        {
            &&& #[trigger] is_history(states, before.capacity as nat, domain, answers, now)
            &&& states[0] == before.memory()
            &&& states.last() == after.memory()
        };
    assert(answer_recorded(
        states[last],
        states[last + 1],
        before.capacity as nat,
        domain,
        answers[last],
        now,
    ));
    lemma_dead_answers(states, before.capacity as nat, domain, answers, now, last + 1);
}

/// Answers from `from` on that do not live change nothing.
proof fn lemma_dead_answers(
    states: Seq<Map<IpModel, ReverseModel>>,
    capacity: nat,
    domain: Seq<char>,
    answers: Seq<(IpModel, u32)>,
    now: u64,
    from: int,
)
    requires
        is_history(states, capacity, domain, answers, now),
        0 <= from <= answers.len(),
        forall|i: int| from <= i < answers.len() ==> (#[trigger] answers[i]).1 == 0,
    ensures
        states.last() == states[from],
    decreases answers.len() - from,
{
    if from < answers.len() {
        assert(answer_recorded(
            states[from],
            states[from + 1],
            capacity,
            domain,
            answers[from],
            now,
        ));
        lemma_dead_answers(states, capacity, domain, answers, now, from + 1);
    }
}

/// Answers that do not live change nothing.
pub proof fn law_dead_answers(
    before: ReverseDns,
    after: ReverseDns,
    domain: Seq<char>,
    answers: Seq<(IpModel, u32)>,
    now: u64,
)
    requires
        recorded(before.memory(), after.memory(), before.capacity as nat, domain, answers, now),
        forall|i: int| 0 <= i < answers.len() ==> (#[trigger] answers[i]).1 == 0,
    ensures
        after.memory() == before.memory(),
{
    let states = choose|states: Seq<Map<IpModel, ReverseModel>>|
        {
            &&& #[trigger] is_history(states, before.capacity as nat, domain, answers, now)
            &&& states[0] == before.memory()
            &&& states.last() == after.memory()
        };
    lemma_dead_answers(states, before.capacity as nat, domain, answers, now, 0);
}

/// The addresses whose domain is known at a time.
pub open spec fn known_addresses(reverse: ReverseDns, now: u64) -> Set<IpModel> {
    reverse.memory().dom().filter(|ip: IpModel| reverse.domain_of(ip, now) is Some)
}

/// No more addresses are ever known than there is room for: none without any.
pub proof fn law_within_capacity(reverse: ReverseDns, now: u64)
    requires
        reverse.wf(),
    ensures
        forall|ip: IpModel|
            reverse.domain_of(ip, now) is Some <==> #[trigger] known_addresses(
                reverse,
                now,
            ).contains(ip),
        known_addresses(reverse, now).finite(),
        known_addresses(reverse, now).len() <= reverse.capacity,
{
    reverse.entries.lemma_len();
    assert(reverse.memory().dom() =~= reverse.entries@.dom());
    let known = known_addresses(reverse, now);
    assert(known.subset_of(reverse.memory().dom()));
    vstd::set_lib::lemma_len_subset(known, reverse.memory().dom());
}

/// Answers for addresses that are there already make no other address go, even
/// when no room is left: the addresses are the same as before, and those that
/// no living answer names keep their domain and its end.
pub proof fn law_others_kept(
    before: ReverseDns,
    after: ReverseDns,
    domain: Seq<char>,
    answers: Seq<(IpModel, u32)>,
    now: u64,
)
    requires
        recorded(before.memory(), after.memory(), before.capacity as nat, domain, answers, now),
        forall|i: int|
            0 <= i < answers.len() && (#[trigger] answers[i]).1 > 0
                ==> before.memory().dom().contains(answers[i].0),
    ensures
        after.memory().dom() == before.memory().dom(),
        forall|ip: IpModel| #[trigger]
            before.memory().dom().contains(ip) && !named_by(answers, ip) ==> after.memory()[ip]
                == before.memory()[ip],
{
    let states = choose|states: Seq<Map<IpModel, ReverseModel>>|
        {
            &&& #[trigger] is_history(states, before.capacity as nat, domain, answers, now)
            &&& states[0] == before.memory()
            &&& states.last() == after.memory()
        };
    lemma_others_kept(
        states,
        before.capacity as nat,
        domain,
        answers,
        now,
        answers.len() as int,
    );
}

/// Whether a living answer names an address.
pub open spec fn named_by(answers: Seq<(IpModel, u32)>, ip: IpModel) -> bool {
    exists|i: int| 0 <= i < answers.len() && (#[trigger] answers[i]).1 > 0 && answers[i].0 == ip
}

proof fn lemma_others_kept(
    states: Seq<Map<IpModel, ReverseModel>>,
    capacity: nat,
    domain: Seq<char>,
    answers: Seq<(IpModel, u32)>,
    now: u64,
    upto: int,
)
    requires
        is_history(states, capacity, domain, answers, now),
        0 <= upto <= answers.len(),
        forall|i: int|
            0 <= i < answers.len() && (#[trigger] answers[i]).1 > 0 ==> states[0].dom().contains(
                answers[i].0,
            ),
    ensures
        states[upto].dom() == states[0].dom(),
        forall|ip: IpModel| #[trigger]
            states[0].dom().contains(ip) && !named_by(answers, ip) ==> states[upto][ip]
                == states[0][ip],
    decreases upto,
{
    if upto > 0 {
        lemma_others_kept(states, capacity, domain, answers, now, upto - 1);
        let answer = answers[upto - 1];
        assert(answer_recorded(states[upto - 1], states[upto], capacity, domain, answer, now));
        assert(states[upto].dom() =~= states[0].dom());
        assert forall|ip: IpModel| #[trigger]
            states[0].dom().contains(ip) && !named_by(answers, ip) implies states[upto][ip]
            == states[0][ip] by {
            if answer.1 > 0 {
                assert(answers[upto - 1].0 != ip);
            }
        }
    }
}

/// The addresses among answers are remembered with their times to live and in
/// their order; names among them are not.
pub proof fn law_addresses(
    answers: Seq<(crate::types::HostModel, u32)>,
    last: (crate::types::HostModel, u32),
)
    ensures
        address_views(Seq::empty()).len() == 0,
        address_views(answers.push(last)) == (match last.0 {
            crate::types::HostModel::Ip(ip) => address_views(answers).push((ip, last.1)),
            crate::types::HostModel::Domain(_) => address_views(answers),
        }),
{
    assert(answers.push(last).drop_last() =~= answers);
}

/// An address that was given for a domain is forgotten when its time to live is
/// over, counted in seconds of a thousand million nanoseconds, and not before.
pub proof fn law_forgotten(
    before: ReverseDns,
    after: ReverseDns,
    domain: Seq<char>,
    ip: IpModel,
    ttl: u32,
    now: u64,
    later: u64,
)
    requires
        before.capacity > 0,
        recorded(
            before.memory(),
            after.memory(),
            before.capacity as nat,
            domain,
            seq![(ip, ttl)],
            now,
        ),
        ttl > 0,
    ensures
        after.domain_of(ip, later) == (if later < now + ttl * 1_000_000_000 {
            Some(domain)
        } else {
            None
        }),
{
    let answers = seq![(ip, ttl)];
    let states = choose|states: Seq<Map<IpModel, ReverseModel>>|
        {
            &&& #[trigger] is_history(states, before.capacity as nat, domain, answers, now)
            &&& states[0] == before.memory()
            &&& states.last() == after.memory()
        };
    assert(states.len() == 2);
    assert(answers[0] == (ip, ttl));
    assert(answer_recorded(
        states[0],
        states[1],
        before.capacity as nat,
        domain,
        answers[0],
        now,
    ));
}

} // verus!
