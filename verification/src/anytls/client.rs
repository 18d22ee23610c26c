//! The sessions of a client: which of them a new stream goes to, and which are
//! given up when they have been idle for long.
use vstd::prelude::*;

verus! {

/// No more streams than this go to one session at a time.
pub const MAX_STREAMS_PER_SESSION: usize = 1;

/// How often a stream is tried.
pub const STREAM_ATTEMPTS: u8 = 3;

/// The outside type of a map that keeps the order of its keys.
#[verifier::external_type_specification]
#[verifier::external_body]
#[verifier::reject_recursive_types(K)]
#[verifier::reject_recursive_types(V)]
#[verifier::reject_recursive_types(S)]
pub struct ExIndexMap<K, V, S>(indexmap::IndexMap<K, V, S>);

/// The sessions in their order: the number of each, whether it is closed and
/// how many streams it has.
pub uninterp spec fn session_list(
    sessions: indexmap::IndexMap<u64, (bool, usize)>,
) -> Seq<(u64, (bool, usize))>;

/// `indexmap::IndexMap::new`: a map without keys.
#[verifier::external_body]
fn map_new() -> (sessions: indexmap::IndexMap<u64, (bool, usize)>)
    ensures
        session_list(sessions) == Seq::<(u64, (bool, usize))>::empty(),
{
    indexmap::IndexMap::new()
}

/// Where a key stands; the length where it does not.
pub open spec fn place_of(list: Seq<(u64, (bool, usize))>, key: u64) -> int
    decreases list.len(),
{
    if list.len() == 0 || list[0].0 == key {
        0
    } else {
        1 + place_of(list.skip(1), key)
    }
}

/// The list once a key has a value: a key that is there keeps its place,
/// another comes last.
pub open spec fn with_value(
    list: Seq<(u64, (bool, usize))>,
    key: u64,
    value: (bool, usize),
) -> Seq<(u64, (bool, usize))> {
    let at = place_of(list, key);
    if at < list.len() {
        list.update(at, (key, value))
    } else {
        list.push((key, value))
    }
}

/// The list without a key: the last entry takes its place.
pub open spec fn without_key(list: Seq<(u64, (bool, usize))>, key: u64) -> Seq<
    (u64, (bool, usize)),
> {
    let at = place_of(list, key);
    if at < list.len() {
        list.update(at, list.last()).drop_last()
    } else {
        list
    }
}

/// `indexmap::IndexMap::insert`: a key that is there keeps its place and gets
/// the value, another comes last.
#[verifier::external_body]
fn map_insert(sessions: &mut indexmap::IndexMap<u64, (bool, usize)>, key: u64, value: (bool, usize))
    ensures
        session_list(*final(sessions)) == with_value(session_list(*old(sessions)), key, value),
{
    sessions.insert(key, value);
}

/// `indexmap::IndexMap::swap_remove`: the last entry takes the place of the one
/// that goes.
#[verifier::external_body]
fn map_swap_remove(sessions: &mut indexmap::IndexMap<u64, (bool, usize)>, key: u64)
    ensures
        session_list(*final(sessions)) == without_key(session_list(*old(sessions)), key),
{
    sessions.swap_remove(&key);
}

/// `indexmap::IndexMap::len`: how many entries there are.
#[verifier::external_body]
fn map_len(sessions: &indexmap::IndexMap<u64, (bool, usize)>) -> (count: usize)
    ensures
        count == session_list(*sessions).len(),
{
    sessions.len()
}

/// `indexmap::IndexMap::get_index`: the entry at a place, `None` behind the
/// last.
#[verifier::external_body]
fn map_get_index(sessions: &indexmap::IndexMap<u64, (bool, usize)>, at: usize) -> (entry: Option<
    (u64, (bool, usize)),
>)
    ensures
        entry is Some <==> at < session_list(*sessions).len(),
        entry matches Some(found) ==> found == session_list(*sessions)[at as int],
{
    sessions.get_index(at).map(|(key, value)| (*key, *value))
}

/// The sessions of a client, and those that are idle with the time, in
/// milliseconds, since which they are.
pub struct Client {
    pub sessions: indexmap::IndexMap<u64, (bool, usize)>,
    pub idle_sessions: Vec<(u64, u64)>,
    pub session_counter: u64,
    pub idle_session_timeout: u64,
    pub min_idle_sessions: usize,
}

/// Whether a session can take another stream.
pub open spec fn has_room(session: (bool, usize)) -> bool {
    !session.0 && session.1 < MAX_STREAMS_PER_SESSION
}

/// The first session that can take another stream.
pub open spec fn first_with_room(list: Seq<(u64, (bool, usize))>) -> Option<u64>
    decreases list.len(),
{
    if list.len() == 0 {
        None
    } else if has_room(list[0].1) {
        Some(list[0].0)
    } else {
        first_with_room(list.skip(1))
    }
}

/// Whether a session is known and can take a stream.
pub open spec fn is_free(list: Seq<(u64, (bool, usize))>, key: u64) -> bool {
    let at = place_of(list, key);
    at < list.len() && has_room(list[at].1)
}

/// Whether a session is known to be open.
pub open spec fn is_open(list: Seq<(u64, (bool, usize))>, key: u64) -> bool {
    place_of(list, key) < list.len() && !list[place_of(list, key)].1.0
}

/// The idle session that became idle last and is still open, and what is left
/// of the idle ones.
pub open spec fn pick_idle(list: Seq<(u64, (bool, usize))>, idle: Seq<(u64, u64)>) -> (
    Option<u64>,
    Seq<(u64, u64)>,
)
    decreases idle.len(),
{
    if idle.len() == 0 {
        (None, idle)
    } else if is_free(list, idle.last().0) {
        (Some(idle.last().0), idle.drop_last())
    } else {
        pick_idle(list, idle.drop_last())
    }
}

/// Where a stream goes.
#[derive(Clone, Copy, Debug, PartialEq, Eq, Structural)]
pub enum SessionChoice {
    /// To a session that was idle.
    Idle(u64),
    /// To a session that was made and has no stream yet.
    Free(u64),
    /// To a session that is still to be made.
    Create,
}

/// The session that a stream goes to.
pub open spec fn choice_of(list: Seq<(u64, (bool, usize))>, idle: Seq<(u64, u64)>) -> SessionChoice {
    match (pick_idle(list, idle).0, first_with_room(list)) {
        (Some(key), _) => SessionChoice::Idle(key),
        (None, Some(key)) => SessionChoice::Free(key),
        (None, None) => SessionChoice::Create,
    }
}

/// A stream never goes to a session that has one: whichever session is picked
/// is open and without streams.
pub proof fn law_one_stream(list: Seq<(u64, (bool, usize))>, idle: Seq<(u64, u64)>)
    ensures
        pick_idle(list, idle).0 matches Some(key) ==> place_of(list, key) < list.len()
            && list[place_of(list, key)].1 == (false, 0usize),
        first_with_room(list) matches Some(key) ==> list.contains((key, (false, 0usize))),
    decreases list.len() + idle.len(),
{
    if idle.len() > 0 {
        law_one_stream(list, idle.drop_last());
    }
    if list.len() > 0 {
        if has_room(list[0].1) {
            assert(list[0] == (list[0].0, (false, 0usize)));
        } else {
            law_one_stream(list.skip(1), idle);
            if let Some(key) = first_with_room(list.skip(1)) {
                let at = list.skip(1).index_of((key, (false, 0usize)));
                assert(list[at + 1] == (key, (false, 0usize)));
            }
        }
    }
}

/// For how long a session has been idle; not at all where the clock stood
/// later then.
pub open spec fn idle_for(since: u64, now: u64) -> int {
    if since <= now {
        now - since
    } else {
        0
    }
}

/// Whether an idle session is kept, with `kept` of those before it kept.
pub open spec fn keeps_idle(
    idle: (u64, u64),
    kept: nat,
    now: u64,
    timeout: u64,
    min_idle: nat,
) -> bool {
    idle_for(idle.1, now) < timeout || kept < min_idle
}

/// How many of some idle sessions are kept.
pub open spec fn kept_count(idle: Seq<(u64, u64)>, now: u64, timeout: u64, min_idle: nat) -> nat
    decreases idle.len(),
{
    if idle.len() == 0 {
        0
    } else {
        let before = kept_count(idle.drop_last(), now, timeout, min_idle);
        if keeps_idle(idle.last(), before, now, timeout, min_idle) {
            before + 1
        } else {
            before
        }
    }
}

/// The places of the idle sessions that are given up.
pub open spec fn stale_places(
    idle: Seq<(u64, u64)>,
    now: u64,
    timeout: u64,
    min_idle: nat,
) -> Seq<int>
    decreases idle.len(),
{
    if idle.len() == 0 {
        Seq::empty()
    } else {
        let before = stale_places(idle.drop_last(), now, timeout, min_idle);
        if keeps_idle(
            idle.last(),
            kept_count(idle.drop_last(), now, timeout, min_idle),
            now,
            timeout,
            min_idle,
        ) {
            before
        } else {
            before.push(idle.len() - 1)
        }
    }
}

/// A list after the entries at some places were taken out, the last place
/// first; the last entry takes the place of each.
pub open spec fn swap_removed(idle: Seq<(u64, u64)>, places: Seq<int>) -> Seq<(u64, u64)>
    decreases places.len(),
{
    if places.len() == 0 {
        idle
    } else {
        let at = places.last();
        swap_removed(idle.update(at, idle.last()).drop_last(), places.drop_last())
    }
}

/// Whether places rise and stay below a length.
pub open spec fn rising(places: Seq<int>, length: int) -> bool {
    &&& forall|i: int, j: int| 0 <= i < j < places.len() ==> places[i] < places[j]
    &&& forall|i: int| 0 <= i < places.len() ==> 0 <= #[trigger] places[i] < length
}

proof fn lemma_stale_rising(idle: Seq<(u64, u64)>, now: u64, timeout: u64, min_idle: nat)
    ensures
        rising(stale_places(idle, now, timeout, min_idle), idle.len() as int),
        kept_count(idle, now, timeout, min_idle) + stale_places(idle, now, timeout, min_idle).len()
            == idle.len(),
    decreases idle.len(),
{
    if idle.len() > 0 {
        lemma_stale_rising(idle.drop_last(), now, timeout, min_idle);
    }
}

proof fn lemma_swap_removed_len(idle: Seq<(u64, u64)>, places: Seq<int>)
    requires
        rising(places, idle.len() as int),
        places.len() <= idle.len(),
    ensures
        swap_removed(idle, places).len() == idle.len() - places.len(),
    decreases places.len(),
{
    if places.len() > 0 {
        let at = places.last();
        let rest = idle.update(at, idle.last()).drop_last();
        let head = places.drop_last();
        assert forall|i: int| 0 <= i < head.len() implies 0 <= #[trigger] head[i] < rest.len() by {
            assert(places[i] < places[places.len() - 1]);
        }
        lemma_swap_removed_len(rest, head);
    }
}

/// Idle sessions are never given up below the number that is kept, and none is
/// that has not been idle for long enough.
pub proof fn law_idle_kept(idle: Seq<(u64, u64)>, now: u64, timeout: u64, min_idle: nat)
    ensures
        ({
            let places = stale_places(idle, now, timeout, min_idle);
            let after = swap_removed(idle, places);
            &&& after.len() >= if min_idle < idle.len() {
                min_idle
            } else {
                idle.len()
            }
            &&& forall|i: int|
                0 <= i < places.len() ==> idle_for(
                    idle[#[trigger] places[i]].1,
                    now,
                ) >= timeout
        }),
{
    lemma_stale_rising(idle, now, timeout, min_idle);
    lemma_swap_removed_len(idle, stale_places(idle, now, timeout, min_idle));
    lemma_stale_old(idle, now, timeout, min_idle);
}

proof fn lemma_stale_old(idle: Seq<(u64, u64)>, now: u64, timeout: u64, min_idle: nat)
    ensures
        forall|i: int|
            0 <= i < stale_places(idle, now, timeout, min_idle).len() ==> idle_for(
                idle[#[trigger] stale_places(idle, now, timeout, min_idle)[i]].1,
                now,
            ) >= timeout,
        kept_count(idle, now, timeout, min_idle) >= if min_idle < idle.len() {
            min_idle
        } else {
            idle.len()
        },
    decreases idle.len(),
{
    if idle.len() > 0 {
        let head = idle.drop_last();
        lemma_stale_old(head, now, timeout, min_idle);
        lemma_stale_rising(head, now, timeout, min_idle);
        let before = stale_places(head, now, timeout, min_idle);
        let all = stale_places(idle, now, timeout, min_idle);
        assert forall|i: int| 0 <= i < all.len() implies idle_for(
            idle[#[trigger] all[i]].1,
            now,
        ) >= timeout by {
            if i < before.len() {
                assert(all[i] == before[i]);
                assert(head[before[i]] == idle[before[i]]);
            }
        }
    }
}

impl Client {
    /// The same settings.
    pub open spec fn same_settings(self, other: Client) -> bool {
        self.idle_session_timeout == other.idle_session_timeout && self.min_idle_sessions
            == other.min_idle_sessions
    }

    pub fn new(idle_session_timeout: u64, min_idle_sessions: usize) -> (client: Client)
        ensures
            session_list(client.sessions) == Seq::<(u64, (bool, usize))>::empty(),
            client.idle_sessions@.len() == 0,
            client.session_counter == 0,
            client.idle_session_timeout == idle_session_timeout,
            client.min_idle_sessions == min_idle_sessions,
    {
        Client {
            sessions: map_new(),
            idle_sessions: Vec::new(),
            session_counter: 0,
            idle_session_timeout,
            min_idle_sessions,
        }
    }

    /// What is known of a session.
    fn find(&self, key: u64) -> (entry: Option<(bool, usize)>)
        ensures
            ({
                let list = session_list(self.sessions);
                let at = place_of(list, key);
                match entry {
                    Some(value) => at < list.len() && value == list[at].1,
                    None => at >= list.len(),
                }
            }),
    {
        let ghost list = session_list(self.sessions);
        let count: usize = map_len(&self.sessions);
        assert(list.skip(0) =~= list);
        for i in 0..count
            invariant
                list == session_list(self.sessions),
                count == list.len(),
                place_of(list, key) == i + place_of(list.skip(i as int), key),
        {
            assert(list.skip(i as int)[0] == list[i as int]);
            assert(list.skip(i as int).skip(1) =~= list.skip(i + 1));
            if let Some((other, value)) = map_get_index(&self.sessions, i) {
                if other == key {
                    return Some(value);
                }
            }
        }
        assert(list.skip(count as int).len() == 0);
        None
    }

    /// Picks the session for a stream: an idle one, else one with room, else a
    /// new one.
    pub fn find_or_create_session(&mut self) -> (choice: SessionChoice)
        ensures
            final(self).sessions == old(self).sessions,
            final(self).session_counter == old(self).session_counter,
            final(self).same_settings(*old(self)),
            ({
                let list = session_list(old(self).sessions);
                let (idle, left) = pick_idle(list, old(self).idle_sessions@);
                &&& final(self).idle_sessions@ == left
                &&& choice == match idle {
                    Some(key) => SessionChoice::Idle(key),
                    None => match first_with_room(list) {
                        Some(key) => SessionChoice::Free(key),
                        None => SessionChoice::Create,
                    },
                }
            }),
            choice == choice_of(session_list(old(self).sessions), old(self).idle_sessions@),
    {
        if let Some(key) = self.pick_session_from_idle_pool() {
            return SessionChoice::Idle(key);
        }
        match self.first_room() {
            Some(key) => SessionChoice::Free(key),
            None => SessionChoice::Create,
        }
    }

    /// The client is done: every session is to be closed, in order.
    pub fn close(&self) -> (keys: Vec<u64>)
        ensures
            keys@ == session_list(self.sessions).map_values(|entry: (u64, (bool, usize))| entry.0),
    {
        let ghost list = session_list(self.sessions);
        let ghost all = list.map_values(|entry: (u64, (bool, usize))| entry.0);
        let count: usize = map_len(&self.sessions);
        let mut keys: Vec<u64> = Vec::new();
        for i in 0..count
            invariant
                list == session_list(self.sessions),
                all == list.map_values(|entry: (u64, (bool, usize))| entry.0),
                count == list.len(),
                keys@ == all.take(i as int),
        {
            if let Some((key, _)) = map_get_index(&self.sessions, i) {
                keys.push(key);
                assert(keys@ =~= all.take(i + 1));
            }
        }
        assert(all.take(count as int) =~= all);
        keys
    }

    fn first_room(&self) -> (key: Option<u64>)
        ensures
            key == first_with_room(session_list(self.sessions)),
    {
        let ghost list = session_list(self.sessions);
        let count: usize = map_len(&self.sessions);
        assert(list.skip(0) =~= list);
        for i in 0..count
            invariant
                list == session_list(self.sessions),
                count == list.len(),
                first_with_room(list) == first_with_room(list.skip(i as int)),
        {
            assert(list.skip(i as int)[0] == list[i as int]);
            assert(list.skip(i as int).skip(1) =~= list.skip(i + 1));
            if let Some((key, (closed, streams))) = map_get_index(&self.sessions, i) {
                if !closed && streams < MAX_STREAMS_PER_SESSION {
                    return Some(key);
                }
            }
        }
        assert(list.skip(count as int).len() == 0);
        None
    }

    fn pick_session_from_idle_pool(&mut self) -> (picked: Option<u64>)
        ensures
            final(self).sessions == old(self).sessions,
            final(self).session_counter == old(self).session_counter,
            final(self).same_settings(*old(self)),
            (picked, final(self).idle_sessions@) == pick_idle(
                session_list(old(self).sessions),
                old(self).idle_sessions@,
            ),
    {
        while self.idle_sessions.len() > 0
            invariant
                self.sessions == old(self).sessions,
                self.session_counter == old(self).session_counter,
                self.same_settings(*old(self)),
                pick_idle(session_list(self.sessions), self.idle_sessions@) == pick_idle(
                    session_list(old(self).sessions),
                    old(self).idle_sessions@,
                ),
            decreases self.idle_sessions@.len(),
        {
            let ghost before = self.idle_sessions@;
            if let Some((key, since)) = self.idle_sessions.pop() {
                assert(self.idle_sessions@ =~= before.drop_last());
                assert(before.last() == (key, since));
                if let Some((closed, streams)) = self.find(key) {
                    if !closed && streams < MAX_STREAMS_PER_SESSION {
                        return Some(key);
                    }
                }
            }
        }
        None
    }

    /// A session was made: its number.
    pub fn create_session(&mut self) -> (key: u64)
        requires
            old(self).session_counter < u64::MAX,
        ensures
            final(self).same_settings(*old(self)),
            final(self).idle_sessions == old(self).idle_sessions,
            key == old(self).session_counter + 1,
            final(self).session_counter == key,
            session_list(final(self).sessions) == with_value(
                session_list(old(self).sessions),
                key,
                (false, 0),
            ),
    {
        self.session_counter = self.session_counter + 1;
        map_insert(&mut self.sessions, self.session_counter, (false, 0));
        self.session_counter
    }

    /// A session was closed, or its streams are others than before. One that
    /// is not known stays unknown.
    pub fn session_changed(&mut self, key: u64, closed: bool, streams: usize)
        ensures
            final(self).same_settings(*old(self)),
            final(self).idle_sessions == old(self).idle_sessions,
            final(self).session_counter == old(self).session_counter,
            ({
                let list = session_list(old(self).sessions);
                session_list(final(self).sessions) == (if place_of(list, key) < list.len() {
                    with_value(list, key, (closed, streams))
                } else {
                    list
                })
            }),
    {
        if self.find(key).is_some() {
            map_insert(&mut self.sessions, key, (closed, streams));
        }
    }

    /// A session has ended.
    pub fn session_ended(&mut self, key: u64)
        ensures
            final(self).same_settings(*old(self)),
            final(self).idle_sessions == old(self).idle_sessions,
            final(self).session_counter == old(self).session_counter,
            session_list(final(self).sessions) == without_key(
                session_list(old(self).sessions),
                key,
            ),
    {
        map_swap_remove(&mut self.sessions, key);
    }

    /// A session has no streams any more: it is idle, unless it is closed.
    pub fn session_idle(&mut self, key: u64, now: u64)
        ensures
            final(self).same_settings(*old(self)),
            final(self).sessions == old(self).sessions,
            final(self).session_counter == old(self).session_counter,
            final(self).idle_sessions@ == (if is_open(session_list(old(self).sessions), key) {
                old(self).idle_sessions@.push((key, now))
            } else {
                old(self).idle_sessions@
            }),
    {
        if let Some((closed, _)) = self.find(key) {
            if !closed {
                self.idle_sessions.push((key, now));
            }
        }
    }

    /// Gives up the sessions that have been idle for long: their numbers, in
    /// the order in which they are closed.
    pub fn idle_cleanup(&mut self, now: u64) -> (gone: Vec<u64>)
        ensures
            final(self).same_settings(*old(self)),
            final(self).sessions == old(self).sessions,
            final(self).session_counter == old(self).session_counter,
            ({
                let idle = old(self).idle_sessions@;
                let places = stale_places(
                    idle,
                    now,
                    old(self).idle_session_timeout,
                    old(self).min_idle_sessions as nat,
                );
                &&& final(self).idle_sessions@ == swap_removed(idle, places)
                &&& gone@ == places.reverse().map_values(|at: int| idle[at].0)
            }),
    {
        let ghost idle = self.idle_sessions@;
        let ghost min_idle = self.min_idle_sessions as nat;
        let timeout: u64 = self.idle_session_timeout;
        let ghost places = stale_places(idle, now, timeout, min_idle);
        let mut kept: usize = 0;
        let mut stale: Vec<usize> = Vec::new();
        for i in 0..self.idle_sessions.len()
            invariant
                idle == self.idle_sessions@,
                min_idle == self.min_idle_sessions,
                kept <= i,
                kept == kept_count(idle.take(i as int), now, timeout, min_idle),
                stale@.map_values(|at: usize| at as int) =~= stale_places(
                    idle.take(i as int),
                    now,
                    timeout,
                    min_idle,
                ),
        {
            assert(idle.take(i + 1).drop_last() =~= idle.take(i as int));
            assert(idle.take(i + 1).last() == idle[i as int]);
            let since: u64 = self.idle_sessions[i].1;
            let waited: u64 = if since <= now {
                now - since
            } else {
                0
            };
            if waited < timeout || kept < self.min_idle_sessions {
                kept = kept + 1;
            } else {
                let ghost before = stale@.map_values(|at: usize| at as int);
                stale.push(i);
                assert(stale@.map_values(|at: usize| at as int) =~= before.push(i as int));
            }
        }
        assert(idle.take(idle.len() as int) =~= idle);
        proof {
            lemma_stale_rising(idle, now, timeout, min_idle);
        }
        let mut gone: Vec<u64> = Vec::new();
        let ghost listed = stale@.map_values(|at: usize| at as int);
        let mut left: usize = stale.len();
        assert(listed.take(left as int) =~= places);
        while left > 0
            invariant
                left <= stale@.len(),
                listed == stale@.map_values(|at: usize| at as int),
                listed == places,
                rising(places, idle.len() as int),
                self.sessions == old(self).sessions,
                self.session_counter == old(self).session_counter,
                self.same_settings(*old(self)),
                swap_removed(self.idle_sessions@, places.take(left as int)) == swap_removed(
                    idle,
                    places,
                ),
                self.idle_sessions@.len() == idle.len() - (places.len() - left),
                left > 0 ==> places[left - 1] < self.idle_sessions@.len(),
                forall|j: int|
                    0 <= j < idle.len() && (left < places.len() ==> j < places[left as int])
                        ==> j < self.idle_sessions@.len() && self.idle_sessions@[j] == idle[j],
                gone@ == places.reverse().map_values(|at: int| idle[at].0).take(
                    places.len() - left,
                ),
            decreases left,
        {
            let at: usize = stale[left - 1];
            assert(listed[left - 1] == at as int);
            let ghost before = self.idle_sessions@;
            assert(places.take(left as int).last() == at);
            assert(places.take(left as int).drop_last() =~= places.take(left - 1));
            let (key, since) = self.idle_sessions.swap_remove(at);
            assert(self.idle_sessions@ =~= before.update(at as int, before.last()).drop_last());
            assert(before[at as int] == idle[at as int]);
            proof {
                let all = places.reverse().map_values(|place: int| idle[place].0);
                assert(all[places.len() - left] == idle[places[left - 1]].0);
            }
            gone.push(key);
            left = left - 1;
            proof {
                if left > 0 {
                    assert(places[left - 1] < places[left as int]);
                }
                assert forall|j: int| 0 <= j < idle.len() && j < places[left as int] implies j
                    < self.idle_sessions@.len() && self.idle_sessions@[j] == idle[j] by {
                    assert(j < at);
                    assert(before[j] == idle[j]);
                }
            }
        }
        assert(places.take(0) =~= Seq::empty());
        gone
    }
}

/// The attempts at one stream.
pub struct StreamAttempts {
    pub left: u8,
}

impl StreamAttempts {
    pub fn new() -> (attempts: StreamAttempts)
        ensures
            attempts.left == STREAM_ATTEMPTS,
    {
        StreamAttempts { left: STREAM_ATTEMPTS }
    }

    /// A session could not open a stream. The session is closed; whether
    /// another is tried.
    pub fn failed(&mut self) -> (again: bool)
        requires
            old(self).left > 0,
        ensures
            final(self).left == old(self).left - 1,
            again == (final(self).left > 0),
    {
        self.left = self.left - 1;
        self.left > 0
    }
}

/// A session is free where it is open and has no stream. A session that is idle
/// goes before the others, the one that became idle last before those that did
/// so earlier; of the others the first that is free is taken.
pub proof fn law_choice(list: Seq<(u64, (bool, usize))>, idle: Seq<(u64, u64)>, at: int)
    requires
        0 <= at < list.len(),
        forall|i: int|
            0 <= i < at ==> (#[trigger] list[i]).1.0 || list[i].1.1 > 0,
    ensures
        !list[at].1.0 && list[at].1.1 == 0 ==> first_with_room(list) == Some(list[at].0),
        has_room((false, 0)),
        !has_room((false, 1)),
        !has_room((true, 0)),
        idle.len() > 0 && is_free(list, idle.last().0) ==> pick_idle(list, idle) == (
            Some(idle.last().0),
            idle.drop_last(),
        ),
        idle.len() > 0 && !is_free(list, idle.last().0) ==> pick_idle(list, idle) == pick_idle(
            list,
            idle.drop_last(),
        ),
        STREAM_ATTEMPTS == 3,
        MAX_STREAMS_PER_SESSION == 1,
    decreases at,
{
    if at > 0 {
        let rest = list.skip(1);
        assert(list[0].1.0 || list[0].1.1 > 0);
        assert forall|i: int| 0 <= i < at - 1 implies (#[trigger] rest[i]).1.0 || rest[i].1.1
            > 0 by {
            assert(rest[i] == list[i + 1]);
        }
        law_choice(rest, idle, at - 1);
    }
}

/// An idle session is kept while it has been idle for less than the time allowed
/// or while too few are kept; a clock that went back counts as no time.
pub proof fn law_keeps_idle(idle: (u64, u64), kept: nat, now: u64, timeout: u64, min_idle: nat)
    ensures
        kept < min_idle ==> keeps_idle(idle, kept, now, timeout, min_idle),
        kept >= min_idle && now >= idle.1 ==> (keeps_idle(idle, kept, now, timeout, min_idle)
            <==> now - idle.1 < timeout),
        kept >= min_idle && now < idle.1 ==> (keeps_idle(idle, kept, now, timeout, min_idle)
            <==> timeout > 0),
{
}

/// What is kept under a key is the last that was set, no other key changes by
/// it, and a key that is taken out is gone.
pub proof fn law_listed(list: Seq<(u64, (bool, usize))>, key: u64, value: (bool, usize))
    ensures
        0 <= place_of(list, key) <= list.len(),
        place_of(list, key) < list.len() ==> list[place_of(list, key)].0 == key,
        forall|i: int| 0 <= i < place_of(list, key) ==> (#[trigger] list[i]).0 != key,
        ({
            let set = with_value(list, key, value);
            &&& set.len() == (if place_of(list, key) < list.len() {
                list.len()
            } else {
                list.len() + 1
            })
            &&& set[place_of(list, key)] == (key, value)
            &&& forall|i: int|
                0 <= i < list.len() && i != place_of(list, key) ==> #[trigger] set[i] == list[i]
        }),
        place_of(list, key) == list.len() ==> without_key(list, key) == list,
        place_of(list, key) < list.len() ==> without_key(list, key).len() == list.len() - 1,
    decreases list.len(),
{
    if list.len() > 0 && list[0].0 != key {
        let rest = list.skip(1);
        law_listed(rest, key, value);
        assert(place_of(list, key) == 1 + place_of(rest, key));
        if place_of(rest, key) < rest.len() {
            assert(rest[place_of(rest, key)] == list[place_of(list, key)]);
        }
        assert forall|i: int| 0 <= i < place_of(list, key) implies (#[trigger] list[i]).0
            != key by {
            if i > 0 {
                assert(rest[i - 1] == list[i]);
            }
        }
    }
}

/// A session is made only where none is free, and one that is idle goes before
/// the others.
pub proof fn law_created_last(list: Seq<(u64, (bool, usize))>, idle: Seq<(u64, u64)>, at: int)
    requires
        0 <= at < list.len(),
    ensures
        !list[at].1.0 && list[at].1.1 == 0 ==> !(choice_of(list, idle) is Create),
        choice_of(list, idle) is Create ==> list[at].1.0 || list[at].1.1 > 0,
        idle.len() > 0 && is_free(list, idle.last().0) ==> choice_of(list, idle)
            == SessionChoice::Idle(idle.last().0),
        choice_of(Seq::empty(), Seq::empty()) is Create,
    decreases list.len(),
{
    if !list[at].1.0 && list[at].1.1 == 0 {
        lemma_some_room(list, at);
    }
}

proof fn lemma_some_room(list: Seq<(u64, (bool, usize))>, at: int)
    requires
        0 <= at < list.len(),
        has_room(list[at].1),
    ensures
        first_with_room(list) is Some,
    decreases list.len(),
{
    if !has_room(list[0].1) {
        assert(list.skip(1)[at - 1] == list[at]);
        lemma_some_room(list.skip(1), at - 1);
    }
}

/// A session is open where it is known and was not closed.
pub proof fn law_open(list: Seq<(u64, (bool, usize))>, key: u64, closed: bool, streams: usize)
    ensures
        is_open(with_value(list, key, (closed, streams)), key) == !closed,
        is_free(with_value(list, key, (closed, streams)), key) == (!closed && streams == 0),
        place_of(list, key) == list.len() ==> !is_open(list, key) && !is_free(list, key),
{
    law_listed(list, key, (closed, streams));
    let set = with_value(list, key, (closed, streams));
    let at = place_of(list, key);
    lemma_place(set, key, at);
}

proof fn lemma_place(list: Seq<(u64, (bool, usize))>, key: u64, at: int)
    requires
        0 <= at < list.len(),
        list[at].0 == key,
        forall|i: int| 0 <= i < at ==> (#[trigger] list[i]).0 != key,
    ensures
        place_of(list, key) == at,
    decreases list.len(),
{
    if at > 0 {
        assert(list[0].0 != key);
        let rest = list.skip(1);
        assert forall|i: int| 0 <= i < at - 1 implies (#[trigger] rest[i]).0 != key by {
            assert(rest[i] == list[i + 1]);
        }
        lemma_place(rest, key, at - 1);
    }
}

} // verus!
