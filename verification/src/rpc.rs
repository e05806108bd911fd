//! Packets, and the table that matches each outgoing request with the
//! response to it or with the expiry of its deadline.

use crate::clock::now_millis;
use crate::id::same_id;
use crate::routing::KadId;
use crate::routing::RoutingEntry;
use vstd::prelude::*;

verus! {

/// The time a request waits for its response, in milliseconds.
pub const REQUEST_TIMEOUT_MS: u128 = 10_000;

/// What a node may ask of another.
#[allow(non_camel_case_types)]
#[derive(Debug)]
pub enum request_types {
    PING,
    STORE(KadId, KadId),
    GET_NODE(KadId),
    GET_VALUE(KadId),
}

/// The answer to `GET_VALUE`: the value, or contacts closer to it.
#[allow(non_camel_case_types)]
#[derive(Debug)]
pub enum get_value {
    VALUE(KadId),
    NODES(Vec<RoutingEntry>),
}

/// The answers to the requests.
#[allow(non_camel_case_types)]
#[derive(Debug)]
pub enum response_types {
    PING(bool),
    STORE(bool),
    GET_NODE(Vec<RoutingEntry>),
    GET_VALUE(get_value),
}

/// A packet carries a request or a response.
#[allow(non_camel_case_types)]
#[derive(Debug)]
pub enum packet_body {
    REQUEST(request_types),
    RESPONSE(response_types),
}

/// What every packet carries: sender, destination, transaction and body.
#[allow(non_camel_case_types)]
#[derive(Debug)]
pub struct kad_packet {
    pub src: KadId,
    pub dest: KadId,
    pub txid: KadId,
    pub body: packet_body,
}

/// The model of one transaction in flight. It is pending until it has
/// either a response or timed out, and never has both.
pub struct Session {
    pub request: kad_packet,
    pub response: Option<kad_packet>,
    pub created: nat,
    pub timed_out: bool,
}

impl Session {
    /// Neither answered nor timed out.
    pub open spec fn pending(self) -> bool {
        self.response is None && !self.timed_out
    }

    /// Not both answered and timed out.
    pub open spec fn valid(self) -> bool {
        !(self.response is Some && self.timed_out)
    }

    /// The deadline has passed at `now`.
    pub open spec fn due(self, now: nat, timeout: nat) -> bool {
        now >= self.created + timeout
    }

    /// The milliseconds from `now` to the deadline, 0 once it has passed.
    pub open spec fn left(self, now: nat, timeout: nat) -> nat {
        if self.due(now, timeout) {
            0
        } else {
            (self.created + timeout - now) as nat
        }
    }

    /// The transaction after `rsp` has arrived: a pending one takes it as
    /// its response, any other stays as it is.
    pub open spec fn complete(self, rsp: kad_packet) -> Session {
        if self.pending() {
            Session { response: Some(rsp), ..self }
        } else {
            self
        }
    }

    /// The transaction after its waiter has looked at the clock: a pending
    /// one whose deadline has passed is timed out, any other stays as it
    /// is.
    pub open spec fn expire(self, now: nat, timeout: nat) -> Session {
        if self.pending() && self.due(now, timeout) {
            Session { timed_out: true, ..self }
        } else {
            self
        }
    }
}

/// The session of a request issued at `now`.
pub open spec fn opened(request: kad_packet, now: nat) -> Session {
    Session { request, response: None, created: now, timed_out: false }
}

/// A response for `id` would be accepted: the transaction is in flight and
/// pending.
pub open spec fn accepts(sessions: Map<Seq<u8>, Session>, id: Seq<u8>) -> bool {
    sessions.contains_key(id) && sessions[id].pending()
}

/// The sessions after the response `rsp` has arrived for `id`.
pub open spec fn completed(
    sessions: Map<Seq<u8>, Session>,
    id: Seq<u8>,
    rsp: kad_packet,
) -> Map<Seq<u8>, Session> {
    if sessions.contains_key(id) {
        sessions.insert(id, sessions[id].complete(rsp))
    } else {
        sessions
    }
}

/// The sessions after each response of `responses` has arrived for `id`, in
/// turn.
pub open spec fn completed_all(
    sessions: Map<Seq<u8>, Session>,
    id: Seq<u8>,
    responses: Seq<kad_packet>,
) -> Map<Seq<u8>, Session>
    decreases responses.len(),
{
    if responses.len() == 0 {
        sessions
    } else {
        completed(completed_all(sessions, id, responses.drop_last()), id, responses.last())
    }
}

/// The sessions after the waiter of `id` has looked at the clock.
pub open spec fn expired(
    sessions: Map<Seq<u8>, Session>,
    id: Seq<u8>,
    now: nat,
    timeout: nat,
) -> Map<Seq<u8>, Session> {
    if sessions.contains_key(id) {
        sessions.insert(id, sessions[id].expire(now, timeout))
    } else {
        sessions
    }
}

/// Of the responses that arrive for one transaction at most one is
/// accepted: whatever became of the first, a second is refused and changes
/// nothing, and a first that was accepted is the response that stays.
pub proof fn completes_at_most_once(
    sessions: Map<Seq<u8>, Session>,
    id: Seq<u8>,
    first: kad_packet,
    second: kad_packet,
)
    ensures
        !accepts(completed(sessions, id, first), id),
        completed(completed(sessions, id, first), id, second) == completed(sessions, id, first),
        accepts(sessions, id) ==> completed(sessions, id, first)[id].response == Some(first),
{
    let once = completed(sessions, id, first);
    assert(completed(once, id, second) =~= once);
}

/// However many responses arrive for one transaction, the sessions are as
/// the first one left them, and every later one is refused.
pub proof fn first_response_wins(
    sessions: Map<Seq<u8>, Session>,
    id: Seq<u8>,
    responses: Seq<kad_packet>,
)
    requires
        responses.len() > 0,
    ensures
        completed_all(sessions, id, responses) == completed(sessions, id, responses[0]),
        !accepts(completed_all(sessions, id, responses), id),
    decreases responses.len(),
{
    let earlier = responses.drop_last();
    if earlier.len() == 0 {
        assert(completed_all(sessions, id, earlier) == sessions);
        completes_at_most_once(sessions, id, responses[0], responses[0]);
    } else {
        first_response_wins(sessions, id, earlier);
        completes_at_most_once(sessions, id, responses[0], responses.last());
    }
}

/// A transaction is never both answered and timed out: after its waiter has
/// looked at the clock it is in exactly one of the three states, answered
/// if it was answered before, and timed out only if it was not.
pub proof fn outcome_is_exclusive(s: Session, now: nat, timeout: nat)
    requires
        s.valid(),
    ensures
        s.expire(now, timeout).valid(),
        s.expire(now, timeout).response == s.response,
        s.expire(now, timeout).pending() <==> s.pending() && !s.due(now, timeout),
        s.expire(now, timeout).timed_out <==> s.timed_out || (s.pending() && s.due(now, timeout)),
{
}

/// A timeout is final: once the waiter of `id` has seen the deadline pass,
/// a response that arrives later is refused and dropped, and the
/// transaction shows as timed out whenever it is looked at again.
pub proof fn timeout_is_final(
    sessions: Map<Seq<u8>, Session>,
    id: Seq<u8>,
    now: nat,
    timeout: nat,
    late: kad_packet,
    later: nat,
    later_timeout: nat,
)
    requires
        accepts(sessions, id),
        sessions[id].due(now, timeout),
    ensures
        expired(sessions, id, now, timeout)[id].timed_out,
        expired(sessions, id, now, timeout)[id].response is None,
        !accepts(expired(sessions, id, now, timeout), id),
        completed(expired(sessions, id, now, timeout), id, late) == expired(
            sessions,
            id,
            now,
            timeout,
        ),
        expired(expired(sessions, id, now, timeout), id, later, later_timeout) == expired(
            sessions,
            id,
            now,
            timeout,
        ),
{
    let fired = expired(sessions, id, now, timeout);
    assert(completed(fired, id, late) =~= fired);
    assert(expired(fired, id, later, later_timeout) =~= fired);
}

/// A response that was accepted before the deadline was seen to pass
/// stays: the transaction shows as answered whenever it is looked at, and
/// does not time out.
pub proof fn response_is_final(
    sessions: Map<Seq<u8>, Session>,
    id: Seq<u8>,
    rsp: kad_packet,
    now: nat,
    timeout: nat,
)
    requires
        accepts(sessions, id),
    ensures
        completed(sessions, id, rsp)[id].response == Some(rsp),
        expired(completed(sessions, id, rsp), id, now, timeout) == completed(sessions, id, rsp),
{
    let done = completed(sessions, id, rsp);
    assert(expired(done, id, now, timeout) =~= done);
}

/// Where a transaction stands, as its waiter sees it.
pub enum SessionState<'a> {
    Pending,
    Responded(&'a kad_packet),
    TimedOut,
}

/// The state that the waiter of `s` is shown.
pub open spec fn shown(s: Session, state: SessionState<'_>) -> bool {
    match state {
        SessionState::Pending => s.pending(),
        SessionState::Responded(rsp) => s.response == Some(*rsp),
        SessionState::TimedOut => s.timed_out,
    }
}

/// One transaction in flight.
pub struct SessionEntry {
    txid: KadId,
    req: kad_packet,
    rsp: Option<kad_packet>,
    created: u128,
    expired: bool,
}

impl View for SessionEntry {
    type V = Session;

    closed spec fn view(&self) -> Session {
        Session {
            request: self.req,
            response: self.rsp,
            created: self.created as nat,
            timed_out: self.expired,
        }
    }
}

impl SessionEntry {
    /// The transaction identifier.
    pub closed spec fn key(&self) -> Seq<u8> {
        self.txid@
    }

    /// The entry of the transaction `txid` for the request `req`, issued at
    /// the time `now`.
    pub fn opened_at(txid: KadId, req: kad_packet, now: u128) -> (entry: SessionEntry)
        ensures
            entry.key() == txid@,
            entry@ == opened(req, now as nat),
    {
        SessionEntry { txid, req, rsp: None, created: now, expired: false }
    }

    /// The identifier of the transaction.
    pub fn txid(&self) -> (txid: &KadId)
        ensures
            txid@ == self.key(),
    {
        &self.txid
    }

    /// The request that opened the transaction.
    pub fn request(&self) -> (req: &kad_packet)
        ensures
            *req == self@.request,
    {
        &self.req
    }

    /// The response, once one has been accepted.
    pub fn response(&self) -> (rsp: Option<&kad_packet>)
        ensures
            match rsp {
                Some(packet) => self@.response == Some(*packet),
                None => self@.response is None,
            },
    {
        self.rsp.as_ref()
    }

    /// When the request was issued, in milliseconds.
    pub fn created(&self) -> (millis: u128)
        ensures
            millis == self@.created,
    {
        self.created
    }

    /// The milliseconds that a waiter has yet to wait at `now` for the
    /// deadline, `timeout` milliseconds after the creation: 0 once it has
    /// passed, and `u128::MAX` where the number does not fit.
    pub fn time_left(&self, now: u128, timeout: u128) -> (left: u128)
        ensures
            left == if self@.left(now as nat, timeout as nat) <= u128::MAX {
                self@.left(now as nat, timeout as nat)
            } else {
                u128::MAX as nat
            },
    {
        if now >= self.created {
            let elapsed = now - self.created;
            if elapsed >= timeout {
                0
            } else {
                timeout - elapsed
            }
        } else {
            match timeout.checked_add(self.created - now) {
                Some(left) => left,
                None => u128::MAX,
            }
        }
    }

    /// Where the transaction stands.
    pub fn state(&self) -> (state: SessionState<'_>)
        ensures
            shown(self@, state),
    {
        // a response, once there, is what the waiter gets
        if let Some(rsp) = &self.rsp {
            SessionState::Responded(rsp)
        } else if self.expired {
            SessionState::TimedOut
        } else {
            SessionState::Pending
        }
    }

    /// Times the transaction out if it is pending and its deadline,
    /// `timeout` milliseconds after its creation, has passed at `now`.
    pub fn expire(&mut self, now: u128, timeout: u128)
        ensures
            final(self)@ == old(self)@.expire(now as nat, timeout as nat),
            final(self).key() == old(self).key(),
    {
        if self.rsp.is_none() && !self.expired && now >= self.created && now - self.created
            >= timeout {
            self.expired = true;
        }
    }

    /// Looks at the transaction at the time `now`, with `timeout`
    /// milliseconds allowed since its creation: a response that has arrived
    /// is shown, a pending transaction whose deadline has passed times out
    /// for good, and any other is still pending.
    pub fn poll(&mut self, now: u128, timeout: u128) -> (state: SessionState<'_>)
        ensures
            final(self)@ == old(self)@.expire(now as nat, timeout as nat),
            final(self).key() == old(self).key(),
            shown(final(self)@, state),
    {
        self.expire(now, timeout);
        self.state()
    }
}

/// Some entry of `entries` belongs to the transaction `id`.
spec fn holds(entries: Seq<SessionEntry>, id: Seq<u8>) -> bool {
    exists|i: int| 0 <= i < entries.len() && (#[trigger] entries[i]).key() == id
}

/// The position of the entry of the transaction `id`.
spec fn slot(entries: Seq<SessionEntry>, id: Seq<u8>) -> int {
    choose|i: int| 0 <= i < entries.len() && (#[trigger] entries[i]).key() == id
}

/// No transaction has two entries.
spec fn unique(entries: Seq<SessionEntry>) -> bool {
    forall|i: int, j: int|
        0 <= i < j < entries.len() ==> (#[trigger] entries[i]).key() != (
        #[trigger] entries[j]).key()
}

proof fn lemma_slot(entries: Seq<SessionEntry>, i: int)
    requires
        unique(entries),
        0 <= i < entries.len(),
    ensures
        holds(entries, entries[i].key()),
        slot(entries, entries[i].key()) == i,
{
    let k = slot(entries, entries[i].key());
    if k < i {
        assert(entries[k].key() != entries[i].key());
    } else if i < k {
        assert(entries[i].key() != entries[k].key());
    }
}

/// The sessions of `entries`, each under its transaction identifier.
spec fn sessions(entries: Seq<SessionEntry>) -> Map<Seq<u8>, Session> {
    Map::new(|id: Seq<u8>| holds(entries, id), |id: Seq<u8>| entries[slot(entries, id)]@)
}

/// With a new transaction appended, the sessions gain its session.
proof fn lemma_appended(before: Seq<SessionEntry>, entry: SessionEntry)
    requires
        unique(before),
        !holds(before, entry.key()),
    ensures
        unique(before.push(entry)),
        sessions(before.push(entry)) == sessions(before).insert(entry.key(), entry@),
{
    let after = before.push(entry);
    let n = before.len() as int;
    assert forall|i: int, j: int| 0 <= i < j < after.len() implies (#[trigger] after[i]).key() != (
    #[trigger] after[j]).key() by {
        if j == n {
            assert(before[i].key() != entry.key());
        } else {
            assert(before[i].key() != before[j].key());
        }
    }
    lemma_slot(after, n);
    assert forall|id: Seq<u8>| holds(after, id) <==> (id == entry.key() || holds(before, id)) by {
        if holds(after, id) && id != entry.key() {
            assert(before[slot(after, id)].key() == id);
        }
        if holds(before, id) {
            assert(after[slot(before, id)].key() == id);
        }
    }
    assert forall|id: Seq<u8>| holds(before, id) implies after[slot(after, id)]@ == before[slot(
        before,
        id,
    )]@ by {
        let k = slot(before, id);
        assert(after[k] == before[k]);
        lemma_slot(after, k);
    }
    assert(sessions(after) =~= sessions(before).insert(entry.key(), entry@));
}

/// With the entry at `i` changed but for its identifier, the sessions
/// change under that identifier only.
proof fn lemma_replaced(before: Seq<SessionEntry>, after: Seq<SessionEntry>, i: int)
    requires
        unique(before),
        0 <= i < before.len(),
        after.len() == before.len(),
        after[i].key() == before[i].key(),
        forall|j: int| 0 <= j < before.len() && j != i ==> after[j] == before[j],
    ensures
        unique(after),
        sessions(after) == sessions(before).insert(before[i].key(), after[i]@),
{
    assert forall|j: int| 0 <= j < before.len() implies (#[trigger] after[j]).key()
        == before[j].key() by {}
    assert forall|a: int, b: int| 0 <= a < b < after.len() implies (#[trigger] after[a]).key() != (
    #[trigger] after[b]).key() by {
        assert(before[a].key() != before[b].key());
    }
    assert forall|id: Seq<u8>| holds(after, id) <==> holds(before, id) by {
        if holds(after, id) {
            assert(before[slot(after, id)].key() == id);
        }
        if holds(before, id) {
            assert(after[slot(before, id)].key() == id);
        }
    }
    lemma_slot(before, i);
    lemma_slot(after, i);
    assert forall|id: Seq<u8>| holds(before, id) && id != before[i].key() implies after[slot(
        after,
        id,
    )]@ == before[slot(before, id)]@ by {
        let k = slot(before, id);
        lemma_slot(after, k);
    }
    assert(sessions(after) =~= sessions(before).insert(before[i].key(), after[i]@));
}

/// With the entry at `i` taken out, the sessions lose its session.
proof fn lemma_removed(before: Seq<SessionEntry>, i: int)
    requires
        unique(before),
        0 <= i < before.len(),
    ensures
        unique(before.remove(i)),
        sessions(before.remove(i)) == sessions(before).remove(before[i].key()),
{
    let after = before.remove(i);
    assert forall|j: int| 0 <= j < after.len() implies #[trigger] after[j] == before[if j < i {
        j
    } else {
        j + 1
    }] by {}
    assert forall|a: int, b: int| 0 <= a < b < after.len() implies (#[trigger] after[a]).key() != (
    #[trigger] after[b]).key() by {
        let a0 = if a < i { a } else { a + 1 };
        let b0 = if b < i { b } else { b + 1 };
        assert(before[a0].key() != before[b0].key());
    }
    lemma_slot(before, i);
    assert forall|id: Seq<u8>|
        holds(after, id) <==> (holds(before, id) && id != before[i].key()) by {
        if holds(after, id) {
            let j = slot(after, id);
            let j0 = if j < i { j } else { j + 1 };
            assert(before[j0].key() == id);
            lemma_slot(before, j0);
        }
        if holds(before, id) && id != before[i].key() {
            let j0 = slot(before, id);
            let j = if j0 < i { j0 } else { j0 - 1 };
            assert(after[j] == before[j0]);
            assert(after[j].key() == id);
        }
    }
    assert forall|id: Seq<u8>| holds(after, id) implies after[slot(after, id)]@ == before[slot(
        before,
        id,
    )]@ by {
        let j = slot(after, id);
        let j0 = if j < i { j } else { j + 1 };
        assert(after[j] == before[j0]);
        lemma_slot(before, j0);
    }
    assert(sessions(after) =~= sessions(before).remove(before[i].key()));
}

/// The transactions in flight, each under its identifier.
pub struct SessionTable {
    entries: Vec<SessionEntry>,
}

impl View for SessionTable {
    type V = Map<Seq<u8>, Session>;

    closed spec fn view(&self) -> Map<Seq<u8>, Session> {
        sessions(self.entries@)
    }
}

impl SessionTable {
    /// No transaction has two entries, and none is both answered and timed
    /// out.
    pub closed spec fn wf(&self) -> bool {
        &&& unique(self.entries@)
        &&& forall|i: int| 0 <= i < self.entries@.len() ==> (#[trigger] self.entries@[i])@.valid()
    }

    /// In a well-formed table no transaction is both answered and timed
    /// out.
    pub proof fn lemma_wf(&self)
        requires
            self.wf(),
        ensures
            forall|id: Seq<u8>| self@.contains_key(id) ==> (#[trigger] self@[id]).valid(),
    {
        assert forall|id: Seq<u8>| self@.contains_key(id) implies (
        #[trigger] self@[id]).valid() by {
            assert(self.entries@[slot(self.entries@, id)]@.valid());
        }
    }

    /// A table without transactions.
    pub fn new() -> (table: SessionTable)
        ensures
            table.wf(),
            table@ == Map::<Seq<u8>, Session>::empty(),
    {
        let table = SessionTable { entries: Vec::new() };
        assert(table@ =~= Map::<Seq<u8>, Session>::empty());
        table
    }

    /// Where the entry of `txid` stands, if the transaction is in flight.
    fn position(&self, txid: &KadId) -> (found: Option<usize>)
        requires
            self.wf(),
        ensures
            match found {
                Some(i) => {
                    &&& i < self.entries@.len()
                    &&& self.entries@[i as int].key() == txid@
                    &&& self@.contains_key(txid@)
                    &&& self@[txid@] == self.entries@[i as int]@
                },
                None => !self@.contains_key(txid@),
            },
    {
        let mut i: usize = 0;
        while i < self.entries.len()
            invariant
                i <= self.entries.len(),
                self.wf(),
                forall|j: int| 0 <= j < i ==> (#[trigger] self.entries@[j]).key() != txid@,
            decreases self.entries.len() - i,
        {
            if same_id(&self.entries[i].txid, txid) {
                proof {
                    lemma_slot(self.entries@, i as int);
                }
                return Some(i);
            }
            i += 1;
        }
        None
    }

    /// The entry of the transaction `txid`, if it is in flight.
    pub fn get(&self, txid: KadId) -> (found: Option<&SessionEntry>)
        requires
            self.wf(),
        ensures
            match found {
                Some(entry) => {
                    &&& self@.contains_key(txid@)
                    &&& entry@ == self@[txid@]
                    &&& entry.key() == txid@
                },
                None => !self@.contains_key(txid@),
            },
    {
        match self.position(&txid) {
            Some(i) => Some(&self.entries[i]),
            None => None,
        }
    }

    /// Opens the transaction `txid` for the request `packet`, issued at the
    /// time `now`. The identifier must not be in use.
    pub fn add_at(&mut self, txid: KadId, packet: kad_packet, now: u128)
        requires
            old(self).wf(),
            !old(self)@.contains_key(txid@),
        ensures
            final(self).wf(),
            final(self)@ == old(self)@.insert(txid@, opened(packet, now as nat)),
    {
        let entry = SessionEntry::opened_at(txid, packet, now);
        proof {
            lemma_appended(self.entries@, entry);
        }
        self.entries.push(entry);
    }

    /// Opens the transaction `txid` for the request `packet`, issued now.
    /// The table is left as [`SessionTable::add_at`] leaves it for the time
    /// the clock showed.
    pub fn add(&mut self, txid: KadId, packet: kad_packet)
        requires
            old(self).wf(),
            !old(self)@.contains_key(txid@),
        ensures
            final(self).wf(),
            exists|now: nat|
                final(self)@ == old(self)@.insert(
                    txid@,
                    #[trigger] opened(packet, now),
                ),
    {
        let now = now_millis();
        self.add_at(txid, packet, now);
        assert(self@ == old(self)@.insert(txid@, opened(packet, now as nat)));
    }

    /// Hands the response `rsp` to the transaction `txid`. It is accepted,
    /// and kept, only where the transaction is in flight and still pending:
    /// a response to an unknown, answered or timed-out transaction is
    /// dropped.
    pub fn update(&mut self, txid: KadId, rsp: kad_packet) -> (accepted: bool)
        requires
            old(self).wf(),
        ensures
            final(self).wf(),
            accepted == accepts(old(self)@, txid@),
            final(self)@ == completed(old(self)@, txid@, rsp),
    {
        match self.position(&txid) {
            Some(i) => {
                if self.entries[i].rsp.is_none() && !self.entries[i].expired {
                    let ghost before = self.entries@;
                    self.entries[i].rsp = Some(rsp);
                    proof {
                        lemma_replaced(before, self.entries@, i as int);
                    }
                    true
                } else {
                    assert(self@ =~= completed(old(self)@, txid@, rsp));
                    false
                }
            },
            None => false,
        }
    }

    /// Closes the transaction `txid`, whatever its state.
    pub fn remove(&mut self, txid: KadId)
        requires
            old(self).wf(),
        ensures
            final(self).wf(),
            final(self)@ == old(self)@.remove(txid@),
    {
        match self.position(&txid) {
            Some(i) => {
                proof {
                    lemma_removed(self.entries@, i as int);
                }
                self.entries.remove(i);
            },
            None => {
                assert(self@ =~= old(self)@.remove(txid@));
            },
        }
    }

    /// Looks at the transaction `txid` at the time `now`, with `timeout`
    /// milliseconds allowed since the request was issued. A response that
    /// has arrived is shown; a pending transaction whose deadline has
    /// passed times out for good; any other is still pending. Nothing is
    /// shown for a transaction that is not in flight.
    pub fn poll(&mut self, txid: KadId, now: u128, timeout: u128) -> (state: Option<
        SessionState<'_>,
    >)
        requires
            old(self).wf(),
        ensures
            final(self).wf(),
            final(self)@ == expired(old(self)@, txid@, now as nat, timeout as nat),
            match state {
                Some(state) => old(self)@.contains_key(txid@) && shown(final(self)@[txid@], state),
                None => !old(self)@.contains_key(txid@),
            },
    {
        match self.position(&txid) {
            Some(i) => {
                let ghost before = self.entries@;
                self.entries[i].expire(now, timeout);
                proof {
                    lemma_replaced(before, self.entries@, i as int);
                    lemma_slot(self.entries@, i as int);
                }
                Some(self.entries[i].state())
            },
            None => None,
        }
    }
}

} // verus!
