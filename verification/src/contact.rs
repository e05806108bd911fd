//! The mathematical model of a bucket's content: a sequence of contacts in
//! the order in which they were last heard from.

use crate::id::same_id;
use vstd::prelude::*;

verus! {

/// What a bucket remembers of one peer.
pub struct Contact {
    pub id: Seq<u8>,
    pub ip: Seq<char>,
    pub port: Seq<char>,
    pub last_seen: nat,
}

/// Some contact of `s` carries the identifier `id`.
pub open spec fn knows(s: Seq<Contact>, id: Seq<u8>) -> bool {
    exists|i: int| 0 <= i < s.len() && (#[trigger] s[i]).id == id
}

/// The position in `s` of the contact that carries `id`, where `s` knows it.
pub open spec fn index_of(s: Seq<Contact>, id: Seq<u8>) -> int {
    choose|i: int| 0 <= i < s.len() && (#[trigger] s[i]).id == id
}

/// No identifier occurs twice in `s`.
pub open spec fn distinct(s: Seq<Contact>) -> bool {
    forall|i: int, j: int|
        0 <= i < j < s.len() ==> (#[trigger] s[i]).id != (#[trigger] s[j]).id
}

/// The contact at `i` was seen no later than any other, and strictly
/// earlier than every contact that stands before it.
pub open spec fn is_oldest(s: Seq<Contact>, i: int) -> bool {
    &&& 0 <= i < s.len()
    &&& forall|j: int|
        0 <= j < s.len() ==> s[i].last_seen <= (#[trigger] s[j]).last_seen
    &&& forall|j: int| 0 <= j < i ==> s[i].last_seen < (#[trigger] s[j]).last_seen
}

/// The position of the contact to evict: the least `last_seen`, and among
/// equals the one that stands first.
pub open spec fn oldest(s: Seq<Contact>) -> int {
    choose|i: int| is_oldest(s, i)
}

/// The content of a bucket of the given capacity after it has heard from
/// `c`. A known identifier is refreshed and moves to the back; an unknown
/// one is appended while there is room, and otherwise takes the place of the
/// oldest contact. A bucket without capacity stays empty.
pub open spec fn observe(s: Seq<Contact>, capacity: nat, c: Contact) -> Seq<Contact> {
    if knows(s, c.id) {
        s.remove(index_of(s, c.id)).push(c)
    } else if s.len() < capacity {
        s.push(c)
    } else if s.len() > 0 {
        s.remove(oldest(s)).push(c)
    } else {
        s
    }
}

/// The content after hearing from each contact of `cs` in turn.
pub open spec fn observe_all(s: Seq<Contact>, capacity: nat, cs: Seq<Contact>) -> Seq<Contact>
    decreases cs.len(),
{
    if cs.len() == 0 {
        s
    } else {
        observe(observe_all(s, capacity, cs.drop_last()), capacity, cs.last())
    }
}

/// What a bucket stores for a contact.
pub trait Entry: View<V = Contact> + Sized {
    /// The identifier of the peer.
    fn id(&self) -> (id: &[u8; 20])
        ensures
            id@ == self@.id,
    ;

    /// When the peer was last heard from, in milliseconds.
    fn last_seen(&self) -> (millis: u128)
        ensures
            millis == self@.last_seen,
    ;
}

/// The contacts that `entries` stand for.
pub open spec fn contacts<E: Entry>(entries: Seq<E>) -> Seq<Contact> {
    entries.map_values(|e: E| e@)
}

/// Within a sequence of distinct identifiers, a position is found again by
/// its identifier.
pub proof fn lemma_index_of(s: Seq<Contact>, i: int)
    requires
        distinct(s),
        0 <= i < s.len(),
    ensures
        knows(s, s[i].id),
        index_of(s, s[i].id) == i,
{
    let k = index_of(s, s[i].id);
    assert(0 <= k < s.len() && s[k].id == s[i].id);
    if k < i {
        assert(s[k].id != s[i].id);
    } else if i < k {
        assert(s[i].id != s[k].id);
    }
}

/// Where `k` is the oldest position among the first `n` contacts, the
/// oldest among the first `n + 1` is `n` if that contact was seen strictly
/// earlier, and `k` otherwise.
pub proof fn lemma_oldest_grows(s: Seq<Contact>, n: int, k: int)
    requires
        0 < n < s.len(),
        is_oldest(s.take(n), k),
    ensures
        is_oldest(s.take(n + 1), if s[n].last_seen < s[k].last_seen { n } else { k }),
{
    let before = s.take(n);
    let after = s.take(n + 1);
    let m = if s[n].last_seen < s[k].last_seen { n } else { k };
    assert forall|j: int| 0 <= j < after.len() implies after[m].last_seen <= (
    #[trigger] after[j]).last_seen by {
        if j < n {
            assert(before[k].last_seen <= before[j].last_seen);
        }
    }
    assert forall|j: int| 0 <= j < m implies after[m].last_seen < (
    #[trigger] after[j]).last_seen by {
        assert(before[k].last_seen <= before[j].last_seen);
        if m == k {
            assert(before[k].last_seen < before[j].last_seen);
        }
    }
}

/// A non-empty sequence has exactly one oldest position.
pub proof fn lemma_oldest(s: Seq<Contact>)
    requires
        s.len() > 0,
    ensures
        is_oldest(s, oldest(s)),
        forall|i: int| is_oldest(s, i) ==> i == oldest(s),
    decreases s.len(),
{
    if s.len() == 1 {
        assert(is_oldest(s, 0));
    } else {
        let n = s.len() - 1;
        lemma_oldest(s.take(n));
        lemma_oldest_grows(s, n, oldest(s.take(n)));
        assert(s.take(n + 1) =~= s);
    }
    let m = oldest(s);
    assert forall|i: int| is_oldest(s, i) implies i == m by {
        if i < m {
            assert(s[m].last_seen < s[i].last_seen);
            assert(s[i].last_seen <= s[m].last_seen);
        } else if m < i {
            assert(s[i].last_seen < s[m].last_seen);
            assert(s[m].last_seen <= s[i].last_seen);
        }
    }
}

/// Taking one contact out of distinct contacts leaves distinct contacts,
/// forgets its identifier and keeps every other.
pub proof fn lemma_remove(s: Seq<Contact>, i: int)
    requires
        distinct(s),
        0 <= i < s.len(),
    ensures
        distinct(s.remove(i)),
        s.remove(i).len() == s.len() - 1,
        !knows(s.remove(i), s[i].id),
        forall|id: Seq<u8>| id != s[i].id ==> (#[trigger] knows(s.remove(i), id) <==> knows(s, id)),
{
    let t = s.remove(i);
    assert forall|j: int| 0 <= j < t.len() implies #[trigger] t[j] == s[if j < i {
        j
    } else {
        j + 1
    }] by {}
    assert forall|a: int, b: int| 0 <= a < b < t.len() implies (#[trigger] t[a]).id != (
    #[trigger] t[b]).id by {
        let a0 = if a < i { a } else { a + 1 };
        let b0 = if b < i { b } else { b + 1 };
        assert(s[a0].id != s[b0].id);
    }
    if knows(t, s[i].id) {
        let j = index_of(t, s[i].id);
        let j0 = if j < i { j } else { j + 1 };
        assert(t[j] == s[j0]);
        if j0 < i {
            assert(s[j0].id != s[i].id);
        } else {
            assert(s[i].id != s[j0].id);
        }
    }
    assert forall|id: Seq<u8>| id != s[i].id implies (#[trigger] knows(t, id) <==> knows(
        s,
        id,
    )) by {
        if knows(t, id) {
            let j = index_of(t, id);
            let j0 = if j < i { j } else { j + 1 };
            assert(s[j0].id == id);
        }
        if knows(s, id) {
            let j0 = index_of(s, id);
            let j = if j0 < i { j0 } else { j0 - 1 };
            assert(t[j] == s[j0]);
            assert(t[j].id == id);
        }
    }
}

/// Appending a contact with a new identifier to distinct contacts leaves
/// distinct contacts, which know the new identifier and every old one.
pub proof fn lemma_push(s: Seq<Contact>, c: Contact)
    requires
        distinct(s),
        !knows(s, c.id),
    ensures
        distinct(s.push(c)),
        knows(s.push(c), c.id),
        index_of(s.push(c), c.id) == s.len(),
        forall|id: Seq<u8>| id != c.id ==> (#[trigger] knows(s.push(c), id) <==> knows(s, id)),
{
    let t = s.push(c);
    assert forall|a: int, b: int| 0 <= a < b < t.len() implies (#[trigger] t[a]).id != (
    #[trigger] t[b]).id by {
        if b == s.len() {
            assert(s[a].id != c.id);
        } else {
            assert(s[a].id != s[b].id);
        }
    }
    assert(t[s.len() as int].id == c.id);
    lemma_index_of(t, s.len() as int);
    assert forall|id: Seq<u8>| id != c.id implies (#[trigger] knows(t, id) <==> knows(s, id)) by {
        if knows(t, id) {
            let j = index_of(t, id);
            assert(s[j].id == id);
        }
        if knows(s, id) {
            let j = index_of(s, id);
            assert(t[j].id == id);
        }
    }
}

/// After hearing from `c`, a bucket holds nothing but `c` and contacts that
/// it held before.
pub proof fn observe_members(s: Seq<Contact>, capacity: nat, c: Contact)
    ensures
        forall|i: int|
            0 <= i < observe(s, capacity, c).len() ==> (#[trigger] observe(s, capacity, c)[i]) == c
                || s.contains(observe(s, capacity, c)[i]),
{
    let t = observe(s, capacity, c);
    if !knows(s, c.id) && s.len() > 0 {
        lemma_oldest(s);
    }
    assert forall|i: int| 0 <= i < t.len() implies (#[trigger] t[i]) == c || s.contains(t[i]) by {
        if t[i] != c {
            // a contact that stays keeps its place or moves up by one
            assert(t[i] == s[i] || t[i] == s[i + 1]);
        }
    }
}

/// Hearing from a peer keeps the identifiers distinct.
pub proof fn observe_keeps_distinct(s: Seq<Contact>, capacity: nat, c: Contact)
    requires
        distinct(s),
    ensures
        distinct(observe(s, capacity, c)),
{
    if knows(s, c.id) {
        lemma_remove(s, index_of(s, c.id));
        lemma_push(s.remove(index_of(s, c.id)), c);
    } else if s.len() < capacity {
        lemma_push(s, c);
    } else if s.len() > 0 {
        lemma_oldest(s);
        lemma_remove(s, oldest(s));
        lemma_push(s.remove(oldest(s)), c);
    }
}

/// A bucket within its capacity is still within it after it has heard
/// from a peer.
pub proof fn observe_within_capacity(s: Seq<Contact>, capacity: nat, c: Contact)
    requires
        s.len() <= capacity,
    ensures
        observe(s, capacity, c).len() <= capacity,
{
    if knows(s, c.id) {
        s.remove_ensures(index_of(s, c.id));
    } else if s.len() >= capacity && s.len() > 0 {
        lemma_oldest(s);
        s.remove_ensures(oldest(s));
    }
}

/// Whatever peers a bucket hears from, in whatever order, it is within its
/// capacity after each of them.
pub proof fn observe_all_within_capacity(s: Seq<Contact>, capacity: nat, cs: Seq<Contact>)
    requires
        s.len() <= capacity,
    ensures
        forall|n: int|
            0 <= n <= cs.len() ==> (#[trigger] observe_all(s, capacity, cs.take(n))).len()
                <= capacity,
    decreases cs.len(),
{
    assert forall|n: int| 0 <= n <= cs.len() implies (#[trigger] observe_all(
        s,
        capacity,
        cs.take(n),
    )).len() <= capacity by {
        if n > 0 {
            let head = cs.take(n);
            observe_all_within_capacity(s, capacity, head.drop_last());
            assert(head.drop_last().take(n - 1) =~= head.drop_last());
            observe_within_capacity(
                observe_all(s, capacity, head.drop_last()),
                capacity,
                head.last(),
            );
        }
    }
}

/// Hearing from a peer that the bucket knows does not change how many
/// contacts it holds.
pub proof fn observe_known_keeps_len(s: Seq<Contact>, capacity: nat, c: Contact)
    requires
        knows(s, c.id),
    ensures
        observe(s, capacity, c).len() == s.len(),
        knows(observe(s, capacity, c), c.id),
{
    let i = index_of(s, c.id);
    s.remove_ensures(i);
    let t = s.remove(i).push(c);
    assert(t[t.len() - 1].id == c.id);
}

/// A full bucket that hears from a peer it does not know drops the contact
/// that no other was seen before, takes the new one in, keeps every other
/// contact and stays full.
pub proof fn observe_evicts_oldest(s: Seq<Contact>, capacity: nat, c: Contact)
    requires
        distinct(s),
        capacity > 0,
        s.len() == capacity,
        !knows(s, c.id),
    ensures
        forall|j: int| 0 <= j < s.len() ==> s[oldest(s)].last_seen <= (#[trigger] s[j]).last_seen,
        !knows(observe(s, capacity, c), s[oldest(s)].id),
        knows(observe(s, capacity, c), c.id),
        forall|j: int|
            0 <= j < s.len() && j != oldest(s) ==> knows(
                observe(s, capacity, c),
                (#[trigger] s[j]).id,
            ),
        observe(s, capacity, c).len() == capacity,
{
    lemma_oldest(s);
    let v = oldest(s);
    lemma_remove(s, v);
    lemma_push(s.remove(v), c);
    lemma_index_of(s, v);
    assert forall|j: int| 0 <= j < s.len() && j != v implies knows(
        observe(s, capacity, c),
        (#[trigger] s[j]).id,
    ) by {
        lemma_index_of(s, j);
        if j < v {
            assert(s[j].id != s[v].id);
        } else {
            assert(s[v].id != s[j].id);
        }
        assert(knows(s.remove(v), s[j].id));
    }
}

/// Where the contact with `id` stands among `entries`, if it is there.
pub fn position<E: Entry>(entries: &Vec<E>, id: &[u8; 20]) -> (found: Option<usize>)
    requires
        distinct(contacts(entries@)),
    ensures
        match found {
            Some(i) => {
                &&& i < entries@.len()
                &&& knows(contacts(entries@), id@)
                &&& i == index_of(contacts(entries@), id@)
            },
            None => !knows(contacts(entries@), id@),
        },
{
    let ghost s = contacts(entries@);
    let mut i: usize = 0;
    while i < entries.len()
        invariant
            i <= entries.len(),
            s == contacts(entries@),
            distinct(s),
            forall|j: int| 0 <= j < i ==> (#[trigger] s[j]).id != id@,
        decreases entries.len() - i,
    {
        if same_id(entries[i].id(), id) {
            proof {
                assert(s[i as int].id == id@);
                lemma_index_of(s, i as int);
            }
            return Some(i);
        }
        i += 1;
    }
    None
}

/// Where the contact to evict stands among `entries`: the one seen longest
/// ago, and among equals the one that stands first.
pub fn oldest_position<E: Entry>(entries: &Vec<E>) -> (found: Option<usize>)
    ensures
        match found {
            Some(i) => {
                &&& i < entries@.len()
                &&& i == oldest(contacts(entries@))
                &&& is_oldest(contacts(entries@), i as int)
            },
            None => entries@.len() == 0,
        },
{
    if entries.len() == 0 {
        return None;
    }
    let ghost s = contacts(entries@);
    let mut least: usize = 0;
    let mut j: usize = 1;
    assert(is_oldest(s.take(1), 0));
    while j < entries.len()
        invariant
            0 <= least < j <= entries.len(),
            s == contacts(entries@),
            is_oldest(s.take(j as int), least as int),
        decreases entries.len() - j,
    {
        proof {
            lemma_oldest_grows(s, j as int, least as int);
        }
        if entries[j].last_seen() < entries[least].last_seen() {
            least = j;
        }
        j += 1;
    }
    proof {
        assert(s.take(j as int) =~= s);
        lemma_oldest(s);
    }
    Some(least)
}

} // verus!
