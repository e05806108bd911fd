//! The routing table: one bucket of contacts for each distance class from
//! the local identifier.

use crate::clock::now_millis;
use crate::contact::contacts;
use crate::contact::distinct;
use crate::contact::index_of;
use crate::contact::knows;
use crate::contact::lemma_index_of;
use crate::contact::lemma_oldest;
use crate::contact::lemma_push;
use crate::contact::lemma_remove;
use crate::contact::observe;
use crate::contact::observe_members;
use crate::contact::oldest;
use crate::contact::oldest_position;
use crate::contact::position;
use crate::contact::Contact;
use crate::contact::Entry;
use crate::id::bucket_index;
use crate::id::bucket_index_of_self;
use crate::id::lemma_prefix_ends_in;
use crate::id::lemma_prefix_of_equal;
use crate::id::ID_BITS;
use crate::id::ID_BYTES;
use vstd::prelude::*;

verus! {

/// A 160-bit identifier of a node or of a stored key.
pub type KadId = [u8; 20];

/// One contact of the routing table.
#[derive(Debug)]
pub struct RoutingEntry {
    id: KadId,
    ip: String,
    port: String,
    last_seen: u128,
}

impl View for RoutingEntry {
    type V = Contact;

    closed spec fn view(&self) -> Contact {
        Contact { id: self.id@, ip: self.ip@, port: self.port@, last_seen: self.last_seen as nat }
    }
}

impl Entry for RoutingEntry {
    fn id(&self) -> (id: &KadId) {
        &self.id
    }

    fn last_seen(&self) -> (millis: u128) {
        self.last_seen
    }
}

impl RoutingEntry {
    /// A contact last seen at `now`.
    pub fn seen_at(id: KadId, ip: String, port: String, now: u128) -> (entry: RoutingEntry)
        ensures
            entry@ == (Contact { id: id@, ip: ip@, port: port@, last_seen: now as nat }),
    {
        RoutingEntry { id, ip, port, last_seen: now }
    }

    /// A contact last seen at the time the clock shows.
    pub fn new(id: KadId, ip: String, port: String) -> (entry: RoutingEntry)
        ensures
            entry@.id == id@,
            entry@.ip == ip@,
            entry@.port == port@,
    {
        RoutingEntry::seen_at(id, ip, port, now_millis())
    }

    /// The host at which the peer was last heard.
    pub fn ip(&self) -> (ip: &String)
        ensures
            ip@ == self@.ip,
    {
        &self.ip
    }

    /// The port at which the peer was last heard.
    pub fn port(&self) -> (port: &String)
        ensures
            port@ == self@.port,
    {
        &self.port
    }
}

/// The contact `c` as it is after it was heard from again at `now`.
pub open spec fn touched(c: Contact, now: nat) -> Contact {
    Contact { id: c.id, ip: c.ip, port: c.port, last_seen: now }
}

/// A bucket of the routing table: at most `size` contacts with distinct
/// identifiers, in the order in which they were last heard from.
pub struct KBucket {
    size: usize,
    entries: Vec<RoutingEntry>,
}

impl View for KBucket {
    type V = Seq<Contact>;

    closed spec fn view(&self) -> Seq<Contact> {
        contacts(self.entries@)
    }
}

impl KBucket {
    /// The most contacts the bucket holds.
    pub closed spec fn capacity(&self) -> nat {
        self.size as nat
    }

    /// The bucket is within its capacity and no identifier occurs twice.
    pub open spec fn wf(&self) -> bool {
        &&& self@.len() <= self.capacity()
        &&& distinct(self@)
    }

    /// An empty bucket for up to `size` contacts.
    pub fn new(size: usize) -> (bucket: KBucket)
        ensures
            bucket.wf(),
            bucket@ == Seq::<Contact>::empty(),
            bucket.capacity() == size,
    {
        KBucket { size, entries: Vec::new() }
    }

    /// The number of contacts held.
    pub fn len(&self) -> (len: usize)
        ensures
            len == self@.len(),
    {
        self.entries.len()
    }

    /// The capacity the bucket was made with.
    pub fn size(&self) -> (size: usize)
        ensures
            size == self.capacity(),
    {
        self.size
    }

    /// The contacts in the order in which they were last heard from.
    pub fn entries(&self) -> (list: &Vec<RoutingEntry>)
        ensures
            contacts(list@) == self@,
    {
        &self.entries
    }

    /// Whether the bucket holds as many contacts as it can.
    pub fn is_full(&self) -> (full: bool)
        ensures
            full == (self@.len() == self.capacity()),
    {
        return self.size == self.entries.len();
    }

    /// The contact with `id`, if the bucket knows it.
    pub fn get(&self, id: KadId) -> (found: Option<&RoutingEntry>)
        requires
            self.wf(),
        ensures
            match found {
                Some(entry) => knows(self@, id@) && entry@ == self@[index_of(self@, id@)],
                None => !knows(self@, id@),
            },
    {
        match position(&self.entries, &id) {
            Some(i) => Some(&self.entries[i]),
            None => None,
        }
    }

    /// Takes the contact with `id` out of the bucket and hands it over, if
    /// the bucket knows it.
    pub fn remove(&mut self, id: KadId) -> (removed: Option<RoutingEntry>)
        requires
            old(self).wf(),
        ensures
            final(self).wf(),
            final(self).capacity() == old(self).capacity(),
            !knows(final(self)@, id@),
            match removed {
                Some(entry) => {
                    &&& knows(old(self)@, id@)
                    &&& entry@ == old(self)@[index_of(old(self)@, id@)]
                    &&& final(self)@ == old(self)@.remove(index_of(old(self)@, id@))
                },
                None => !knows(old(self)@, id@) && final(self)@ == old(self)@,
            },
    {
        match position(&self.entries, &id) {
            Some(i) => {
                proof {
                    lemma_remove(self@, i as int);
                }
                let entry = self.entries.remove(i);
                assert(self@ =~= old(self)@.remove(i as int));
                Some(entry)
            },
            None => None,
        }
    }

    /// The contact that was seen longest ago, if the bucket holds any.
    pub fn get_oldest(&self) -> (found: Option<&RoutingEntry>)
        ensures
            match found {
                Some(entry) => self@.len() > 0 && entry@ == self@[oldest(self@)],
                None => self@.len() == 0,
            },
    {
        match oldest_position(&self.entries) {
            Some(i) => Some(&self.entries[i]),
            None => None,
        }
    }

    /// Marks the contact with `id` as seen at `now` and moves it to the
    /// back. A bucket that does not know `id` stays as it is.
    pub fn touch_at(&mut self, id: KadId, now: u128) -> (found: Option<&RoutingEntry>)
        requires
            old(self).wf(),
        ensures
            final(self).wf(),
            final(self).capacity() == old(self).capacity(),
            match found {
                Some(entry) => {
                    &&& knows(old(self)@, id@)
                    &&& entry@ == touched(old(self)@[index_of(old(self)@, id@)], now as nat)
                    &&& final(self)@ == old(self)@.remove(index_of(old(self)@, id@)).push(entry@)
                },
                None => !knows(old(self)@, id@) && final(self)@ == old(self)@,
            },
    {
        match position(&self.entries, &id) {
            Some(i) => {
                proof {
                    lemma_remove(self@, i as int);
                }
                let mut entry = self.entries.remove(i);
                entry.last_seen = now;
                let ghost rest = old(self)@.remove(i as int);
                assert(self@ =~= rest);
                proof {
                    lemma_push(rest, entry@);
                }
                self.entries.push(entry);
                assert(self@ =~= rest.push(entry@));
                let last = self.entries.len() - 1;
                Some(&self.entries[last])
            },
            None => None,
        }
    }

    /// Marks the contact with `id` as seen now. The bucket is left as
    /// [`KBucket::touch_at`] leaves it for the time the clock showed.
    pub fn touch(&mut self, id: KadId) -> (found: Option<&RoutingEntry>)
        requires
            old(self).wf(),
        ensures
            final(self).wf(),
            final(self).capacity() == old(self).capacity(),
            match found {
                Some(entry) => {
                    &&& knows(old(self)@, id@)
                    &&& exists|now: nat|
                        entry@ == #[trigger] touched(old(self)@[index_of(old(self)@, id@)], now)
                    &&& final(self)@ == old(self)@.remove(index_of(old(self)@, id@)).push(entry@)
                },
                None => !knows(old(self)@, id@) && final(self)@ == old(self)@,
            },
    {
        let now = now_millis();
        let found = self.touch_at(id, now);
        proof {
            if let Some(entry) = found {
                assert(entry@ == touched(old(self)@[index_of(old(self)@, id@)], now as nat));
            }
        }
        found
    }

    /// Hears from `id` at the time `now`, unless the bucket is full: a
    /// contact that the bucket knows is refreshed, a new one is appended,
    /// and the contact is handed back. A full bucket stays as it is.
    pub fn try_add_at(&mut self, id: KadId, ip: String, port: String, now: u128) -> (added: Option<
        &RoutingEntry,
    >)
        requires
            old(self).wf(),
        ensures
            final(self).wf(),
            final(self).capacity() == old(self).capacity(),
            match added {
                Some(entry) => {
                    &&& old(self)@.len() < old(self).capacity()
                    &&& entry@ == (Contact { id: id@, ip: ip@, port: port@, last_seen: now as nat })
                    &&& final(self)@ == observe(old(self)@, old(self).capacity(), entry@)
                },
                None => old(self)@.len() == old(self).capacity() && final(self)@ == old(self)@,
            },
    {
        let entry = RoutingEntry::seen_at(id, ip, port, now);
        if self.is_full() {
            return None;
        }
        let ghost c = entry@;
        if let Some(i) = position(&self.entries, &id) {
            proof {
                lemma_remove(self@, i as int);
            }
            self.entries.remove(i);
            assert(self@ =~= old(self)@.remove(i as int));
        }
        let ghost rest = self@;
        proof {
            lemma_push(rest, c);
        }
        self.entries.push(entry);
        assert(self@ =~= rest.push(c));
        let last = self.entries.len() - 1;
        Some(&self.entries[last])
    }

    /// Hears from `id` now, unless the bucket is full. The bucket is left
    /// as [`KBucket::try_add_at`] leaves it for the time the clock showed.
    pub fn try_add(&mut self, id: KadId, ip: String, port: String) -> (added: Option<&RoutingEntry>)
        requires
            old(self).wf(),
        ensures
            final(self).wf(),
            final(self).capacity() == old(self).capacity(),
            match added {
                Some(entry) => {
                    &&& old(self)@.len() < old(self).capacity()
                    &&& entry@.id == id@
                    &&& entry@.ip == ip@
                    &&& entry@.port == port@
                    &&& final(self)@ == observe(old(self)@, old(self).capacity(), entry@)
                },
                None => old(self)@.len() == old(self).capacity() && final(self)@ == old(self)@,
            },
    {
        self.try_add_at(id, ip, port, now_millis())
    }

    /// Hears from `id` at the time `now`: refreshes the contact if the
    /// bucket knows it, appends it while there is room, and otherwise lets
    /// it take the place of the contact seen longest ago.
    pub fn admit_or_touch_at(&mut self, id: KadId, ip: String, port: String, now: u128)
        requires
            old(self).wf(),
        ensures
            final(self).wf(),
            final(self).capacity() == old(self).capacity(),
            final(self)@ == observe(
                old(self)@,
                old(self).capacity(),
                Contact { id: id@, ip: ip@, port: port@, last_seen: now as nat },
            ),
    {
        if self.size == 0 {
            return ;
        }
        if self.get(id).is_some() {
            self.remove(id);
        } else if self.is_full() {
            if let Some(entry) = self.get_oldest() {
                let victim = entry.id;
                proof {
                    lemma_oldest(self@);
                    lemma_index_of(self@, oldest(self@));
                }
                self.remove(victim);
            }
        }
        self.try_add_at(id, ip, port, now);
    }

    /// Hears from `id` now. What the bucket holds afterwards is what
    /// [`KBucket::admit_or_touch_at`] leaves for the time the clock showed.
    pub fn admit_or_touch(&mut self, id: KadId, ip: String, port: String)
        requires
            old(self).wf(),
        ensures
            final(self).wf(),
            final(self).capacity() == old(self).capacity(),
            exists|now: nat|
                final(self)@ == #[trigger] observe(
                    old(self)@,
                    old(self).capacity(),
                    Contact { id: id@, ip: ip@, port: port@, last_seen: now },
                ),
    {
        let now = now_millis();
        let ghost c = Contact { id: id@, ip: ip@, port: port@, last_seen: now as nat };
        self.admit_or_touch_at(id, ip, port, now);
        assert(self@ == observe(old(self)@, old(self).capacity(), c));
    }
}

/// The routing table of one node: bucket `b` holds the contacts whose
/// identifiers share exactly `160 - b` leading bits with the local one.
/// Bucket 0 stands for the local identifier itself and is always empty.
pub struct RoutingTable {
    local_id: KadId,
    buckets: Vec<KBucket>,
}

impl View for RoutingTable {
    type V = Seq<Seq<Contact>>;

    closed spec fn view(&self) -> Seq<Seq<Contact>> {
        self.buckets@.map_values(|b: KBucket| b@)
    }
}

impl RoutingTable {
    /// The identifier of the node that owns the table.
    pub closed spec fn local(&self) -> Seq<u8> {
        self.local_id@
    }

    /// The capacity that every bucket of the table has.
    pub closed spec fn bucket_capacity(&self) -> nat {
        self.buckets@[0].capacity()
    }

    /// Every contact stands in the bucket of its own distance class.
    pub open spec fn sorted(&self) -> bool {
        forall|b: int, i: int|
            0 <= b < self@.len() && 0 <= i < self@[b].len() ==> bucket_index(
                self.local(),
                #[trigger] self@[b][i].id,
            ) == b
    }

    /// There is a bucket for each of the 161 distance classes, each within
    /// the common capacity and free of duplicates, and every contact stands
    /// in the bucket of its class.
    pub closed spec fn wf(&self) -> bool {
        &&& self.buckets@.len() == ID_BITS + 1
        &&& forall|b: int|
            0 <= b <= ID_BITS ==> (#[trigger] self.buckets@[b]).wf() && self.buckets@[b].capacity()
                == self.bucket_capacity()
        &&& self.sorted()
        &&& self@[0].len() == 0
    }

    /// What [`RoutingTable::wf`] says of the table's view.
    pub proof fn lemma_wf(&self)
        requires
            self.wf(),
        ensures
            self@.len() == ID_BITS + 1,
            self.sorted(),
            self@[0].len() == 0,
            forall|b: int|
                0 <= b <= ID_BITS ==> (#[trigger] self@[b]).len() <= self.bucket_capacity()
                    && distinct(self@[b]),
    {
        assert forall|b: int| 0 <= b <= ID_BITS implies (#[trigger] self@[b]).len()
            <= self.bucket_capacity() && distinct(self@[b]) by {
            assert(self.buckets@[b].wf());
        }
    }

    /// An empty table for the node `id`, with room for `bucket_size`
    /// contacts in each distance class of its `id_bits` bits.
    pub fn new(id: KadId, bucket_size: usize, id_bits: usize) -> (table: RoutingTable)
        requires
            id_bits == ID_BITS,
        ensures
            table.wf(),
            table.local() == id@,
            table.bucket_capacity() == bucket_size,
            table@.len() == id_bits + 1,
            forall|b: int| 0 <= b <= id_bits ==> (#[trigger] table@[b]).len() == 0,
    {
        let mut buckets: Vec<KBucket> = Vec::with_capacity(id_bits + 1);
        let mut i: usize = 0;
        while i <= id_bits
            invariant
                id_bits == ID_BITS,
                i <= id_bits + 1,
                buckets@.len() == i,
                forall|b: int|
                    0 <= b < i ==> (#[trigger] buckets@[b]).wf() && buckets@[b].capacity()
                        == bucket_size && buckets@[b]@.len() == 0,
            decreases id_bits + 1 - i,
        {
            buckets.push(KBucket::new(bucket_size));
            i += 1;
        }
        RoutingTable { local_id: id, buckets }
    }

    /// The local identifier.
    pub fn local_id(&self) -> (id: &KadId)
        ensures
            id@ == self.local(),
    {
        &self.local_id
    }

    /// The distance class of `id`: 160 less the number of leading bits it
    /// shares with the local identifier.
    pub fn distance_to(&self, id: KadId) -> (distance: usize)
        ensures
            distance == bucket_index(self.local(), id@),
            distance <= ID_BITS,
            distance == 0 <==> id@ == self.local(),
    {
        let mut i: usize = 0;
        while i < ID_BYTES
            invariant
                i <= ID_BYTES,
                forall|j: int| 0 <= j < i ==> self.local_id@[j] == id@[j],
            decreases ID_BYTES - i,
        {
            let ours = self.local_id[i];
            let theirs = id[i];
            let xor_bytes = ours ^ theirs;
            if xor_bytes != 0 {
                proof {
                    assert(ours != theirs) by (bit_vector)
                        requires
                            ours ^ theirs != 0,
                    ;
                    lemma_prefix_ends_in(self.local_id@, id@, i as int);
                    bucket_index_of_self(self.local(), id@);
                }
                let dist: usize = 8 * i + xor_bytes.leading_zeros() as usize;
                // notice that we counted the leading zeros, not the distance
                return ID_BITS - dist;
            }
            assert(ours == theirs) by (bit_vector)
                requires
                    ours ^ theirs == 0,
            ;
            i += 1;
        }
        proof {
            lemma_prefix_of_equal(self.local_id@, id@);
            bucket_index_of_self(self.local(), id@);
        }
        0
    }

    /// The bucket of the distance class of `id`.
    pub fn get_bucket(&self, id: KadId) -> (bucket: &KBucket)
        requires
            self.wf(),
        ensures
            bucket@ == self@[bucket_index(self.local(), id@) as int],
            bucket.wf(),
            bucket.capacity() == self.bucket_capacity(),
            id@ == self.local() ==> bucket@.len() == 0,
    {
        let bucket = &self.buckets[self.distance_to(id)];
        bucket
    }

    /// Records that the peer `id` was heard from at `ip`:`port` at the time
    /// `now`: the bucket of its distance class hears from it, and no other
    /// bucket changes. The local identifier is not recorded.
    pub fn update_at(&mut self, id: KadId, ip: String, port: String, now: u128)
        requires
            old(self).wf(),
        ensures
            final(self).wf(),
            final(self).local() == old(self).local(),
            final(self).bucket_capacity() == old(self).bucket_capacity(),
            final(self)@ == updated(
                old(self)@,
                old(self).local(),
                old(self).bucket_capacity(),
                Contact { id: id@, ip: ip@, port: port@, last_seen: now as nat },
            ),
    {
        let b = self.distance_to(id);
        if b == 0 {
            return ;
        }
        let ghost c = Contact { id: id@, ip: ip@, port: port@, last_seen: now as nat };
        let ghost before = self@[b as int];
        self.buckets[b].admit_or_touch_at(id, ip, port, now);
        proof {
            let after = observe(before, old(self).bucket_capacity(), c);
            assert(self@ =~= old(self)@.update(b as int, after));
            observe_members(before, old(self).bucket_capacity(), c);
            assert forall|k: int, i: int|
                0 <= k < self@.len() && 0 <= i < self@[k].len() implies bucket_index(
                self.local(),
                #[trigger] self@[k][i].id,
            ) == k by {
                if k == b && after[i] != c {
                    let j = choose|j: int| 0 <= j < before.len() && before[j] == after[i];
                    assert(bucket_index(old(self).local(), old(self)@[k][j].id) == k);
                } else if k != b {
                    assert(bucket_index(old(self).local(), old(self)@[k][i].id) == k);
                }
            }
        }
    }

    /// Records that the peer `id` was heard from at `ip`:`port` now. The
    /// table is left as [`RoutingTable::update_at`] leaves it for the time
    /// the clock showed.
    pub fn update(&mut self, id: KadId, ip: String, port: String)
        requires
            old(self).wf(),
        ensures
            final(self).wf(),
            final(self).local() == old(self).local(),
            final(self).bucket_capacity() == old(self).bucket_capacity(),
            exists|now: nat|
                final(self)@ == #[trigger] updated(
                    old(self)@,
                    old(self).local(),
                    old(self).bucket_capacity(),
                    Contact { id: id@, ip: ip@, port: port@, last_seen: now },
                ),
    {
        let now = now_millis();
        let ghost c = Contact { id: id@, ip: ip@, port: port@, last_seen: now as nat };
        self.update_at(id, ip, port, now);
        assert(self@ == updated(old(self)@, old(self).local(), old(self).bucket_capacity(), c));
    }
}

/// The buckets of the node `local` after it has heard from `c`: the bucket
/// of the distance class of `c` hears from it, unless `c` is `local` itself.
pub open spec fn updated(
    buckets: Seq<Seq<Contact>>,
    local: Seq<u8>,
    capacity: nat,
    c: Contact,
) -> Seq<Seq<Contact>> {
    let b = bucket_index(local, c.id) as int;
    if b == 0 {
        buckets
    } else {
        buckets.update(b, observe(buckets[b], capacity, c))
    }
}

} // verus!
