//! A k-bucket: a bounded list of contacts that keeps whoever was heard from
//! most recently.

use crate::clock::now_millis;
use crate::contact::contacts;
use crate::contact::distinct;
use crate::contact::index_of;
use crate::contact::knows;
use crate::contact::lemma_oldest;
use crate::contact::lemma_push;
use crate::contact::lemma_remove;
use crate::contact::observe;
use crate::contact::oldest;
use crate::contact::oldest_position;
use crate::contact::position;
use crate::contact::Contact;
use crate::contact::Entry;
use vstd::prelude::*;

verus! {

/// The customary bucket capacity.
pub const KBUCKET_SIZE: usize = 20;

/// A 160-bit node identifier.
pub type NodeId = [u8; 20];

/// One contact of a bucket.
pub struct KBucketEntry {
    last_seen: u128,
    ip: String,
    port: String,
    id: NodeId,
}

impl View for KBucketEntry {
    type V = Contact;

    closed spec fn view(&self) -> Contact {
        Contact { id: self.id@, ip: self.ip@, port: self.port@, last_seen: self.last_seen as nat }
    }
}

impl Entry for KBucketEntry {
    fn id(&self) -> (id: &NodeId) {
        &self.id
    }

    fn last_seen(&self) -> (millis: u128) {
        self.last_seen
    }
}

impl KBucketEntry {
    /// A contact last seen at `now`.
    pub fn seen_at(ip: String, port: String, id: NodeId, now: u128) -> (entry: KBucketEntry)
        ensures
            entry@ == (Contact { id: id@, ip: ip@, port: port@, last_seen: now as nat }),
    {
        KBucketEntry { last_seen: now, ip, port, id }
    }

    /// A contact last seen at the time the clock shows.
    pub fn new(ip: String, port: String, id: NodeId) -> (entry: KBucketEntry)
        ensures
            entry@.id == id@,
            entry@.ip == ip@,
            entry@.port == port@,
    {
        KBucketEntry::seen_at(ip, port, id, now_millis())
    }

    /// The host at which the peer was last heard.
    pub fn ip(&self) -> (ip: &String)
        ensures
            ip@ == self@.ip,
    {
        &self.ip
    }

    /// The port at which the peer was last heard.
    pub fn port(&self) -> (port: &String)
        ensures
            port@ == self@.port,
    {
        &self.port
    }
}

/// A bucket of at most `size` contacts with distinct identifiers, kept in
/// the order in which they were last heard from.
pub struct KBucket {
    size: usize,
    entries: Vec<KBucketEntry>,
}

impl View for KBucket {
    type V = Seq<Contact>;

    closed spec fn view(&self) -> Seq<Contact> {
        contacts(self.entries@)
    }
}

impl KBucket {
    /// The most contacts the bucket holds.
    pub closed spec fn capacity(&self) -> nat {
        self.size as nat
    }

    /// The bucket is within its capacity and no identifier occurs twice.
    pub open spec fn wf(&self) -> bool {
        &&& self@.len() <= self.capacity()
        &&& distinct(self@)
    }

    /// An empty bucket for up to `size` contacts.
    pub fn new(size: usize) -> (bucket: KBucket)
        ensures
            bucket.wf(),
            bucket@ == Seq::<Contact>::empty(),
            bucket.capacity() == size,
    {
        KBucket { size, entries: Vec::new() }
    }

    /// The number of contacts held.
    pub fn len(&self) -> (len: usize)
        ensures
            len == self@.len(),
    {
        self.entries.len()
    }

    /// The capacity the bucket was made with.
    pub fn size(&self) -> (size: usize)
        ensures
            size == self.capacity(),
    {
        self.size
    }

    /// The contacts in the order in which they were last heard from.
    pub fn get_list(&self) -> (list: &Vec<KBucketEntry>)
        ensures
            contacts(list@) == self@,
    {
        &self.entries
    }

    /// The contact with `id`, if the bucket knows it.
    pub fn get(&self, id: NodeId) -> (found: Option<&KBucketEntry>)
        requires
            self.wf(),
        ensures
            match found {
                Some(entry) => knows(self@, id@) && entry@ == self@[index_of(self@, id@)],
                None => !knows(self@, id@),
            },
    {
        match position(&self.entries, &id) {
            Some(i) => Some(&self.entries[i]),
            None => None,
        }
    }

    /// Forgets the contact with `id`, if the bucket knows it.
    pub fn remove_id(&mut self, id: NodeId)
        requires
            old(self).wf(),
        ensures
            final(self).wf(),
            final(self).capacity() == old(self).capacity(),
            knows(old(self)@, id@) ==> final(self)@ == old(self)@.remove(index_of(old(self)@, id@)),
            !knows(old(self)@, id@) ==> final(self)@ == old(self)@,
            !knows(final(self)@, id@),
    {
        if let Some(i) = position(&self.entries, &id) {
            proof {
                lemma_remove(self@, i as int);
            }
            self.entries.remove(i);
            assert(self@ =~= old(self)@.remove(i as int));
        }
    }

    /// Forgets the contact that was seen longest ago, if there is any.
    pub fn remove_oldest(&mut self)
        requires
            old(self).wf(),
        ensures
            final(self).wf(),
            final(self).capacity() == old(self).capacity(),
            old(self)@.len() > 0 ==> final(self)@ == old(self)@.remove(oldest(old(self)@)),
            old(self)@.len() == 0 ==> final(self)@ == old(self)@,
    {
        if let Some(i) = oldest_position(&self.entries) {
            proof {
                lemma_remove(self@, i as int);
            }
            self.entries.remove(i);
            assert(self@ =~= old(self)@.remove(i as int));
        }
    }

    /// Hears from `id` at the time `now`: refreshes the contact if the
    /// bucket knows it, appends it while there is room, and otherwise lets
    /// it take the place of the contact seen longest ago.
    pub fn try_add_at(&mut self, ip: String, port: String, id: NodeId, now: u128)
        requires
            old(self).wf(),
        ensures
            final(self).wf(),
            final(self).capacity() == old(self).capacity(),
            final(self)@ == observe(
                old(self)@,
                old(self).capacity(),
                Contact { id: id@, ip: ip@, port: port@, last_seen: now as nat },
            ),
    {
        // create the new entry
        let item = KBucketEntry::seen_at(ip, port, id, now);

        if self.get(id).is_some() {
            // an item with the same id is in the bucket: the new one replaces it
            self.remove_id(id);
        } else if self.entries.len() >= self.size {
            // no space: the oldest item makes room, if there is one
            if self.entries.len() == 0 {
                return ;
            }
            self.remove_oldest();
            proof {
                lemma_oldest(old(self)@);
                lemma_remove(old(self)@, oldest(old(self)@));
            }
        }
        let ghost rest = self@;
        proof {
            lemma_push(rest, item@);
        }
        self.entries.push(item);
        assert(self@ =~= rest.push(item@));
    }

    /// Hears from `id` now. What the bucket holds afterwards is what
    /// [`KBucket::try_add_at`] leaves for the time the clock showed.
    pub fn try_add(&mut self, ip: String, port: String, id: NodeId)
        requires
            old(self).wf(),
        ensures
            final(self).wf(),
            final(self).capacity() == old(self).capacity(),
            exists|now: nat|
                final(self)@ == #[trigger] observe(
                    old(self)@,
                    old(self).capacity(),
                    Contact { id: id@, ip: ip@, port: port@, last_seen: now },
                ),
    {
        let now = now_millis();
        let ghost c = Contact { id: id@, ip: ip@, port: port@, last_seen: now as nat };
        self.try_add_at(ip, port, id, now);
        assert(self@ == observe(old(self)@, old(self).capacity(), c));
    }
}

} // verus!
