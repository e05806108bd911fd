//! What a node remembers and what it decides when a packet comes in. The
//! sockets and tasks around it belong to the program that runs the node.

use crate::clock::now_millis;
use crate::contact::Contact;
use crate::id::same_id;
use crate::id::ID_BITS;
use crate::k_bucket::KBUCKET_SIZE;
use crate::routing::updated;
use crate::routing::KadId;
use crate::routing::RoutingTable;
use crate::rpc::accepts;
use crate::rpc::completed;
use crate::rpc::kad_packet;
use crate::rpc::packet_body;
use crate::rpc::Session;
use crate::rpc::SessionTable;
use rand::Rng;
use vstd::prelude::*;

verus! {

/// `rand::thread_rng().gen()` draws twenty bytes from the generator of the
/// calling thread, which panics where the operating system has no entropy
/// to seed it with. Nothing is claimed of the bytes.
#[verifier::external_body]
fn random_id() -> (id: KadId) {
    rand::thread_rng().gen()
}

/// The state of one node: its identifier, the peers it knows and the
/// requests it waits on.
pub struct NodeState {
    pub id: KadId,
    pub routing_table: RoutingTable,
    pub session_table: SessionTable,
}

/// What is to be done with a packet that came in.
pub enum Dispatch {
    /// The packet is for another node and was dropped.
    Dropped,
    /// The packet is a request, handed back to be answered.
    Request(kad_packet),
    /// The packet is a response; it was accepted by the transaction it
    /// names, or refused.
    Response(bool),
}

impl NodeState {
    /// Both tables are well formed, and the routing table is that of this
    /// node.
    pub open spec fn wf(&self) -> bool {
        &&& self.routing_table.wf()
        &&& self.routing_table.local() == self.id@
        &&& self.session_table.wf()
    }

    /// A node with the identifier `id` that knows no peer and waits on no
    /// request.
    pub fn with_id(id: KadId) -> (node: NodeState)
        ensures
            node.wf(),
            node.id@ == id@,
            node.routing_table.bucket_capacity() == KBUCKET_SIZE,
            forall|b: int| 0 <= b <= ID_BITS ==> (#[trigger] node.routing_table@[b]).len() == 0,
            node.session_table@ == Map::<Seq<u8>, Session>::empty(),
    {
        NodeState {
            id,
            routing_table: RoutingTable::new(id, KBUCKET_SIZE, ID_BITS),
            session_table: SessionTable::new(),
        }
    }

    /// A node with a random identifier that knows no peer and waits on no
    /// request.
    pub fn new() -> (node: NodeState)
        ensures
            node.wf(),
            node.routing_table.bucket_capacity() == KBUCKET_SIZE,
            forall|b: int| 0 <= b <= ID_BITS ==> (#[trigger] node.routing_table@[b]).len() == 0,
            node.session_table@ == Map::<Seq<u8>, Session>::empty(),
    {
        NodeState::with_id(random_id())
    }

    /// Hands a response to the transaction that it names, and says whether
    /// it was accepted.
    pub fn process_rsp(&mut self, rsp: kad_packet) -> (accepted: bool)
        requires
            old(self).wf(),
        ensures
            final(self).wf(),
            final(self).id == old(self).id,
            final(self).routing_table == old(self).routing_table,
            accepted == accepts(old(self).session_table@, rsp.txid@),
            final(self).session_table@ == completed(old(self).session_table@, rsp.txid@, rsp),
    {
        let txid = rsp.txid;
        if self.session_table.get(txid).is_some() {
            self.session_table.update(txid, rsp)
        } else {
            false
        }
    }

    /// Takes in a packet that arrived from `ip`:`port` at the time `now`.
    /// A packet for another node is dropped and changes nothing. Otherwise
    /// the routing table hears from the sender; a response is handed to its
    /// transaction, and a request is handed back to be answered.
    pub fn process_packet_at(
        &mut self,
        packet: kad_packet,
        ip: String,
        port: String,
        now: u128,
    ) -> (action: Dispatch)
        requires
            old(self).wf(),
        ensures
            final(self).wf(),
            final(self).id == old(self).id,
            packet.dest@ != old(self).id@ ==> action == Dispatch::Dropped && *final(self) == *old(
                self,
            ),
            packet.dest@ == old(self).id@ ==> {
                &&& final(self).routing_table@ == updated(
                    old(self).routing_table@,
                    old(self).id@,
                    old(self).routing_table.bucket_capacity(),
                    Contact { id: packet.src@, ip: ip@, port: port@, last_seen: now as nat },
                )
                &&& final(self).routing_table.bucket_capacity() == old(
                    self,
                ).routing_table.bucket_capacity()
                &&& match packet.body {
                    packet_body::REQUEST(_) => {
                        &&& action == Dispatch::Request(packet)
                        &&& final(self).session_table == old(self).session_table
                    },
                    packet_body::RESPONSE(_) => {
                        &&& action == Dispatch::Response(
                            accepts(old(self).session_table@, packet.txid@),
                        )
                        &&& final(self).session_table@ == completed(
                            old(self).session_table@,
                            packet.txid@,
                            packet,
                        )
                    },
                }
            },
    {
        if !same_id(&packet.dest, &self.id) {
            return Dispatch::Dropped;
        }
        self.routing_table.update_at(packet.src, ip, port, now);
        match packet.body {
            packet_body::REQUEST(_) => Dispatch::Request(packet),
            packet_body::RESPONSE(_) => Dispatch::Response(self.process_rsp(packet)),
        }
    }

    /// Takes in a packet that arrived from `ip`:`port` now. The node is
    /// left as [`NodeState::process_packet_at`] leaves it for the time the
    /// clock showed, and the same is done with the packet.
    pub fn process_packet(&mut self, packet: kad_packet, ip: String, port: String) -> (action:
        Dispatch)
        requires
            old(self).wf(),
        ensures
            final(self).wf(),
            final(self).id == old(self).id,
            packet.dest@ != old(self).id@ ==> action == Dispatch::Dropped && *final(self) == *old(
                self,
            ),
            packet.dest@ == old(self).id@ ==> {
                &&& exists|now: nat|
                    final(self).routing_table@ == #[trigger] updated(
                        old(self).routing_table@,
                        old(self).id@,
                        old(self).routing_table.bucket_capacity(),
                        Contact { id: packet.src@, ip: ip@, port: port@, last_seen: now },
                    )
                &&& match packet.body {
                    packet_body::REQUEST(_) => {
                        &&& action == Dispatch::Request(packet)
                        &&& final(self).session_table == old(self).session_table
                    },
                    packet_body::RESPONSE(_) => {
                        &&& action == Dispatch::Response(
                            accepts(old(self).session_table@, packet.txid@),
                        )
                        &&& final(self).session_table@ == completed(
                            old(self).session_table@,
                            packet.txid@,
                            packet,
                        )
                    },
                }
            },
    {
        let now = now_millis();
        let ghost c = Contact { id: packet.src@, ip: ip@, port: port@, last_seen: now as nat };
        let action = self.process_packet_at(packet, ip, port, now);
        proof {
            if packet.dest@ == old(self).id@ {
                assert(self.routing_table@ == updated(
                    old(self).routing_table@,
                    old(self).id@,
                    old(self).routing_table.bucket_capacity(),
                    c,
                ));
            }
        }
        action
    }
}

} // verus!
