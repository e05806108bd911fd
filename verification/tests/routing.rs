use kademlia::contact::Entry;
use kademlia::routing::{KBucket, KadId, RoutingEntry, RoutingTable};

fn peer(byte: u8) -> KadId {
    let mut id: KadId = [0; 20];
    id[19] = byte;
    id
}

fn hear_of(bucket: &mut KBucket, byte: u8, now: u128) {
    bucket.admit_or_touch_at(peer(byte), format!("10.0.0.{}", byte), String::from("4000"), now);
}

fn known(bucket: &KBucket, byte: u8) -> bool {
    bucket.get(peer(byte)).is_some()
}

#[test]
fn routing_entry_holds_what_it_was_made_of() {
    let entry = RoutingEntry::seen_at(peer(5), String::from("127.0.0.1"), String::from("53"), 77);
    assert_eq!(entry.id(), &peer(5));
    assert_eq!(entry.ip(), "127.0.0.1");
    assert_eq!(entry.port(), "53");
    assert_eq!(entry.last_seen(), 77);
}

#[test]
fn routing_entry_made_now_carries_a_recent_time() {
    let entry = RoutingEntry::new(peer(5), String::from("127.0.0.1"), String::from("53"));
    assert_eq!(entry.id(), &peer(5));
    assert_eq!(entry.ip(), "127.0.0.1");
    assert_eq!(entry.port(), "53");
    assert!(entry.last_seen() > 1_577_836_800_000);
}

#[test]
fn routing_bucket_starts_empty() {
    let bucket = KBucket::new(3);
    assert_eq!(bucket.len(), 0);
    assert_eq!(bucket.size(), 3);
    assert!(!bucket.is_full());
    assert!(bucket.get_oldest().is_none());
    assert!(bucket.get(peer(1)).is_none());
    assert!(KBucket::new(0).is_full());
}

#[test]
fn try_add_appends_until_the_bucket_is_full() {
    let mut bucket = KBucket::new(2);
    {
        let added = bucket.try_add_at(peer(1), String::from("a"), String::from("1"), 10).unwrap();
        assert_eq!(added.id(), &peer(1));
        assert_eq!(added.ip(), "a");
        assert_eq!(added.port(), "1");
        assert_eq!(added.last_seen(), 10);
    }
    assert!(!bucket.is_full());
    assert!(bucket.try_add_at(peer(2), String::from("b"), String::from("2"), 11).is_some());
    assert!(bucket.is_full());
    assert!(bucket.try_add_at(peer(3), String::from("c"), String::from("3"), 12).is_none());
    // a full bucket refuses even a peer it knows
    assert!(bucket.try_add_at(peer(1), String::from("z"), String::from("9"), 13).is_none());
    assert_eq!(bucket.len(), 2);
    assert!(!known(&bucket, 3));
    assert_eq!(bucket.get(peer(1)).unwrap().ip(), "a");
    assert_eq!(bucket.get(peer(1)).unwrap().last_seen(), 10);
}

#[test]
fn try_add_refreshes_a_known_peer_while_there_is_room() {
    let mut bucket = KBucket::new(3);
    bucket.try_add_at(peer(1), String::from("a"), String::from("1"), 10);
    bucket.try_add_at(peer(2), String::from("b"), String::from("2"), 11);
    {
        let again = bucket.try_add_at(peer(1), String::from("c"), String::from("3"), 12).unwrap();
        assert_eq!(again.ip(), "c");
        assert_eq!(again.last_seen(), 12);
    }
    assert_eq!(bucket.len(), 2);
    assert_eq!(bucket.get_oldest().unwrap().id(), &peer(2));
}

#[test]
fn try_add_reads_the_clock() {
    let mut bucket = KBucket::new(1);
    {
        let added = bucket.try_add(peer(1), String::from("a"), String::from("1")).unwrap();
        assert_eq!(added.id(), &peer(1));
        assert!(added.last_seen() > 1_577_836_800_000);
    }
    assert!(bucket.try_add(peer(2), String::from("b"), String::from("2")).is_none());
    assert_eq!(bucket.len(), 1);
}

#[test]
fn get_oldest_is_the_least_recently_seen() {
    let mut bucket = KBucket::new(4);
    bucket.try_add_at(peer(1), String::from("a"), String::from("1"), 30);
    bucket.try_add_at(peer(2), String::from("b"), String::from("2"), 10);
    bucket.try_add_at(peer(3), String::from("c"), String::from("3"), 20);
    bucket.try_add_at(peer(4), String::from("d"), String::from("4"), 10);
    let oldest = bucket.get_oldest().unwrap();
    assert_eq!(oldest.id(), &peer(2));
    assert_eq!(oldest.last_seen(), 10);
}

#[test]
fn touch_updates_the_time_and_nothing_else() {
    let mut bucket = KBucket::new(3);
    bucket.try_add_at(peer(1), String::from("a"), String::from("1"), 10);
    bucket.try_add_at(peer(2), String::from("b"), String::from("2"), 11);
    {
        let touched = bucket.touch_at(peer(1), 99).unwrap();
        assert_eq!(touched.id(), &peer(1));
        assert_eq!(touched.ip(), "a");
        assert_eq!(touched.port(), "1");
        assert_eq!(touched.last_seen(), 99);
    }
    assert_eq!(bucket.len(), 2);
    assert_eq!(bucket.get(peer(1)).unwrap().last_seen(), 99);
    assert_eq!(bucket.get(peer(2)).unwrap().last_seen(), 11);
    assert_eq!(bucket.get_oldest().unwrap().id(), &peer(2));
    assert!(bucket.touch_at(peer(7), 100).is_none());
    assert_eq!(bucket.len(), 2);
}

#[test]
fn touch_reads_the_clock() {
    let mut bucket = KBucket::new(3);
    bucket.try_add_at(peer(1), String::from("a"), String::from("1"), 10);
    assert!(bucket.touch(peer(1)).unwrap().last_seen() > 1_577_836_800_000);
    assert!(bucket.touch(peer(2)).is_none());
}

#[test]
fn remove_hands_the_contact_over() {
    let mut bucket = KBucket::new(3);
    bucket.try_add_at(peer(1), String::from("a"), String::from("1"), 10);
    bucket.try_add_at(peer(2), String::from("b"), String::from("2"), 11);
    let removed = bucket.remove(peer(1)).unwrap();
    assert_eq!(removed.id(), &peer(1));
    assert_eq!(removed.ip(), "a");
    assert_eq!(removed.last_seen(), 10);
    assert_eq!(bucket.len(), 1);
    assert!(!known(&bucket, 1));
    assert!(known(&bucket, 2));
    assert!(bucket.remove(peer(1)).is_none());
    assert_eq!(bucket.len(), 1);
}

#[test]
fn routing_bucket_of_two_evicts_the_oldest() {
    let (a, b, c, d) = (1, 2, 3, 4);
    let mut bucket = KBucket::new(2);
    hear_of(&mut bucket, a, 0);
    hear_of(&mut bucket, b, 1);
    assert!(known(&bucket, a) && known(&bucket, b));

    hear_of(&mut bucket, c, 2);
    assert!(!known(&bucket, a));
    assert!(known(&bucket, b) && known(&bucket, c));
    assert_eq!(bucket.len(), 2);

    hear_of(&mut bucket, b, 3);
    assert_eq!(bucket.len(), 2);
    hear_of(&mut bucket, d, 4);
    assert!(!known(&bucket, c));
    assert!(known(&bucket, b) && known(&bucket, d));
    assert_eq!(bucket.len(), 2);
}

#[test]
fn touched_peer_survives_the_next_eviction() {
    let (b, c, d) = (2, 3, 4);
    let mut bucket = KBucket::new(2);
    hear_of(&mut bucket, b, 1);
    hear_of(&mut bucket, c, 2);
    assert!(bucket.touch_at(peer(b), 3).is_some());
    hear_of(&mut bucket, d, 4);
    assert!(!known(&bucket, c));
    assert!(known(&bucket, b) && known(&bucket, d));
    assert_eq!(bucket.len(), 2);
}

#[test]
fn admitting_a_known_peer_updates_its_address() {
    let mut bucket = KBucket::new(2);
    hear_of(&mut bucket, 1, 0);
    hear_of(&mut bucket, 2, 1);
    bucket.admit_or_touch_at(peer(1), String::from("8.8.8.8"), String::from("53"), 5);
    assert_eq!(bucket.len(), 2);
    let entry = bucket.get(peer(1)).unwrap();
    assert_eq!(entry.ip(), "8.8.8.8");
    assert_eq!(entry.port(), "53");
    assert_eq!(entry.last_seen(), 5);
}

#[test]
fn admitting_now_reads_the_clock() {
    let mut bucket = KBucket::new(1);
    bucket.admit_or_touch(peer(1), String::from("a"), String::from("1"));
    bucket.admit_or_touch(peer(2), String::from("b"), String::from("2"));
    assert_eq!(bucket.len(), 1);
    assert!(known(&bucket, 2));
    assert!(bucket.get(peer(2)).unwrap().last_seen() > 1_577_836_800_000);
}

#[test]
fn entries_stand_in_the_order_they_were_heard_from() {
    let mut bucket = KBucket::new(3);
    hear_of(&mut bucket, 1, 0);
    hear_of(&mut bucket, 2, 1);
    hear_of(&mut bucket, 3, 2);
    bucket.touch_at(peer(1), 3);
    let order: Vec<u8> = bucket.entries().iter().map(|e| e.id()[19]).collect();
    assert_eq!(order, vec![2, 3, 1]);
}

#[test]
fn routing_bucket_without_capacity_stays_empty() {
    let mut bucket = KBucket::new(0);
    hear_of(&mut bucket, 1, 0);
    assert_eq!(bucket.len(), 0);
    assert!(bucket.try_add_at(peer(1), String::from("a"), String::from("1"), 1).is_none());
}

#[test]
fn distance_of_first_and_last_bit() {
    let local: KadId = [0; 20];
    let table = RoutingTable::new(local, 20, 160);

    let mut msb: KadId = [0; 20];
    msb[0] = 0x80;
    assert_eq!(table.distance_to(msb), 160);

    let mut lsb: KadId = [0; 20];
    lsb[19] = 0x01;
    assert_eq!(table.distance_to(lsb), 1);
}

#[test]
fn distance_to_self_is_zero() {
    let local: KadId = [0xa5; 20];
    let table = RoutingTable::new(local, 20, 160);
    assert_eq!(table.distance_to(local), 0);
    assert_eq!(table.local_id(), &local);
}

#[test]
fn distance_counts_the_shared_leading_bits() {
    let mut local: KadId = [0; 20];
    local[0] = 0b1010_1010;
    local[1] = 0b0101_0101;
    let table = RoutingTable::new(local, 20, 160);

    // differs in bit 3 of byte 1: 8 + 3 bits shared
    let mut id = local;
    id[1] ^= 0b0001_0000;
    assert_eq!(table.distance_to(id), 149);

    // lower bits of the differing byte and later bytes do not matter
    id[1] ^= 0b0000_0111;
    id[7] = 0xff;
    assert_eq!(table.distance_to(id), 149);

    // differs in the last bit of byte 9
    let mut id = local;
    id[9] ^= 1;
    assert_eq!(table.distance_to(id), 160 - 79);

    // differs in the first bit of byte 10
    let mut id = local;
    id[10] ^= 0x80;
    assert_eq!(table.distance_to(id), 80);
}

#[test]
fn distance_is_the_same_on_every_call() {
    let local: KadId = [0x11; 20];
    let table = RoutingTable::new(local, 20, 160);
    let other = RoutingTable::new(local, 3, 160);
    let mut id: KadId = [0x11; 20];
    id[4] = 0x31;
    let first = table.distance_to(id);
    assert_eq!(first, 160 - 34);
    assert_eq!(table.distance_to(id), first);
    assert_eq!(other.distance_to(id), first);
}

#[test]
fn longer_shared_prefix_means_lower_bucket() {
    let local: KadId = [0; 20];
    let table = RoutingTable::new(local, 20, 160);
    let mut last = 161;
    for bit in 0..160 {
        let mut id: KadId = [0; 20];
        id[bit / 8] = 0x80 >> (bit % 8);
        let distance = table.distance_to(id);
        assert_eq!(distance, 160 - bit);
        assert!(distance < last);
        last = distance;
    }
    assert!(table.distance_to(local) < last);
}

#[test]
fn new_table_has_empty_buckets() {
    let local: KadId = [7; 20];
    let table = RoutingTable::new(local, 4, 160);
    for bit in 0..160 {
        let mut id = local;
        id[bit / 8] ^= 0x80 >> (bit % 8);
        let bucket = table.get_bucket(id);
        assert_eq!(bucket.len(), 0);
        assert_eq!(bucket.size(), 4);
    }
    assert_eq!(table.get_bucket(local).len(), 0);
}

#[test]
fn update_files_the_contact_under_its_distance() {
    let local: KadId = [0; 20];
    let mut table = RoutingTable::new(local, 2, 160);
    let near = peer(1);
    let mut far: KadId = [0; 20];
    far[0] = 0x80;

    table.update_at(near, String::from("10.0.0.1"), String::from("1"), 5);
    table.update_at(far, String::from("10.0.0.2"), String::from("2"), 6);

    let bucket = table.get_bucket(near);
    assert_eq!(bucket.len(), 1);
    let entry = bucket.get(near).unwrap();
    assert_eq!(entry.ip(), "10.0.0.1");
    assert_eq!(entry.port(), "1");
    assert_eq!(entry.last_seen(), 5);
    assert!(bucket.get(far).is_none());

    let bucket = table.get_bucket(far);
    assert_eq!(bucket.len(), 1);
    assert_eq!(bucket.get(far).unwrap().last_seen(), 6);

    // peers of one distance class share a bucket
    let mut far_too: KadId = [0xff; 20];
    far_too[3] = 0;
    table.update_at(far_too, String::from("10.0.0.3"), String::from("3"), 7);
    assert_eq!(table.get_bucket(far).len(), 2);
    assert_eq!(table.get_bucket(near).len(), 1);
}

#[test]
fn update_evicts_within_one_bucket_only() {
    let local: KadId = [0; 20];
    let mut table = RoutingTable::new(local, 2, 160);
    let ids: Vec<KadId> = (0..3_u8)
        .map(|i| {
            let mut id: KadId = [0; 20];
            id[0] = 0x80;
            id[19] = i;
            id
        })
        .collect();
    table.update_at(peer(1), String::from("n"), String::from("0"), 0);
    for (t, id) in ids.iter().enumerate() {
        table.update_at(*id, String::from("f"), String::from("0"), 1 + t as u128);
    }
    let bucket = table.get_bucket(ids[0]);
    assert_eq!(bucket.len(), 2);
    assert!(bucket.get(ids[0]).is_none());
    assert!(bucket.get(ids[1]).is_some());
    assert!(bucket.get(ids[2]).is_some());
    assert_eq!(table.get_bucket(peer(1)).len(), 1);
}

#[test]
fn update_ignores_the_local_identifier() {
    let local: KadId = [9; 20];
    let mut table = RoutingTable::new(local, 2, 160);
    table.update_at(local, String::from("127.0.0.1"), String::from("1"), 5);
    table.update(local, String::from("127.0.0.1"), String::from("1"));
    assert_eq!(table.get_bucket(local).len(), 0);
    assert!(table.get_bucket(local).get(local).is_none());
}

#[test]
fn update_reads_the_clock() {
    let local: KadId = [0; 20];
    let mut table = RoutingTable::new(local, 2, 160);
    table.update(peer(3), String::from("10.0.0.3"), String::from("3"));
    let entry = table.get_bucket(peer(3)).get(peer(3)).unwrap();
    assert_eq!(entry.ip(), "10.0.0.3");
    assert!(entry.last_seen() > 1_577_836_800_000);
}
