use cluster_gossip::bloom::Bloom;
use cluster_gossip::crds::{Crds, CrdsError, GossipRoute};
use cluster_gossip::crds_data::{
    ContactInfo, CrdsData, CrdsKind, CrdsValueLabel, EpochSlots, LowestSlot, Vote,
};
use cluster_gossip::crds_value::CrdsValue;
use cluster_gossip::error::CrdsGossipError;
use cluster_gossip::gossip::CrdsGossip;
use cluster_gossip::identity::{Pubkey, Signature, SocketAddress};
use cluster_gossip::peers::{gossip_nodes, verified_peers, weights_of};
use cluster_gossip::ping_pong::{LivenessState, PingCache};
use cluster_gossip::pull::{
    bits_for, num_partitions, CrdsFilter, CrdsGossipPull, ProcessPullStats, PullConfig, PullRequest,
};
use cluster_gossip::push::{group_pairs, CrdsGossipPush, PushConfig};
use cluster_gossip::sampling::{draw_at, sample_indices, weight_of, weighted_index};
use cluster_gossip::stakes::StakeMap;
use cluster_gossip::timeouts::CrdsTimeouts;
use solana_keypair::Keypair;
use solana_sha256_hasher::hash;
use solana_signer::Signer;

fn key_of(keypair: &Keypair) -> Pubkey {
    Pubkey::new_from_array(keypair.pubkey().to_bytes())
}

fn signed(data: CrdsData, keypair: &Keypair) -> CrdsValue {
    let signature = keypair.sign_message(&data.signable_bytes());
    CrdsValue::new(data, Signature::new_from_array(signature.into()))
}

fn contact_info(keypair: &Keypair, wallclock: u64, port: u16) -> CrdsValue {
    let mut info = ContactInfo::new_localhost(&key_of(keypair), wallclock);
    info.set_gossip(SocketAddress::new(0x7f00_0001, port));
    signed(CrdsData::from(&info), keypair)
}

fn lowest_slot(keypair: &Keypair, wallclock: u64, lowest: u64) -> CrdsValue {
    signed(CrdsData::LowestSlot(LowestSlot { from: key_of(keypair), wallclock, lowest }), keypair)
}

fn hash_of(byte: u8) -> cluster_gossip::identity::Hash {
    cluster_gossip::identity::Hash::new_from_array([byte; 32])
}

#[test]
fn signable_bytes_have_a_fixed_layout() {
    let info = ContactInfo {
        pubkey: Pubkey::new_from_array([7; 32]),
        wallclock: 0x0102,
        gossip: SocketAddress::new(0x7f00_0001, 8000),
        shred_version: 3,
    };
    let mut expected = vec![0u8, 0u8];
    expected.extend_from_slice(&[7; 32]);
    expected.extend_from_slice(&[2, 1, 0, 0, 0, 0, 0, 0]);
    expected.extend_from_slice(&[1, 0, 0, 0x7f]);
    expected.extend_from_slice(&[0x40, 0x1f]);
    expected.extend_from_slice(&[3, 0]);
    assert_eq!(CrdsData::ContactInfo(info).signable_bytes(), expected);

    let vote = Vote {
        from: Pubkey::new_from_array([9; 32]),
        wallclock: 1,
        slot: 0x0a0b,
        hash: hash_of(4),
    };
    let mut expected = vec![1u8, 5u8];
    expected.extend_from_slice(&[9; 32]);
    expected.extend_from_slice(&[1, 0, 0, 0, 0, 0, 0, 0]);
    expected.extend_from_slice(&[0x0b, 0x0a, 0, 0, 0, 0, 0, 0]);
    expected.extend_from_slice(&[4; 32]);
    assert_eq!(CrdsData::Vote(5, vote).signable_bytes(), expected);

    let slots = EpochSlots {
        from: Pubkey::new_from_array([1; 32]),
        wallclock: u64::MAX,
        first_slot: 2,
        num_slots: 256,
    };
    let bytes = CrdsData::EpochSlots(2, slots).signable_bytes();
    assert_eq!(bytes.len(), 58);
    assert_eq!(&bytes[..2], &[3, 2]);
    assert_eq!(&bytes[34..42], &[0xff; 8]);
    assert_eq!(&bytes[42..], &[2, 0, 0, 0, 0, 0, 0, 0, 0, 1, 0, 0, 0, 0, 0, 0]);
}

#[test]
fn labels_and_kinds() {
    let key = Pubkey::new_from_array([3; 32]);
    let vote = Vote { from: key, wallclock: 1, slot: 2, hash: hash_of(0) };
    let data = CrdsData::Vote(4, vote);
    assert!(data.label().same(&CrdsValueLabel::Vote(4, key)));
    assert!(!data.label().same(&CrdsValueLabel::Vote(5, key)));
    assert!(!data.label().same(&CrdsValueLabel::EpochSlots(4, key)));
    assert_eq!(data.label().kind(), CrdsKind::Vote);
    assert_eq!(data.label().kind().tag(), 1);
    assert_eq!(CrdsKind::EpochSlots.tag(), 3);
    assert_eq!(data.wallclock(), 1);
    assert!(data.pubkey().same(&key));
    assert!(key.less(&Pubkey::new_from_array([4; 32])));
    assert!(!key.less(&key));
    let mut low = [3u8; 32];
    low[31] = 2;
    assert!(Pubkey::new_from_array(low).less(&key));
    assert_eq!(
        cluster_gossip::identity::Hash::new_from_array([
            1, 2, 3, 4, 5, 6, 7, 8, 9, 9, 9, 9, 9, 9, 9, 9, 9, 9, 9, 9, 9, 9, 9, 9, 9, 9, 9, 9, 9, 9,
            9, 9
        ])
        .prefix(),
        72623859790382856
    );
}

#[test]
fn value_hash_is_the_digest_of_the_wire_bytes() {
    let keypair = Keypair::new();
    let value = lowest_slot(&keypair, 10, 20);
    let mut wire = value.signature().bytes.to_vec();
    wire.extend_from_slice(&value.data().signable_bytes());
    assert_eq!(value.hash().to_bytes(), hash(&wire).to_bytes());
    assert_eq!(value.serialized_size(), wire.len());
    assert_eq!(value.serialized_size(), 114);
    assert_eq!(contact_info(&keypair, 0, 1).serialized_size(), 114);
    let vote = Vote { from: key_of(&keypair), wallclock: 1, slot: 2, hash: hash_of(0) };
    assert_eq!(signed(CrdsData::Vote(0, vote), &keypair).serialized_size(), 146);
    let slots = EpochSlots { from: key_of(&keypair), wallclock: 1, first_slot: 2, num_slots: 3 };
    assert_eq!(signed(CrdsData::EpochSlots(0, slots), &keypair).serialized_size(), 122);
}

#[test]
fn a_changed_payload_breaks_the_signature() {
    let keypair = Keypair::new();
    let data = CrdsData::LowestSlot(LowestSlot { from: key_of(&keypair), wallclock: 10, lowest: 20 });
    let signature = keypair.sign_message(&data.signable_bytes());
    let signature = Signature::new_from_array(signature.into());
    assert!(CrdsValue::new(data, signature).verify());
    let forged =
        CrdsData::LowestSlot(LowestSlot { from: key_of(&keypair), wallclock: 10, lowest: 21 });
    assert!(!CrdsValue::new(forged, signature).verify());
    assert!(!CrdsValue::new(data, Signature::new_from_array([0; 64])).verify());
}

#[test]
fn stake_map_lookup() {
    let a = Pubkey::new_from_array([1; 32]);
    let b = Pubkey::new_from_array([2; 32]);
    let mut stakes = StakeMap::new();
    assert!(stakes.all_zero());
    assert_eq!(stakes.get(&a), 0);
    stakes.insert(a, 0);
    assert!(stakes.all_zero());
    stakes.insert(b, 5);
    stakes.insert(a, 7);
    stakes.insert(b, 6);
    assert_eq!(stakes.get(&a), 7);
    assert_eq!(stakes.get(&b), 6);
    assert_eq!(stakes.len(), 2);
    assert!(!stakes.all_zero());
}

#[test]
fn timeouts_by_owner_and_kind() {
    let me = Pubkey::new_from_array([1; 32]);
    let staked = Pubkey::new_from_array([2; 32]);
    let other = Pubkey::new_from_array([3; 32]);
    let mut stakes = StakeMap::new();
    let timeouts = CrdsTimeouts::new(me, 100, 5000, &stakes);
    // While nobody has stake every record is kept an epoch long.
    assert_eq!(timeouts.timeout(&CrdsValueLabel::ContactInfo(other)), 5000);
    assert_eq!(timeouts.timeout(&CrdsValueLabel::ContactInfo(me)), u64::MAX);
    stakes.insert(staked, 1);
    let timeouts = CrdsTimeouts::new(me, 100, 5000, &stakes);
    assert_eq!(timeouts.timeout(&CrdsValueLabel::ContactInfo(me)), u64::MAX);
    assert_eq!(timeouts.timeout(&CrdsValueLabel::Vote(0, staked)), 5000);
    assert_eq!(timeouts.timeout(&CrdsValueLabel::Vote(0, other)), 100);
    let timeouts = timeouts.with_kind_timeout(CrdsKind::Vote, 7);
    assert_eq!(timeouts.timeout(&CrdsValueLabel::Vote(0, other)), 7);
    assert_eq!(timeouts.timeout(&CrdsValueLabel::Vote(0, staked)), 5000);
    assert_eq!(timeouts.timeout(&CrdsValueLabel::LowestSlot(other)), 100);
    let timeouts = timeouts.with_kind_timeout(CrdsKind::EpochSlots, 9000);
    assert_eq!(timeouts.timeout(&CrdsValueLabel::EpochSlots(1, staked)), 9000);
    let short = CrdsTimeouts::new(me, 100, 50, &stakes);
    assert_eq!(short.extended_timeout, 100);
}

#[test]
fn draws_and_weights() {
    assert_eq!(draw_at(0, 0), 8027708234668681072);
    assert_eq!(draw_at(0, 1), 3068355146849465497);
    assert_eq!(draw_at(42, 7), 1949413851770480341);
    assert_eq!(weight_of(0, u64::MAX), 1);
    assert_eq!(weight_of(1, u64::MAX), 4);
    assert_eq!(weight_of(2, u64::MAX), 9);
    assert_eq!(weight_of(3, u64::MAX), 9);
    assert_eq!(weight_of(u64::MAX, u64::MAX), 4225);
    assert_eq!(weight_of(1000, 1), 4);
    assert_eq!(weight_of(1000, 0), 1);
    let weights = vec![1, 2, 3];
    let picked: Vec<Option<usize>> = (0..8).map(|pick| weighted_index(&weights, pick)).collect();
    assert_eq!(
        picked,
        vec![Some(0), Some(1), Some(1), Some(2), Some(2), Some(2), Some(0), Some(1)]
    );
    assert_eq!(weighted_index(&vec![0, 0], 5), None);
    assert_eq!(weighted_index(&vec![], 5), None);
    assert_eq!(weighted_index(&vec![0, 4, 0], 123), Some(1));
    assert_eq!(weighted_index(&vec![u64::MAX, u64::MAX], u64::MAX), Some(1));
}

#[test]
fn sampling_without_putting_back() {
    let picked = sample_indices(vec![1, 1, 1, 1], 11, 10);
    let mut sorted = picked.clone();
    sorted.sort();
    assert_eq!(sorted, vec![0, 1, 2, 3]);
    assert_eq!(sample_indices(vec![1, 1, 1, 1], 11, 10), picked);
    assert_eq!(sample_indices(vec![1, 1, 1, 1], 11, 2), picked[..2].to_vec());
    assert_eq!(sample_indices(vec![0, 5, 0], 3, 2), vec![1]);
    assert_eq!(sample_indices(vec![], 3, 2), Vec::<usize>::new());
    // The first draw of seed 0 is 8027708234668681072, which leaves 2 by 10.
    assert_eq!(sample_indices(vec![2, 3, 5], 0, 1), vec![1]);
}

#[test]
fn bloom_holds_what_was_added() {
    let mut bloom = Bloom::new(64, 3, 9);
    assert_eq!(bloom.num_bits(), 64);
    assert_eq!(bloom.num_keys(), 3);
    let h = hash_of(5);
    assert!(!bloom.contains(&h));
    bloom.add(&h);
    assert!(bloom.contains(&h));
    assert!(!bloom.contains(&hash_of(6)));
    bloom.add(&hash_of(6));
    assert!(bloom.contains(&h));
    assert!(bloom.contains(&hash_of(6)));
    assert_eq!(Bloom::new(0, 1, 0).num_bits(), 1);
}

#[test]
fn filter_sizes() {
    assert_eq!(bits_for(992), 7936);
    assert_eq!(bits_for(0), 1);
    assert_eq!(bits_for(usize::MAX), 0x100_0000);
    assert_eq!(num_partitions(0, 992), 1);
    assert_eq!(num_partitions(1374, 992), 1);
    assert_eq!(num_partitions(1375, 992), 2);
    assert_eq!(num_partitions(2748, 992), 2);
    assert_eq!(num_partitions(2749, 992), 3);
    assert_eq!(num_partitions(5, 0), 5);
}

#[test]
fn filters_cover_their_part_of_the_hashes() {
    let hashes: Vec<_> = (0..40u8).map(hash_of).collect();
    let filters: Vec<CrdsFilter> =
        (0..3).map(|part| CrdsFilter::build(&hashes, part, 3, 512, 77)).collect();
    for h in &hashes {
        // Every filter takes the hash for known: the one of its part holds it.
        for filter in &filters {
            assert!(filter.holds(h));
        }
        let part = (h.prefix() % 3) as usize;
        assert!(filters[part].filter.contains(h));
    }
    // A filter for a part that is none holds nothing, and takes all for known.
    let none = CrdsFilter::build(&hashes, 0, 0, 0, 77);
    assert_eq!(none.filter.num_bits(), 1);
    assert!(hashes.iter().all(|h| none.holds(h) && !none.filter.contains(h)));
    let beyond = CrdsFilter::build(&hashes, 3, 3, 512, 77);
    assert!(hashes.iter().all(|h| beyond.holds(h) && !beyond.filter.contains(h)));
    let empty = CrdsFilter::build(&vec![], 1, 3, 512, 77);
    let inside = (0..=255u8).map(hash_of).find(|h| h.prefix() % 3 == 1).unwrap();
    let outside = (0..=255u8).map(hash_of).find(|h| h.prefix() % 3 != 1).unwrap();
    assert!(!empty.holds(&inside));
    assert!(empty.holds(&outside));
}

#[test]
fn ping_cache_follows_the_challenge() {
    let keypair = Keypair::new();
    let node = key_of(&keypair);
    let addr = SocketAddress::new(1, 2);
    let mut cache = PingCache::new(8000, 100, 4);
    assert_eq!(cache.state(&node, &addr, 0), LivenessState::Unverified);

    let (state, ping) = cache.check(&node, &addr, 10, 0xabcd);
    assert_eq!(state, LivenessState::Unverified);
    let ping = ping.unwrap();
    assert_eq!(ping.nonce, 0xabcd);
    assert!(ping.node.same(&node));
    assert_eq!(ping.addr, addr);
    assert_eq!(cache.state(&node, &addr, 10), LivenessState::PendingChallenge);

    // The rate limit withholds a second challenge.
    let (state, ping) = cache.check(&node, &addr, 50, 1);
    assert_eq!(state, LivenessState::PendingChallenge);
    assert!(ping.is_none());
    // Once the delay has passed another challenge goes out, with a new number.
    let (_, ping) = cache.check(&node, &addr, 110, 0x1234);
    assert_eq!(ping.unwrap().nonce, 0x1234);

    // An answer to the old number, or by another key, is refused.
    let old = keypair.sign_message(&0xabcdu64.to_le_bytes());
    assert!(!cache.receive_pong(&node, &addr, &Signature::new_from_array(old.into()), 120));
    let other = Keypair::new().sign_message(&0x1234u64.to_le_bytes());
    assert!(!cache.receive_pong(&node, &addr, &Signature::new_from_array(other.into()), 120));
    assert_eq!(cache.state(&node, &addr, 120), LivenessState::PendingChallenge);

    let pong = keypair.sign_message(&0x1234u64.to_le_bytes());
    let pong = Signature::new_from_array(pong.into());
    assert!(cache.receive_pong(&node, &addr, &pong, 120));
    assert_eq!(cache.state(&node, &addr, 120), LivenessState::Verified);
    // The same answer does not count twice.
    assert!(!cache.receive_pong(&node, &addr, &pong, 121));

    // While the answer is fresh no challenge is sent.
    let (state, ping) = cache.check(&node, &addr, 1120, 5);
    assert_eq!(state, LivenessState::Verified);
    assert!(ping.is_none());
    // Past an eighth of the time to live the answer is renewed.
    let (state, ping) = cache.check(&node, &addr, 1121, 6);
    assert_eq!(state, LivenessState::Verified);
    assert_eq!(ping.unwrap().nonce, 6);
    assert_eq!(cache.state(&node, &addr, 8120), LivenessState::Verified);
    // Past the time to live the peer has to answer again.
    assert_eq!(cache.state(&node, &addr, 8121), LivenessState::PendingChallenge);
    let (state, _) = cache.check(&node, &addr, 8121, 7);
    assert_eq!(state, LivenessState::PendingChallenge);
    // Another address of the same peer is not verified.
    assert_eq!(cache.state(&node, &SocketAddress::new(1, 3), 120), LivenessState::Unverified);
}

#[test]
fn ping_cache_evicts_the_entry_used_longest_ago() {
    let keys: Vec<Pubkey> = (1..=3u8).map(|k| Pubkey::new_from_array([k; 32])).collect();
    let addr = SocketAddress::new(1, 2);
    let mut cache = PingCache::new(1000, 0, 2);
    cache.mock_pong(keys[0], addr, 0);
    cache.mock_pong(keys[1], addr, 0);
    assert_eq!(cache.len(), 2);
    // Using the first entry makes the second the oldest.
    cache.check(&keys[0], &addr, 1, 9);
    cache.mock_pong(keys[2], addr, 1);
    assert_eq!(cache.len(), 2);
    assert_eq!(cache.state(&keys[0], &addr, 1), LivenessState::Verified);
    assert_eq!(cache.state(&keys[1], &addr, 1), LivenessState::Unverified);
    assert_eq!(cache.state(&keys[2], &addr, 1), LivenessState::Verified);
}

#[test]
fn peers_are_checked_before_they_are_used() {
    let me = Keypair::new();
    let a = Keypair::new();
    let b = Keypair::new();
    let mut crds = Crds::new();
    crds.insert(contact_info(&me, 1, 1), 0, GossipRoute::LocalMessage).unwrap();
    crds.insert(contact_info(&a, 1, 2), 0, GossipRoute::PullResponse).unwrap();
    crds.insert(lowest_slot(&a, 1, 5), 0, GossipRoute::PullResponse).unwrap();
    crds.insert(contact_info(&b, 1, 3), 0, GossipRoute::PullResponse).unwrap();
    let nodes = gossip_nodes(&crds, &key_of(&me));
    assert_eq!(nodes.len(), 2);
    assert!(nodes[0].pubkey.same(&key_of(&a)));
    assert!(nodes[1].pubkey.same(&key_of(&b)));

    let mut cache = PingCache::new(1000, 10, 8);
    cache.mock_pong(key_of(&b), SocketAddress::new(0x7f00_0001, 3), 0);
    let (live, pings) = verified_peers(&nodes, &mut cache, 5, 21);
    assert_eq!(live.len(), 1);
    assert!(live[0].pubkey.same(&key_of(&b)));
    assert_eq!(pings.len(), 1);
    assert!(pings[0].node.same(&key_of(&a)));
    assert_eq!(pings[0].nonce, draw_at(21, 0));

    let mut stakes = StakeMap::new();
    stakes.insert(key_of(&me), 2);
    stakes.insert(key_of(&a), 1000);
    assert_eq!(weights_of(&nodes, &stakes, &key_of(&me)), vec![9, 1]);
}

#[test]
fn pull_request_needs_a_verified_peer() {
    let me = Keypair::new();
    let peer = Keypair::new();
    let mut gossip = CrdsGossip::default();
    gossip.crds.insert(contact_info(&me, 1, 1), 0, GossipRoute::LocalMessage).unwrap();
    let mut cache = PingCache::new(1000, 10, 8);
    let stakes = StakeMap::new();
    let (requests, pings, caller) =
        gossip.new_pull_request(&key_of(&me), 5, &stakes, 992, &mut cache, 1);
    assert_eq!(requests.err(), Some(CrdsGossipError::NoPeers));
    assert!(pings.is_empty());
    assert!(caller.unwrap().pubkey().same(&key_of(&me)));
    let (_, _, nobody) = gossip.new_pull_request(&key_of(&peer), 5, &stakes, 992, &mut cache, 1);
    assert!(nobody.is_none());
    let mut cache = PingCache::new(1000, 10, 8);

    gossip.crds.insert(contact_info(&peer, 1, 2), 0, GossipRoute::PullResponse).unwrap();
    let (requests, pings, _) =
        gossip.new_pull_request(&key_of(&me), 5, &stakes, 992, &mut cache, 1);
    assert_eq!(requests.err(), Some(CrdsGossipError::NoPeers));
    assert_eq!(pings.len(), 1);
    assert!(pings[0].node.same(&key_of(&peer)));

    let answer = peer.sign_message(&pings[0].nonce.to_le_bytes());
    assert!(cache.receive_pong(
        &key_of(&peer),
        &pings[0].addr,
        &Signature::new_from_array(answer.into()),
        6
    ));
    let (requests, pings, _) =
        gossip.new_pull_request(&key_of(&me), 7, &stakes, 992, &mut cache, 1);
    let requests = requests.unwrap();
    assert!(pings.is_empty());
    assert_eq!(requests.len(), 1);
    assert!(requests[0].0.pubkey.same(&key_of(&peer)));
    assert_eq!(requests[0].1.num_partitions, 1);
    assert_eq!(requests[0].1.partition, 0);
    assert_eq!(requests[0].1.filter.num_bits(), 7936);
    assert_eq!(requests[0].1.filter.num_keys(), 8);
    let label = CrdsValueLabel::ContactInfo(key_of(&me));
    assert!(requests[0].1.filter.contains(&gossip.crds.get(&label).unwrap().value.hash()));
}

#[test]
fn pull_requests_are_spread_over_the_parts() {
    let me = Keypair::new();
    let peer = Keypair::new();
    let mut crds = Crds::new();
    crds.insert(contact_info(&me, 1, 1), 0, GossipRoute::LocalMessage).unwrap();
    crds.insert(contact_info(&peer, 1, 2), 0, GossipRoute::PullResponse).unwrap();
    for k in 0..3 {
        crds.insert(lowest_slot(&Keypair::new(), 1, k), 0, GossipRoute::PullResponse).unwrap();
    }
    let mut cache = PingCache::new(1000, 10, 8);
    cache.mock_pong(key_of(&peer), SocketAddress::new(0x7f00_0001, 2), 0);
    let pull = CrdsGossipPull::new(PullConfig { crds_timeout: 15000, num_pull_requests: 2 });
    // A filter of one byte is meant to hold one hash, so five hashes take five parts.
    let (requests, _, _) =
        pull.new_pull_request(&crds, &key_of(&me), 5, &StakeMap::new(), 1, &mut cache, 3);
    let requests = requests.unwrap();
    assert_eq!(requests.len(), 2);
    assert_eq!(requests[0].1.num_partitions, 5);
    assert_eq!(requests[1].1.partition, (requests[0].1.partition + 1) % 5);
    assert_eq!(requests[0].1.filter.num_bits(), 8);
    let start = draw_at(draw_at(3, 2), 0) % 5;
    assert_eq!(requests[0].1.partition, start);
}

#[test]
fn responses_hold_what_the_asker_lacks() {
    let me = Keypair::new();
    let a = Keypair::new();
    let b = Keypair::new();
    let mut gossip = CrdsGossip::default();
    let mine = contact_info(&me, 1, 1);
    let of_a = contact_info(&a, 1, 2);
    let of_b = contact_info(&b, 1, 3);
    let slot_b = lowest_slot(&b, 1, 9);
    for value in [mine, of_a, of_b, slot_b] {
        gossip.crds.insert(value, 0, GossipRoute::LocalMessage).unwrap();
    }
    let known = vec![mine.hash(), of_a.hash()];
    let request = |wallclock| {
        vec![PullRequest {
            pubkey: key_of(&a),
            wallclock,
            filter: CrdsFilter::build(&known, 0, 1, 4096, 5),
        }]
    };
    // The newest record comes first.
    let responses = gossip.generate_pull_responses(&request(10), usize::MAX, 10, |_| true);
    assert_eq!(responses.len(), 1);
    assert_eq!(responses[0].len(), 2);
    assert!(responses[0][0].hash().same(&slot_b.hash()));
    assert!(responses[0][1].hash().same(&of_b.hash()));
    // The limit cuts the response short.
    let responses = gossip.generate_pull_responses(&request(10), 1, 10, |_| true);
    assert_eq!(responses[0].len(), 1);
    assert!(responses[0][0].hash().same(&slot_b.hash()));
    // The limit holds for all responses together.
    let mut two = request(10);
    two.extend(request(10));
    let responses = gossip.generate_pull_responses(&two, 3, 10, |_| true);
    assert_eq!(responses[0].len(), 2);
    assert_eq!(responses[1].len(), 1);
    // The caller decides what is retained.
    let responses = gossip.generate_pull_responses(&request(10), usize::MAX, 10, |value| {
        matches!(value.data(), CrdsData::ContactInfo(_))
    });
    assert_eq!(responses[0].len(), 1);
    assert!(responses[0][0].hash().same(&of_b.hash()));
    // A filter for a part that is none takes every record for known.
    let odd = |partition, num_partitions| {
        vec![PullRequest {
            pubkey: key_of(&a),
            wallclock: 10,
            filter: CrdsFilter { filter: Bloom::new(64, 1, 0), partition, num_partitions },
        }]
    };
    assert_eq!(gossip.generate_pull_responses(&odd(0, 1), usize::MAX, 10, |_| true)[0].len(), 4);
    assert!(gossip.generate_pull_responses(&odd(0, 0), usize::MAX, 10, |_| true)[0].is_empty());
    assert!(gossip.generate_pull_responses(&odd(3, 3), usize::MAX, 10, |_| true)[0].is_empty());
    // A request from too far ahead is not answered.
    let responses = gossip.generate_pull_responses(&request(15010), usize::MAX, 10, |_| true);
    assert!(responses[0].is_empty());
    let responses = gossip.generate_pull_responses(&request(15009), usize::MAX, 10, |_| true);
    assert_eq!(responses[0].len(), 2);
}

#[test]
fn pull_responses_are_sorted_and_taken() {
    let me = Keypair::new();
    let a = Keypair::new();
    let b = Keypair::new();
    let mut stakes = StakeMap::new();
    stakes.insert(key_of(&me), 1);
    let mut gossip = CrdsGossip::default();
    gossip.crds.insert(contact_info(&me, 1, 1), 0, GossipRoute::LocalMessage).unwrap();
    let held = contact_info(&a, 500, 2);
    gossip.crds.insert(held, 0, GossipRoute::PullResponse).unwrap();

    let newer = contact_info(&a, 501, 2);
    let older = contact_info(&a, 499, 2);
    let stale = contact_info(&b, 1, 3);
    let slot = lowest_slot(&b, 999, 4);
    let forged = signed(
        CrdsData::LowestSlot(LowestSlot { from: key_of(&a), wallclock: 999, lowest: 0 }),
        &b,
    );
    let responses = vec![newer, older, stale, slot, forged, held];
    let timeouts = CrdsTimeouts::new(key_of(&me), 100, 0, &stakes);
    let (accepted, expired, failed) = gossip.filter_pull_responses(&timeouts, &responses, 1000);
    assert_eq!(accepted.len(), 1);
    assert!(accepted[0].hash().same(&slot.hash()));
    assert_eq!(expired.len(), 2);
    assert!(expired[0].hash().same(&newer.hash()));
    assert!(expired[1].hash().same(&stale.hash()));
    assert_eq!(failed.len(), 3);
    assert!(failed[0].same(&older.hash()));
    assert!(failed[1].same(&forged.hash()));
    assert!(failed[2].same(&held.hash()));
    let (accepted, expired, _) = gossip.filter_pull_responses(&timeouts, &responses, 601);
    assert_eq!(accepted.len(), 2);
    assert!(accepted[0].hash().same(&newer.hash()));
    assert_eq!(expired.len(), 1);

    let mut cache = PingCache::new(1000, 10, 8);
    let mut stats = ProcessPullStats::default();
    let accepted = vec![newer, slot, stale, newer];
    let pings = gossip.process_pull_responses(
        &mut cache,
        &accepted,
        &expired,
        &failed,
        1000,
        &mut stats,
        4,
    );
    assert_eq!(stats, ProcessPullStats { success: 3, failed_insert: 3, failed_timeout: 1 });
    assert_eq!(gossip.crds.len(), 4);
    assert_eq!(gossip.crds.stats().pull_inserts, 4);
    assert_eq!(gossip.pull.num_failed_inserts(), 3);
    // The nodes whose contact info was taken are challenged.
    assert_eq!(pings.len(), 2);
    assert!(pings[0].node.same(&key_of(&a)));
    assert_eq!(pings[0].nonce, draw_at(4, 0));
    assert!(pings[1].node.same(&key_of(&b)));
    assert_eq!(pings[1].nonce, draw_at(4, 2));
    assert_eq!(
        cache.state(&key_of(&b), &SocketAddress::new(0x7f00_0001, 3), 1000),
        LivenessState::PendingChallenge
    );
    // The hashes of what was refused are told to the peers from now on.
    let hashes = gossip.pull.hashes(&gossip.crds);
    assert_eq!(hashes.len(), 7);
    assert!(hashes[4].same(&older.hash()));
}

#[test]
fn a_purged_record_does_not_come_back_by_pull() {
    let me = Keypair::new();
    let peer = Keypair::new();
    let stakes = {
        let mut stakes = StakeMap::new();
        stakes.insert(key_of(&me), 1);
        stakes
    };
    let record = contact_info(&peer, 10, 2);
    let mut gossip = CrdsGossip::default();
    gossip.crds.insert(contact_info(&me, 10, 1), 10, GossipRoute::LocalMessage).unwrap();
    gossip.crds.insert(record, 10, GossipRoute::PullResponse).unwrap();
    let mut other = CrdsGossip::default();
    other.crds.insert(record, 10, GossipRoute::PullResponse).unwrap();

    let timeouts = gossip.make_timeouts(key_of(&me), &stakes, 0);
    let purged = gossip.purge(15011, &timeouts);
    assert_eq!(purged.len(), 1);
    assert!(purged[0].same(&record.label()));
    assert_eq!(gossip.crds.len(), 1);

    // The node still tells its peers that it knows the record.
    let hashes = gossip.pull.hashes(&gossip.crds);
    assert_eq!(hashes.len(), 2);
    assert!(hashes[1].same(&record.hash()));
    let request = vec![PullRequest {
        pubkey: key_of(&me),
        wallclock: 15011,
        filter: CrdsFilter::build(&hashes, 0, 1, 7936, 1),
    }];
    let responses = other.generate_pull_responses(&request, usize::MAX, 15011, |_| true);
    assert!(responses[0].is_empty());

    // A peer that purged the record has nothing to send of it.
    let other_timeouts = other.make_timeouts(key_of(&peer), &stakes, 0);
    assert!(other.purge(15011, &other_timeouts).is_empty());
    let other_timeouts = other.make_timeouts(key_of(&me), &stakes, 0);
    assert_eq!(other.purge(15011, &other_timeouts).len(), 1);
    let blank = vec![PullRequest {
        pubkey: key_of(&me),
        wallclock: 15011,
        filter: CrdsFilter::build(&vec![], 0, 1, 7936, 1),
    }];
    assert!(other.generate_pull_responses(&blank, usize::MAX, 15011, |_| true)[0].is_empty());

    // Written anew, the record is taken again.
    let anew = contact_info(&peer, 15011, 2);
    let (accepted, _, failed) =
        gossip.filter_pull_responses(&timeouts, &vec![anew, record], 15011);
    assert_eq!(accepted.len(), 1);
    assert!(failed.is_empty());
    assert_eq!(gossip.crds.insert(anew, 15011, GossipRoute::PullResponse), Ok(()));
    // The memory of the purge fades after five timeouts. By then the new
    // record has been purged in its turn.
    assert_eq!(gossip.purge(15011 + 75000, &timeouts).len(), 1);
    assert_eq!(gossip.crds.num_purged(), 2);
    assert!(gossip.crds.purged_hash(0).same(&record.hash()));
    gossip.purge(15011 + 75001, &timeouts);
    assert_eq!(gossip.crds.num_purged(), 1);
    assert!(gossip.crds.purged_hash(0).same(&anew.hash()));
}

fn push_side(nodes: &[&Keypair], me: &Keypair, config: PushConfig) -> (CrdsGossip, PingCache) {
    let mut gossip = CrdsGossip::new(config, PullConfig::default());
    let mut cache = PingCache::new(100_000, 10, 64);
    gossip.crds.insert(contact_info(me, 1000, 1), 1000, GossipRoute::LocalMessage).unwrap();
    for (k, node) in nodes.iter().enumerate() {
        let port = 2 + k as u16;
        gossip.crds.insert(contact_info(node, 1000, port), 1000, GossipRoute::PullResponse).unwrap();
        cache.mock_pong(key_of(node), SocketAddress::new(0x7f00_0001, port), 1000);
    }
    let pings = gossip.refresh_push_active_set(&key_of(me), &StakeMap::new(), &mut cache, 1000, 5);
    assert!(pings.is_empty());
    (gossip, cache)
}

fn list_of<'a>(lists: &'a [(Pubkey, Vec<usize>)], node: &Keypair) -> &'a Vec<usize> {
    &lists.iter().find(|(peer, _)| peer.same(&key_of(node))).unwrap().1
}

#[test]
fn push_messages_respect_prunes() {
    let me = Keypair::new();
    let a = Keypair::new();
    let b = Keypair::new();
    let c = Keypair::new();
    let (mut gossip, _) = push_side(&[&a, &b], &me, PushConfig::default());
    let mut nodes = gossip.push.active_nodes();
    assert_eq!(nodes.len(), 2);
    nodes.sort_by_key(|key| key.to_bytes());
    let mut expected = vec![key_of(&a), key_of(&b)];
    expected.sort_by_key(|key| key.to_bytes());
    assert!(nodes.iter().zip(&expected).all(|(x, y)| x.same(y)));

    gossip.crds.insert(contact_info(&c, 1000, 9), 1000, GossipRoute::PullResponse).unwrap();
    // A prune for another node, or one that comes late, changes nothing.
    let origins = vec![key_of(&c), key_of(&me)];
    assert_eq!(
        gossip.process_prune_msg(&key_of(&me), &key_of(&a), &key_of(&b), &origins, 1000, 1000),
        Err(CrdsGossipError::BadPruneDestination)
    );
    assert_eq!(
        gossip.process_prune_msg(&key_of(&me), &key_of(&a), &key_of(&me), &origins, 1000, 1501),
        Err(CrdsGossipError::PruneMessageTimeout)
    );
    assert_eq!(
        gossip.process_prune_msg(&key_of(&me), &key_of(&a), &key_of(&b), &origins, 1000, 9999),
        Err(CrdsGossipError::BadPruneDestination)
    );
    assert_eq!(
        gossip.process_prune_msg(&key_of(&me), &key_of(&a), &key_of(&me), &origins, 1000, 1500),
        Ok(())
    );
    assert_eq!(
        gossip.process_prune_msg(&key_of(&me), &key_of(&a), &key_of(&me), &origins, u64::MAX, 5),
        Ok(())
    );

    let (entries, lists, num_pushed) = gossip.new_push_messages(1000, |_| true);
    assert_eq!(entries.len(), 4);
    assert_eq!(lists.len(), 2);
    // To `a` goes only what neither `a` wrote nor `c` or this node: the record of `b`.
    let to_a = list_of(&lists, &a);
    assert_eq!(to_a.len(), 1);
    assert!(entries[to_a[0]].pubkey().same(&key_of(&b)));
    // To `b` goes all but its own record.
    let to_b = list_of(&lists, &b);
    assert_eq!(to_b.len(), 3);
    assert!(to_b.iter().all(|&k| !entries[k].pubkey().same(&key_of(&b))));
    assert_eq!(num_pushed, 4);
    assert_eq!(gossip.push.num_pending(&gossip.crds), 0);

    // What was pushed is not pushed again; a new record of `c` goes to `b` alone.
    gossip.crds.insert(lowest_slot(&c, 1000, 1), 1000, GossipRoute::PullResponse).unwrap();
    assert_eq!(gossip.push.num_pending(&gossip.crds), 1);
    let (entries, lists, num_pushed) = gossip.new_push_messages(1000, |_| true);
    assert_eq!(entries.len(), 1);
    assert!(list_of(&lists, &a).is_empty());
    assert_eq!(list_of(&lists, &b), &vec![0]);
    assert_eq!(num_pushed, 1);
}

#[test]
fn push_messages_respect_window_budget_and_policy() {
    let me = Keypair::new();
    let a = Keypair::new();
    let config = PushConfig { push_fanout: 3, msg_timeout: 100, prune_timeout: 500, max_bytes: 300 };
    let (mut gossip, _) = push_side(&[&a], &me, config);
    // Records: own contact info (1000), that of `a` (1000), then four more.
    let early = lowest_slot(&Keypair::new(), 899, 0);
    let first = lowest_slot(&Keypair::new(), 900, 1);
    let second = lowest_slot(&Keypair::new(), 1100, 2);
    let late = lowest_slot(&Keypair::new(), 1101, 3);
    let third = lowest_slot(&Keypair::new(), 1000, 4);
    for value in [early, first, second, late, third] {
        gossip.crds.insert(value, 1000, GossipRoute::PullResponse).unwrap();
    }
    // 300 bytes take two records of 114 bytes; the third stays for later.
    let (entries, lists, num_pushed) = gossip.new_push_messages(1000, |_| true);
    assert_eq!(entries.len(), 7);
    assert_eq!(lists.len(), 1);
    assert_eq!(lists[0].1, vec![0, 3]);
    assert_eq!(num_pushed, 2);
    let pending = gossip.push.num_pending(&gossip.crds);
    assert_eq!(pending, 3);
    let (entries, lists, _) = gossip.new_push_messages(1000, |value| value.wallclock() != 1100);
    assert_eq!(entries.len(), 3);
    assert!(entries[0].hash().same(&second.hash()));
    assert_eq!(lists[0].1, vec![2]);
    assert!(entries[2].hash().same(&third.hash()));
}

#[test]
fn pushed_records_are_taken_and_senders_noted() {
    let me = Keypair::new();
    let origin = Keypair::new();
    let senders: Vec<Keypair> = (0..4).map(|_| Keypair::new()).collect();
    let mut gossip = CrdsGossip::default();
    let mut stakes = StakeMap::new();
    stakes.insert(key_of(&me), 100);
    stakes.insert(key_of(&origin), 100);
    // Stakes 40, 30, 20 and 10: the best two senders hold 70, enough by far.
    for (k, sender) in senders.iter().enumerate() {
        stakes.insert(key_of(sender), 40 - 10 * k as u64);
    }
    let record = contact_info(&origin, 1000, 7);
    let far = contact_info(&origin, 40_000, 7);
    let messages: Vec<(Pubkey, Vec<CrdsValue>)> =
        senders.iter().map(|sender| (key_of(sender), vec![far, record])).collect();
    let origins = gossip.process_push_message(&messages, 1000);
    assert_eq!(origins.len(), 1);
    assert!(origins[0].same(&key_of(&origin)));
    assert_eq!(gossip.crds.len(), 1);
    assert_eq!(gossip.crds.stats().push_inserts, 1);

    // All senders delivered; the first was first. The two best stay, by score then stake.
    let prunes = gossip.prune_received_cache(&key_of(&me), &origins, &stakes);
    let mut pruned: Vec<[u8; 32]> = prunes.iter().map(|(sender, _)| sender.to_bytes()).collect();
    pruned.sort();
    let mut expected = vec![key_of(&senders[2]).to_bytes(), key_of(&senders[3]).to_bytes()];
    expected.sort();
    assert_eq!(pruned, expected);
    for (_, list) in &prunes {
        assert_eq!(list.len(), 1);
        assert!(list[0].same(&key_of(&origin)));
    }
    // The author was pruned, and is observed afresh.
    assert!(gossip.prune_received_cache(&key_of(&me), &origins, &stakes).is_empty());

    // With two senders only there is nothing to prune.
    let next = contact_info(&origin, 1001, 7);
    let messages: Vec<(Pubkey, Vec<CrdsValue>)> =
        senders[..2].iter().map(|sender| (key_of(sender), vec![next])).collect();
    let origins = gossip.process_push_message(&messages, 1000);
    assert_eq!(origins.len(), 1);
    assert!(gossip.prune_received_cache(&key_of(&me), &origins, &stakes).is_empty());
}

#[test]
fn pruning_waits_for_stake_enough() {
    let me = Keypair::new();
    let origin = Keypair::new();
    let senders: Vec<Keypair> = (0..4).map(|_| Keypair::new()).collect();
    let mut gossip = CrdsGossip::default();
    let mut stakes = StakeMap::new();
    stakes.insert(key_of(&me), 1000);
    stakes.insert(key_of(&origin), 2000);
    // The senders kept have to hold 150 together; the best three hold 60, 50 and 40.
    for (k, sender) in senders.iter().enumerate() {
        stakes.insert(key_of(sender), 60 - 10 * k as u64);
    }
    let record = contact_info(&origin, 1000, 7);
    let messages: Vec<(Pubkey, Vec<CrdsValue>)> =
        senders[1..].iter().map(|sender| (key_of(sender), vec![record])).collect();
    let origins = gossip.process_push_message(&messages, 1000);
    // Sender 1 was first; 2 and 3 follow by stake. Ahead of 3 are 50 + 40 = 90 only.
    assert!(gossip.prune_received_cache(&key_of(&me), &origins, &stakes).is_empty());

    let next = contact_info(&origin, 1001, 7);
    let messages: Vec<(Pubkey, Vec<CrdsValue>)> =
        senders.iter().map(|sender| (key_of(sender), vec![next])).collect();
    let origins = gossip.process_push_message(&messages, 1000);
    // Sender 0 was first now. Ahead of sender 3 are 60 + 50 + 40 = 150.
    let prunes = gossip.prune_received_cache(&key_of(&me), &origins, &stakes);
    assert_eq!(prunes.len(), 1);
    assert!(prunes[0].0.same(&key_of(&senders[3])));
}

#[test]
fn pairs_are_grouped_by_sender() {
    let keys: Vec<Pubkey> = (1..=4u8).map(|k| Pubkey::new_from_array([k; 32])).collect();
    let pairs = vec![(keys[0], keys[2]), (keys[1], keys[2]), (keys[0], keys[3]), (keys[1], keys[3])];
    let groups = group_pairs(&pairs);
    assert_eq!(groups.len(), 2);
    assert!(groups[0].0.same(&keys[0]));
    assert!(groups[1].0.same(&keys[1]));
    for (_, origins) in &groups {
        assert_eq!(origins.len(), 2);
        assert!(origins[0].same(&keys[2]));
        assert!(origins[1].same(&keys[3]));
    }
    assert!(group_pairs(&vec![]).is_empty());
}

#[test]
fn the_active_set_is_bounded_and_keeps_its_prunes() {
    let me = Keypair::new();
    let peers: Vec<Keypair> = (0..5).map(|_| Keypair::new()).collect();
    let refs: Vec<&Keypair> = peers.iter().collect();
    let config = PushConfig { push_fanout: 3, ..PushConfig::default() };
    let (mut gossip, mut cache) = push_side(&refs, &me, config);
    let nodes = gossip.push.active_nodes();
    assert_eq!(nodes.len(), 3);
    let origin = Pubkey::new_from_array([9; 32]);
    gossip
        .process_prune_msg(&key_of(&me), &nodes[0], &key_of(&me), &vec![origin], 1000, 1000)
        .unwrap();
    // The same draws give the same set, and the prune stays.
    gossip.refresh_push_active_set(&key_of(&me), &StakeMap::new(), &mut cache, 1001, 5);
    let again = gossip.push.active_nodes();
    assert_eq!(again.len(), 3);
    assert!(nodes.iter().zip(&again).all(|(x, y)| x.same(y)));
    let by_origin =
        signed(CrdsData::LowestSlot(LowestSlot { from: origin, wallclock: 1001, lowest: 1 }), &me);
    assert!(!by_origin.verify());
    // A node whose contact info is purged leaves the active set.
    let mut stakes = StakeMap::new();
    stakes.insert(key_of(&me), 1);
    let timeouts = gossip.make_timeouts(key_of(&me), &stakes, 0);
    let purged = gossip.purge(1000 + 15001, &timeouts);
    assert_eq!(purged.len(), 5);
    assert!(gossip.push.active_nodes().is_empty());
    assert_eq!(gossip.crds.len(), 1);

    let mut push = CrdsGossipPush::new(PushConfig::default());
    push.forget_nodes(&vec![origin]);
    assert!(push.active_nodes().is_empty());
    assert_eq!(push.prune_timeout(), 500);
    assert_eq!(push.config(), PushConfig::default());
}

#[test]
fn table_errors() {
    let keypair = Keypair::new();
    let mut crds = Crds::new();
    let value = contact_info(&keypair, 5, 1);
    assert!(crds.upserts(&value));
    crds.insert(value, 0, GossipRoute::PushMessage(key_of(&keypair))).unwrap();
    assert!(!crds.upserts(&value));
    assert!(!crds.upserts(&contact_info(&keypair, 4, 1)));
    assert!(crds.upserts(&contact_info(&keypair, 6, 1)));
    assert_eq!(
        crds.insert(contact_info(&keypair, 4, 1), 0, GossipRoute::PullResponse),
        Err(CrdsError::InsertFailed)
    );
    assert!(!crds.is_empty());
    assert!(crds.get_contact_info(&key_of(&keypair)).unwrap().pubkey.same(&key_of(&keypair)));
    assert!(crds.get_contact_info(&Pubkey::new_from_array([0; 32])).is_none());
    assert_eq!(crds.entry(0).ordinal, 0);
    assert_eq!(crds.stats().push_inserts, 1);
}
