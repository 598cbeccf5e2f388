use cluster_gossip::crds::GossipRoute;
use cluster_gossip::crds_data::{ContactInfo, CrdsData, CrdsValueLabel};
use cluster_gossip::crds_value::CrdsValue;
use cluster_gossip::error::CrdsGossipError;
use cluster_gossip::gossip::CrdsGossip;
use cluster_gossip::identity::{Pubkey, Signature, SocketAddress};
use cluster_gossip::ping_pong::PingCache;
use cluster_gossip::pull::{ProcessPullStats, PullRequest, CRDS_GOSSIP_PULL_CRDS_TIMEOUT_MS};
use cluster_gossip::push::CRDS_GOSSIP_PUSH_MSG_TIMEOUT_MS;
use cluster_gossip::stakes::StakeMap;
use cluster_gossip::timeouts::CrdsTimeouts;
use solana_keypair::Keypair;
use solana_sha256_hasher::hash;
use solana_signer::Signer;
use std::collections::{HashMap, HashSet};

const LOCALHOST: u32 = 0x7f00_0001;

struct Node {
    keypair: Keypair,
    contact_info: ContactInfo,
    gossip: CrdsGossip,
    ping_cache: PingCache,
    stake: u64,
}

impl Node {
    fn new(keypair: Keypair, contact_info: ContactInfo, gossip: CrdsGossip) -> Self {
        Self::staked(keypair, contact_info, gossip, 0)
    }

    fn staked(keypair: Keypair, contact_info: ContactInfo, gossip: CrdsGossip, stake: u64) -> Self {
        let ping_cache = new_ping_cache();
        Node { keypair, contact_info, gossip, ping_cache, stake }
    }

    fn pubkey(&self) -> Pubkey {
        key_of(&self.keypair)
    }
}

struct Network {
    nodes: Vec<Node>,
    index: HashMap<Pubkey, usize>,
    stake_pruned: u64,
    connections_pruned: HashSet<(Pubkey, Pubkey)>,
    seed: u64,
}

impl Network {
    fn new(nodes: Vec<Node>) -> Self {
        let index = nodes
            .iter()
            .enumerate()
            .map(|(k, node)| (node.pubkey(), k))
            .collect();
        Network { nodes, index, connections_pruned: HashSet::new(), stake_pruned: 0, seed: 1 }
    }

    fn len(&self) -> usize {
        self.nodes.len()
    }

    fn next_seed(&mut self) -> u64 {
        self.seed = self.seed.wrapping_mul(6364136223846793005).wrapping_add(1442695040888963407);
        self.seed
    }
}

/// The keypair of the `k`-th node of a network.
fn keypair_of(k: usize) -> Keypair {
    let mut secret = [0x5a; 32];
    secret[..8].copy_from_slice(&(k as u64).to_le_bytes());
    Keypair::new_from_array(secret)
}

fn key_of(keypair: &Keypair) -> Pubkey {
    Pubkey::new_from_array(keypair.pubkey().to_bytes())
}

fn signed(data: CrdsData, keypair: &Keypair) -> CrdsValue {
    let signature = keypair.sign_message(&data.signable_bytes());
    CrdsValue::new(data, Signature::new_from_array(signature.into()))
}

fn timestamp() -> u64 {
    1_761_652_800_000
}

fn stakes(network: &Network) -> StakeMap {
    let mut stakes = StakeMap::new();
    for node in &network.nodes {
        stakes.insert(node.pubkey(), node.stake);
    }
    stakes
}

fn star_network_create(num: usize) -> Network {
    let gossip_port_offset = 9000;
    let node_keypair = keypair_of(0);
    let contact_info = ContactInfo::new_localhost(&key_of(&node_keypair), 0);
    let entry = signed(CrdsData::from(&contact_info), &node_keypair);
    let mut network: Vec<Node> = (1..num)
        .map(|k| {
            let node_keypair = keypair_of(k);
            // Each node listens at an address of its own.
            let mut contact_info = ContactInfo::new_localhost(&key_of(&node_keypair), 0);
            let gossip_port = gossip_port_offset + u16::try_from(k).unwrap();
            contact_info.set_gossip(SocketAddress::new(LOCALHOST, gossip_port));
            let new = signed(CrdsData::from(&contact_info), &node_keypair);
            let mut node = CrdsGossip::default();
            node.crds.insert(new, timestamp(), GossipRoute::LocalMessage).unwrap();
            node.crds.insert(entry, timestamp(), GossipRoute::LocalMessage).unwrap();
            Node::new(node_keypair, contact_info, node)
        })
        .collect();
    let mut node = CrdsGossip::default();
    node.crds.insert(entry, timestamp(), GossipRoute::LocalMessage).unwrap();
    network.push(Node::new(node_keypair, contact_info, node));
    Network::new(network)
}

fn ring_network_create(num: usize) -> Network {
    let mut network: Vec<Node> = (0..num)
        .map(|k| {
            let node_keypair = keypair_of(k);
            let contact_info = ContactInfo::new_localhost(&key_of(&node_keypair), 0);
            let new = signed(CrdsData::from(&contact_info), &node_keypair);
            let mut node = CrdsGossip::default();
            node.crds.insert(new, timestamp(), GossipRoute::LocalMessage).unwrap();
            Node::new(node_keypair, contact_info, node)
        })
        .collect();
    let num = network.len();
    for k in 0..num {
        let start_info = {
            let start = &network[k];
            let label = CrdsValueLabel::ContactInfo(start.pubkey());
            start.gossip.crds.get(&label).unwrap().value
        };
        let end = &mut network[(k + 1) % num];
        end.gossip.crds.insert(start_info, timestamp(), GossipRoute::LocalMessage).unwrap();
    }
    Network::new(network)
}

fn network_simulator_pull_only(network: &mut Network) {
    let num = network.len();
    // In absence of gossip push messages, a pull only network with star
    // topology will not converge because it forms a DAG. We add additional
    // edges so that there is a directed path between every two pair of nodes.
    let mut entries: Vec<CrdsValue> = network
        .nodes
        .iter()
        .map(|node| {
            let label = CrdsValueLabel::ContactInfo(node.pubkey());
            node.gossip.crds.get(&label).unwrap().value
        })
        .collect();
    entries.rotate_right(1);
    for (node, entry) in network.nodes.iter_mut().zip(entries) {
        let _ = node.gossip.crds.insert(entry, timestamp(), GossipRoute::LocalMessage);
    }
    let (converged, bytes_tx) = network_run_pull(network, 0, num * 2, 0.9);
    println!("network_simulator_pull_{num}: converged: {converged} total_bytes: {bytes_tx}");
    assert!(converged >= 0.9);
}

fn refresh_all(network: &mut Network, now: u64) {
    for k in 0..network.len() {
        let seed = network.next_seed();
        let node = &mut network.nodes[k];
        let pubkey = node.pubkey();
        node.gossip.refresh_push_active_set(
            &pubkey,
            &StakeMap::new(), // stakes
            &mut node.ping_cache,
            now,
            seed,
        );
    }
}

fn mock_pongs(network: &mut Network, now: u64) {
    let peers: Vec<(Pubkey, SocketAddress)> =
        network.nodes.iter().map(|node| (node.pubkey(), node.contact_info.gossip())).collect();
    for node in network.nodes.iter_mut() {
        let pubkey = node.pubkey();
        for (other, addr) in &peers {
            if pubkey != *other {
                node.ping_cache.mock_pong(*other, *addr, now);
            }
        }
    }
}

fn network_simulator(network: &mut Network, max_convergance: f64) {
    let num = network.len();
    // run for a small amount of time
    let (converged, bytes_tx) = network_run_pull(network, 0, 10, 1.0);
    println!("network_simulator_push_{num}: converged: {converged}");
    // make sure there is someone in the active set
    refresh_all(network, 1000);
    let mut total_bytes = bytes_tx;
    let mut ts = timestamp();
    for _ in 1..num {
        let start = ts.div_ceil(100) as usize;
        let end = start + 10;
        let now = (start * 100) as u64;
        ts += 1000;
        // push a message to the network
        for node in network.nodes.iter_mut() {
            let node_pubkey = node.pubkey();
            let mut m = node.gossip.crds.get_contact_info(&node_pubkey).unwrap();
            m.set_wallclock(now);
            node.gossip.process_push_message(
                &vec![(
                    Pubkey::new_from_array([0; 32]),
                    vec![signed(CrdsData::ContactInfo(m), &node.keypair)],
                )],
                now,
            );
        }
        // push for a bit
        let (queue_size, bytes_tx) = network_run_push(network, start, end);
        total_bytes += bytes_tx;
        println!("network_simulator_push_{num}: queue_size: {queue_size} bytes: {bytes_tx}");
        // pull for a bit
        let (converged, bytes_tx) = network_run_pull(network, start, end, 1.0);
        total_bytes += bytes_tx;
        println!(
            "network_simulator_push_{num}: converged: {converged} bytes: {bytes_tx} total_bytes: \
             {total_bytes}"
        );
        if converged > max_convergance {
            return;
        }
    }
    panic!("the network did not converge");
}

fn network_run_push(network: &mut Network, start: usize, end: usize) -> (usize, usize) {
    let mut bytes: usize = 0;
    let mut num_msgs: usize = 0;
    let mut total: usize = 0;
    let num = network.len();
    let mut prunes: usize = 0;
    let mut delivered: usize = 0;
    let mut stake_pruned: u64 = 0;
    let stakes = stakes(network);
    for t in start..end {
        let now = t as u64 * 100;
        let requests: Vec<(Pubkey, Vec<(Pubkey, Vec<CrdsValue>)>)> = network
            .nodes
            .iter_mut()
            .map(|node| {
                let node_pubkey = node.pubkey();
                let timeouts = node.gossip.make_timeouts(
                    node_pubkey,
                    &stakes,
                    node.gossip.pull.crds_timeout(),
                );
                node.gossip.purge(now, &timeouts);
                let (entries, messages, _) = node.gossip.new_push_messages(
                    now,
                    |_| true, // should_retain_crds_value
                );
                let messages = messages
                    .into_iter()
                    .filter(|(_, indices)| !indices.is_empty())
                    .map(|(pubkey, indices)| {
                        let values = indices.into_iter().map(|k| entries[k]).collect();
                        (pubkey, values)
                    })
                    .collect::<Vec<(_, Vec<_>)>>();
                (node_pubkey, messages)
            })
            .collect();
        for (from, push_messages) in requests {
            for (to, msgs) in push_messages {
                // 8 bytes for encoding the length of the vector.
                bytes += 8 + msgs.iter().map(CrdsValue::serialized_size).sum::<usize>();
                num_msgs += 1;
                let to_index = network.index[&to];
                let origins = network.nodes[to_index]
                    .gossip
                    .process_push_message(&vec![(from, msgs.clone())], now);
                let prunes_map = {
                    let node = &mut network.nodes[to_index];
                    let node_pubkey = node.pubkey();
                    node.gossip.prune_received_cache(&node_pubkey, &origins, &stakes)
                };
                for (from, prune_keys) in prunes_map {
                    bytes += 8 + 32 * prune_keys.len();
                    delivered += 1;
                    let from_index = network.index[&from];
                    let node = &mut network.nodes[from_index];
                    let node_pubkey = node.pubkey();
                    let destination = node_pubkey;
                    let now = timestamp();
                    node.gossip
                        .process_prune_msg(&node_pubkey, &to, &destination, &prune_keys, now, now)
                        .unwrap();
                    let from_stake = node.stake;
                    for prune_key in &prune_keys {
                        if network.connections_pruned.insert((from, *prune_key)) {
                            prunes += 1;
                            stake_pruned += from_stake;
                        }
                    }
                }
            }
        }
        if now % CRDS_GOSSIP_PUSH_MSG_TIMEOUT_MS == 0 && now > 0 {
            mock_pongs(network, now);
            refresh_all(network, now);
        }
        total = network
            .nodes
            .iter()
            .map(|node| node.gossip.push.num_pending(&node.gossip.crds))
            .sum();
        println!(
            "network_run_push_{num}: now: {now} queue: {total} bytes: {bytes} num_msgs: \
             {num_msgs} prunes: {prunes} stake_pruned: {stake_pruned} delivered: {delivered}"
        );
    }

    network.stake_pruned += stake_pruned;
    (total, bytes)
}

fn network_run_pull(
    network: &mut Network,
    start: usize,
    end: usize,
    max_convergance: f64,
) -> (f64, usize) {
    let mut bytes: usize = 0;
    let mut msgs: usize = 0;
    let mut overhead: usize = 0;
    let mut convergance = 0f64;
    let num = network.len();
    let stakes = stakes(network);
    mock_pongs(network, start as u64 * 100);
    for t in start..end {
        let now = t as u64 * 100;
        let mut requests = Vec::new();
        for k in 0..num {
            let seed = network.next_seed();
            let from = &mut network.nodes[k];
            let from_pubkey = from.pubkey();
            let (filters, _pings, self_info) = from.gossip.new_pull_request(
                &from_pubkey,
                now,
                &StakeMap::new(),
                992, // max_bloom_filter_bytes
                &mut from.ping_cache,
                seed,
            );
            let self_info = self_info.unwrap();
            for (peer, filter) in filters.unwrap_or_default() {
                requests.push((peer.pubkey(), filter, self_info));
            }
        }
        for (to, filter, caller_info) in requests {
            let from = caller_info.label().pubkey();
            bytes += filter.filter.num_keys() * 8;
            bytes += filter.filter.num_bits() / 8;
            bytes += caller_info.serialized_size();
            let requests = vec![PullRequest { pubkey: from, wallclock: now, filter }];
            let to_index = network.index[&to];
            let rsp: Vec<CrdsValue> = network.nodes[to_index]
                .gossip
                .generate_pull_responses(
                    &requests,
                    usize::MAX, // output_size_limit
                    now,
                    |_| true, // should_retain_crds_value
                )
                .into_iter()
                .flatten()
                .collect();
            // 8 bytes for encoding the length of the vector.
            bytes += 8 + rsp.iter().map(CrdsValue::serialized_size).sum::<usize>();
            msgs += rsp.len();
            let seed = network.next_seed();
            if let Some(&from_index) = network.index.get(&from) {
                let node = &mut network.nodes[from_index];
                let mut stats = ProcessPullStats::default();
                let timeouts = CrdsTimeouts::new(
                    node.pubkey(),
                    CRDS_GOSSIP_PULL_CRDS_TIMEOUT_MS, // default_timeout
                    48 * 3600 * 1000,                 // epoch_duration
                    &stakes,
                );
                let (vers, vers_expired_timeout, failed_inserts) =
                    node.gossip.filter_pull_responses(&timeouts, &rsp, now);
                node.gossip.process_pull_responses(
                    &mut node.ping_cache,
                    &vers,
                    &vers_expired_timeout,
                    &failed_inserts,
                    now,
                    &mut stats,
                    seed,
                );
                overhead += stats.failed_insert;
                overhead += stats.failed_timeout;
            }
        }
        let total: usize = network.nodes.iter().map(|v| v.gossip.crds.len()).sum();
        convergance = total as f64 / ((num * num) as f64);
        if convergance > max_convergance {
            break;
        }
        println!(
            "network_run_pull_{num}: now: {now} connections: {total} convergance: {convergance} \
             bytes: {bytes} msgs: {msgs} overhead: {overhead}"
        );
    }
    (convergance, bytes)
}

fn new_ping_cache() -> PingCache {
    PingCache::new(
        20 * 60 * 1000,      // ttl
        20 * 60 * 1000 / 64, // rate_limit_delay
        2048,                // capacity
    )
}

#[test]
fn test_star_network_pull_50() {
    let mut network = star_network_create(50);
    network_simulator_pull_only(&mut network);
}

#[test]
fn test_star_network_pull_100() {
    let mut network = star_network_create(100);
    network_simulator_pull_only(&mut network);
}

#[test]
fn test_star_network_push_star_200() {
    let mut network = star_network_create(200);
    network_simulator(&mut network, 0.9);
}

#[test]
fn test_star_network_push_ring_200() {
    let mut network = ring_network_create(200);
    network_simulator(&mut network, 0.9);
}

#[test]
fn test_prune_errors() {
    let mut crds_gossip = CrdsGossip::default();
    let keypair = keypair_of(0);
    let id = key_of(&keypair);
    let peer = keypair_of(1);
    let ci = ContactInfo::new_localhost(&key_of(&peer), 0);
    let prune_pubkey = Pubkey::new_from_array([2; 32]);
    crds_gossip
        .crds
        .insert(signed(CrdsData::from(&ci), &peer), 0, GossipRoute::LocalMessage)
        .unwrap();
    let mut ping_cache = new_ping_cache();
    crds_gossip.refresh_push_active_set(
        &id,
        &StakeMap::new(), // stakes
        &mut ping_cache,
        0,
        7,
    );
    let now = timestamp();
    //incorrect dest
    let mut res = crds_gossip.process_prune_msg(
        &id,                                                // self_pubkey
        &ci.pubkey(),                                       // peer
        &Pubkey::new_from_array(hash(&[1; 32]).to_bytes()), // destination
        &vec![prune_pubkey],                                // origins
        now,
        now,
    );
    assert_eq!(res.err(), Some(CrdsGossipError::BadPruneDestination));
    //correct dest
    res = crds_gossip.process_prune_msg(
        &id,                 // self_pubkey
        &ci.pubkey(),        // peer
        &id,                 // destination
        &vec![prune_pubkey], // origins
        now,
        now,
    );
    res.unwrap();
    //test timeout
    let timeout = now + crds_gossip.push.prune_timeout() * 2;
    res = crds_gossip.process_prune_msg(
        &id,                 // self_pubkey
        &ci.pubkey(),        // peer
        &id,                 // destination
        &vec![prune_pubkey], // origins
        now,
        timeout,
    );
    assert_eq!(res.err(), Some(CrdsGossipError::PruneMessageTimeout));
}
