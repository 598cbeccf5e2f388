use cluster_gossip::crds::{Crds, CrdsError, GossipRoute};
use cluster_gossip::crds_data::{ContactInfo, CrdsData, CrdsValueLabel, LowestSlot};
use cluster_gossip::crds_value::CrdsValue;
use cluster_gossip::identity::{Pubkey, Signature};
use cluster_gossip::stakes::StakeMap;
use cluster_gossip::timeouts::CrdsTimeouts;
use solana_keypair::Keypair;
use solana_signer::Signer;

fn key_of(keypair: &Keypair) -> Pubkey {
    Pubkey::new_from_array(keypair.pubkey().to_bytes())
}

fn signed(data: CrdsData, keypair: &Keypair) -> CrdsValue {
    let signature = keypair.sign_message(&data.signable_bytes());
    CrdsValue::new(data, Signature::new_from_array(signature.into()))
}

fn contact_info(keypair: &Keypair, wallclock: u64) -> CrdsValue {
    let info = ContactInfo::new_localhost(&key_of(keypair), wallclock);
    signed(CrdsData::from(&info), keypair)
}

#[test]
fn insert_takes_a_signed_record() {
    let keypair = Keypair::new();
    let value = contact_info(&keypair, 7);
    assert!(value.verify());
    let mut crds = Crds::new();
    assert_eq!(crds.insert(value, 100, GossipRoute::LocalMessage), Ok(()));
    assert_eq!(crds.len(), 1);
    let entry = crds.get(&value.label()).unwrap();
    assert_eq!(entry.local_timestamp, 100);
    assert_eq!(entry.ordinal, 0);
    assert_eq!(crds.next_ordinal(), 1);
    assert_eq!(crds.stats().local_inserts, 1);
}

#[test]
fn insert_rejects_a_forged_signature() {
    let keypair = Keypair::new();
    let other = Keypair::new();
    let info = ContactInfo::new_localhost(&key_of(&keypair), 7);
    let value = signed(CrdsData::from(&info), &other);
    assert!(!value.verify());
    let mut crds = Crds::new();
    assert_eq!(
        crds.insert(value, 100, GossipRoute::PullResponse),
        Err(CrdsError::InvalidSignature)
    );
    assert_eq!(crds.len(), 0);
    assert_eq!(crds.next_ordinal(), 0);
}

#[test]
fn later_wallclock_wins_in_either_order() {
    let keypair = Keypair::new();
    let older = contact_info(&keypair, 10);
    let newer = contact_info(&keypair, 11);
    let label = CrdsValueLabel::ContactInfo(key_of(&keypair));

    let mut crds = Crds::new();
    assert_eq!(crds.insert(older, 1, GossipRoute::LocalMessage), Ok(()));
    assert_eq!(crds.insert(newer, 2, GossipRoute::LocalMessage), Ok(()));
    assert_eq!(crds.len(), 1);
    assert!(crds.get(&label).unwrap().value.hash().same(&newer.hash()));
    assert_eq!(crds.get(&label).unwrap().ordinal, 1);

    let mut crds = Crds::new();
    assert_eq!(crds.insert(newer, 1, GossipRoute::LocalMessage), Ok(()));
    assert_eq!(
        crds.insert(older, 2, GossipRoute::LocalMessage),
        Err(CrdsError::InsertFailed)
    );
    assert_eq!(crds.len(), 1);
    assert!(crds.get(&label).unwrap().value.hash().same(&newer.hash()));
    assert_eq!(crds.get(&label).unwrap().ordinal, 0);
}

#[test]
fn second_insert_is_a_duplicate() {
    let keypair = Keypair::new();
    let value = contact_info(&keypair, 10);
    let mut crds = Crds::new();
    assert_eq!(crds.insert(value, 1, GossipRoute::LocalMessage), Ok(()));
    assert_eq!(
        crds.insert(value, 5, GossipRoute::PushMessage(key_of(&keypair))),
        Err(CrdsError::Duplicate)
    );
    assert_eq!(crds.next_ordinal(), 1);
    assert_eq!(crds.get(&value.label()).unwrap().local_timestamp, 1);
    assert_eq!(crds.stats().push_inserts, 0);
}

#[test]
fn equal_wallclock_is_decided_by_hash() {
    let keypair = Keypair::new();
    let key = key_of(&keypair);
    let a = signed(
        CrdsData::LowestSlot(LowestSlot { from: key, wallclock: 5, lowest: 1 }),
        &keypair,
    );
    let b = signed(
        CrdsData::LowestSlot(LowestSlot { from: key, wallclock: 5, lowest: 2 }),
        &keypair,
    );
    let (low, high) = if a.hash().less(&b.hash()) { (a, b) } else { (b, a) };
    let mut crds = Crds::new();
    assert_eq!(crds.insert(low, 1, GossipRoute::LocalMessage), Ok(()));
    assert_eq!(crds.insert(high, 1, GossipRoute::LocalMessage), Ok(()));
    assert_eq!(
        crds.insert(low, 1, GossipRoute::LocalMessage),
        Err(CrdsError::InsertFailed)
    );
    assert!(crds.get(&low.label()).unwrap().value.hash().same(&high.hash()));
}

#[test]
fn records_since_come_in_order_of_taking() {
    let a = Keypair::new();
    let b = Keypair::new();
    let mut crds = Crds::new();
    crds.insert(contact_info(&a, 1), 0, GossipRoute::LocalMessage).unwrap();
    crds.insert(contact_info(&b, 1), 0, GossipRoute::LocalMessage).unwrap();
    crds.insert(contact_info(&a, 2), 0, GossipRoute::LocalMessage).unwrap();
    let all = crds.get_records_since(0);
    assert_eq!(all.len(), 2);
    assert_eq!(all[0].ordinal, 1);
    assert!(all[0].value.pubkey().same(&key_of(&b)));
    assert_eq!(all[1].ordinal, 2);
    assert!(all[1].value.pubkey().same(&key_of(&a)));
    assert_eq!(crds.get_records_since(2).len(), 1);
    assert_eq!(crds.get_records_since(3).len(), 0);
}

#[test]
fn purge_removes_expired_records_of_stale_nodes() {
    let me = Keypair::new();
    let peer = Keypair::new();
    let mut stakes = StakeMap::new();
    stakes.insert(key_of(&me), 1);
    let mut crds = Crds::new();
    crds.insert(contact_info(&me, 1), 0, GossipRoute::LocalMessage).unwrap();
    crds.insert(contact_info(&peer, 1), 0, GossipRoute::PullResponse).unwrap();
    let lowest = signed(
        CrdsData::LowestSlot(LowestSlot { from: key_of(&peer), wallclock: 1, lowest: 3 }),
        &peer,
    );
    crds.insert(lowest, 0, GossipRoute::PullResponse).unwrap();
    // The contact info of the peer is refreshed at time 50.
    crds.insert(contact_info(&peer, 2), 50, GossipRoute::PullResponse).unwrap();
    let timeouts = CrdsTimeouts::new(key_of(&me), 100, 0, &stakes);

    // At 101 the lowest slot has expired, but its author has not.
    assert!(crds.purge(101, &timeouts).is_empty());
    assert_eq!(crds.len(), 3);

    // At 151 both have expired; the node's own record stays.
    let purged = crds.purge(151, &timeouts);
    assert_eq!(purged.len(), 2);
    assert!(purged[0].same(&lowest.label()));
    assert!(purged[1].same(&CrdsValueLabel::ContactInfo(key_of(&peer))));
    assert_eq!(crds.len(), 1);
    assert_eq!(crds.num_purged(), 2);
    assert!(crds.purged_hash(0).same(&lowest.hash()));
    // A second purge at the same time finds nothing left to remove.
    assert!(crds.purge(151, &timeouts).is_empty());
    assert_eq!(crds.num_purged(), 2);

    // A record written anew may come back.
    assert_eq!(crds.insert(contact_info(&peer, 3), 151, GossipRoute::PullResponse), Ok(()));
    crds.trim_purged(152);
    assert_eq!(crds.num_purged(), 0);
}

#[test]
fn records_by_owner_and_by_hash() {
    let a = Keypair::new();
    let b = Keypair::new();
    let mut crds = Crds::new();
    let info_a = contact_info(&a, 1);
    let slot_a = signed(
        CrdsData::LowestSlot(LowestSlot { from: key_of(&a), wallclock: 1, lowest: 3 }),
        &a,
    );
    crds.insert(info_a, 0, GossipRoute::LocalMessage).unwrap();
    crds.insert(contact_info(&b, 1), 0, GossipRoute::PullResponse).unwrap();
    crds.insert(slot_a, 0, GossipRoute::LocalMessage).unwrap();
    let of_a = crds.get_records_of(&key_of(&a));
    assert_eq!(of_a.len(), 2);
    assert!(of_a[0].value.hash().same(&info_a.hash()));
    assert!(of_a[1].value.hash().same(&slot_a.hash()));
    assert!(crds.get_records_of(&Pubkey::new_from_array([0; 32])).is_empty());
    assert!(crds.contains_hash(&slot_a.hash()));
    assert!(!crds.contains_hash(&contact_info(&a, 2).hash()));
}

#[test]
fn keys_hashes_and_labels_compare_by_their_bytes() {
    let a = Pubkey::new_from_array([1; 32]);
    let mut bytes = [1; 32];
    assert_eq!(a, Pubkey::new_from_array(bytes));
    bytes[31] = 2;
    assert_ne!(a, Pubkey::new_from_array(bytes));
    assert_eq!(CrdsValueLabel::Vote(1, a), CrdsValueLabel::Vote(1, a));
    assert_ne!(CrdsValueLabel::Vote(1, a), CrdsValueLabel::Vote(2, a));
    assert_ne!(CrdsValueLabel::Vote(1, a), CrdsValueLabel::EpochSlots(1, a));
    assert_ne!(CrdsValueLabel::ContactInfo(a), CrdsValueLabel::LowestSlot(a));
    let keypair = Keypair::new();
    let value = contact_info(&keypair, 1);
    assert_eq!(value.hash(), contact_info(&keypair, 1).hash());
    assert_ne!(value.hash(), contact_info(&keypair, 2).hash());
    assert_eq!(value.label(), CrdsValueLabel::ContactInfo(key_of(&keypair)));
}
