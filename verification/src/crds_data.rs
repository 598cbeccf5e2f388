//! The payloads of records, their labels, and the bytes that are signed.

use crate::identity;
use crate::identity::{Pubkey, SocketAddress};
use vstd::prelude::*;
use vstd::std_specs::cmp::PartialEqSpecImpl;

verus! {

/// The kinds of record that the cluster replicates.
#[derive(Clone, Copy, Debug, PartialEq, Eq, Structural)]
pub enum CrdsKind {
    ContactInfo,
    Vote,
    LowestSlot,
    EpochSlots,
}

/// How to reach a node.
#[derive(Clone, Copy, Debug)]
pub struct ContactInfo {
    pub pubkey: Pubkey,
    pub wallclock: u64,
    pub gossip: SocketAddress,
    pub shred_version: u16,
}

/// A vote of a node for a slot.
#[derive(Clone, Copy, Debug)]
pub struct Vote {
    pub from: Pubkey,
    pub wallclock: u64,
    pub slot: u64,
    pub hash: identity::Hash,
}

/// The lowest slot a node still holds.
#[derive(Clone, Copy, Debug)]
pub struct LowestSlot {
    pub from: Pubkey,
    pub wallclock: u64,
    pub lowest: u64,
}

/// A run of slots that a node has completed.
#[derive(Clone, Copy, Debug)]
pub struct EpochSlots {
    pub from: Pubkey,
    pub wallclock: u64,
    pub first_slot: u64,
    pub num_slots: u64,
}

/// The payload of a record: one of the record kinds. `Vote` and `EpochSlots`
/// carry an index, so that a node may hold several of each.
#[derive(Clone, Copy, Debug)]
pub enum CrdsData {
    ContactInfo(ContactInfo),
    Vote(u8, Vote),
    LowestSlot(LowestSlot),
    EpochSlots(u8, EpochSlots),
}

/// The place a record occupies in the table: its kind, its index where the
/// kind has one, and the node that wrote it.
#[derive(Clone, Copy, Debug, Eq, Hash)]
pub enum CrdsValueLabel {
    ContactInfo(Pubkey),
    Vote(u8, Pubkey),
    LowestSlot(Pubkey),
    EpochSlots(u8, Pubkey),
}

pub const LOCALHOST: u32 = 0x7f00_0001;

pub const DEFAULT_GOSSIP_PORT: u16 = 8000;

impl CrdsKind {
    /// The byte that stands for the kind in a record's signed bytes.
    pub open spec fn spec_tag(self) -> u8 {
        match self {
            CrdsKind::ContactInfo => 0,
            CrdsKind::Vote => 1,
            CrdsKind::LowestSlot => 2,
            CrdsKind::EpochSlots => 3,
        }
    }

    pub fn tag(&self) -> (t: u8)
        ensures
            t == self.spec_tag(),
    {
        match self {
            CrdsKind::ContactInfo => 0,
            CrdsKind::Vote => 1,
            CrdsKind::LowestSlot => 2,
            CrdsKind::EpochSlots => 3,
        }
    }
}

impl ContactInfo {
    /// A contact info for `pubkey` that listens on the local host.
    pub fn new_localhost(pubkey: &Pubkey, now: u64) -> (info: ContactInfo)
        ensures
            info == (ContactInfo {
                pubkey: *pubkey,
                wallclock: now,
                gossip: SocketAddress { ip: LOCALHOST, port: DEFAULT_GOSSIP_PORT },
                shred_version: 0,
            }),
    {
        ContactInfo {
            pubkey: *pubkey,
            wallclock: now,
            gossip: SocketAddress { ip: LOCALHOST, port: DEFAULT_GOSSIP_PORT },
            shred_version: 0,
        }
    }

    pub fn pubkey(&self) -> (key: Pubkey)
        ensures
            key == self.pubkey,
    {
        self.pubkey
    }

    pub fn gossip(&self) -> (addr: SocketAddress)
        ensures
            addr == self.gossip,
    {
        self.gossip
    }

    pub fn set_gossip(&mut self, addr: SocketAddress)
        ensures
            *final(self) == (ContactInfo { gossip: addr, ..*old(self) }),
    {
        self.gossip = addr;
    }

    pub fn set_wallclock(&mut self, now: u64)
        ensures
            *final(self) == (ContactInfo { wallclock: now, ..*old(self) }),
    {
        self.wallclock = now;
    }
}

impl PartialEq for CrdsValueLabel {
    fn eq(&self, other: &CrdsValueLabel) -> (b: bool) {
        self.same(other)
    }
}

impl PartialEqSpecImpl for CrdsValueLabel {
    open spec fn obeys_eq_spec() -> bool {
        true
    }

    open spec fn eq_spec(&self, other: &CrdsValueLabel) -> bool {
        *self == *other
    }
}

impl CrdsValueLabel {
    pub open spec fn spec_pubkey(self) -> Pubkey {
        match self {
            CrdsValueLabel::ContactInfo(key) => key,
            CrdsValueLabel::Vote(_, key) => key,
            CrdsValueLabel::LowestSlot(key) => key,
            CrdsValueLabel::EpochSlots(_, key) => key,
        }
    }

    pub open spec fn spec_kind(self) -> CrdsKind {
        match self {
            CrdsValueLabel::ContactInfo(_) => CrdsKind::ContactInfo,
            CrdsValueLabel::Vote(_, _) => CrdsKind::Vote,
            CrdsValueLabel::LowestSlot(_) => CrdsKind::LowestSlot,
            CrdsValueLabel::EpochSlots(_, _) => CrdsKind::EpochSlots,
        }
    }

    /// The node that wrote the records under this label.
    pub fn pubkey(&self) -> (key: Pubkey)
        ensures
            key == self.spec_pubkey(),
    {
        match self {
            CrdsValueLabel::ContactInfo(key) => *key,
            CrdsValueLabel::Vote(_, key) => *key,
            CrdsValueLabel::LowestSlot(key) => *key,
            CrdsValueLabel::EpochSlots(_, key) => *key,
        }
    }

    pub fn kind(&self) -> (kind: CrdsKind)
        ensures
            kind == self.spec_kind(),
    {
        match self {
            CrdsValueLabel::ContactInfo(_) => CrdsKind::ContactInfo,
            CrdsValueLabel::Vote(_, _) => CrdsKind::Vote,
            CrdsValueLabel::LowestSlot(_) => CrdsKind::LowestSlot,
            CrdsValueLabel::EpochSlots(_, _) => CrdsKind::EpochSlots,
        }
    }

    /// Whether two labels name the same place in the table.
    pub fn same(&self, other: &CrdsValueLabel) -> (b: bool)
        ensures
            b == (*self == *other),
    {
        match (self, other) {
            (CrdsValueLabel::ContactInfo(a), CrdsValueLabel::ContactInfo(b)) => a.same(b),
            (CrdsValueLabel::Vote(i, a), CrdsValueLabel::Vote(j, b)) => *i == *j && a.same(b),
            (CrdsValueLabel::LowestSlot(a), CrdsValueLabel::LowestSlot(b)) => a.same(b),
            (CrdsValueLabel::EpochSlots(i, a), CrdsValueLabel::EpochSlots(j, b)) => *i == *j
                && a.same(b),
            _ => false,
        }
    }
}

/// The eight bytes of `x`, lowest first, of which the first `n` are taken.
pub open spec fn le_bytes(x: nat, n: nat) -> Seq<u8>
    decreases n,
{
    if n == 0 {
        Seq::empty()
    } else {
        seq![(x % 256) as u8] + le_bytes(x / 256, (n - 1) as nat)
    }
}

pub proof fn lemma_le_bytes_len(x: nat, n: nat)
    ensures
        le_bytes(x, n).len() == n,
    decreases n,
{
    if n > 0 {
        lemma_le_bytes_len(x / 256, (n - 1) as nat);
    }
}

pub(crate) fn append_le(buf: &mut Vec<u8>, x: u64, n: usize)
    requires
        n <= 8,
    ensures
        final(buf)@ == old(buf)@ + le_bytes(x as nat, n as nat),
{
    let mut rest: u64 = x;
    let mut i: usize = 0;
    while i < n
        invariant
            i <= n <= 8,
            buf@ + le_bytes(rest as nat, (n - i) as nat) == old(buf)@ + le_bytes(x as nat, n as nat),
        decreases n - i,
    {
        let ghost before = buf@;
        buf.push((rest % 256) as u8);
        proof {
            let tail = le_bytes((rest / 256) as nat, (n - i - 1) as nat);
            assert(before + (seq![(rest % 256) as u8] + tail) =~= before.push((rest % 256) as u8)
                + tail);
        }
        rest = rest / 256;
        i += 1;
    }
    assert(le_bytes(rest as nat, 0) =~= Seq::<u8>::empty());
    assert(buf@ + Seq::<u8>::empty() =~= buf@);
}

fn append_bytes32(buf: &mut Vec<u8>, bytes: &[u8; 32])
    ensures
        final(buf)@ == old(buf)@ + bytes@,
{
    let mut i: usize = 0;
    while i < 32
        invariant
            i <= 32,
            buf@ == old(buf)@ + bytes@.take(i as int),
        decreases 32 - i,
    {
        buf.push(bytes[i]);
        assert(bytes@.take(i + 1) =~= bytes@.take(i as int).push(bytes@[i as int]));
        i += 1;
    }
    assert(bytes@.take(32) =~= bytes@);
}

impl CrdsData {
    pub open spec fn spec_pubkey(self) -> Pubkey {
        match self {
            CrdsData::ContactInfo(info) => info.pubkey,
            CrdsData::Vote(_, vote) => vote.from,
            CrdsData::LowestSlot(lowest) => lowest.from,
            CrdsData::EpochSlots(_, slots) => slots.from,
        }
    }

    pub open spec fn spec_wallclock(self) -> u64 {
        match self {
            CrdsData::ContactInfo(info) => info.wallclock,
            CrdsData::Vote(_, vote) => vote.wallclock,
            CrdsData::LowestSlot(lowest) => lowest.wallclock,
            CrdsData::EpochSlots(_, slots) => slots.wallclock,
        }
    }

    pub open spec fn spec_label(self) -> CrdsValueLabel {
        match self {
            CrdsData::ContactInfo(info) => CrdsValueLabel::ContactInfo(info.pubkey),
            CrdsData::Vote(index, vote) => CrdsValueLabel::Vote(index, vote.from),
            CrdsData::LowestSlot(lowest) => CrdsValueLabel::LowestSlot(lowest.from),
            CrdsData::EpochSlots(index, slots) => CrdsValueLabel::EpochSlots(index, slots.from),
        }
    }

    /// The index under which a node files the record; zero where the kind
    /// has none.
    pub open spec fn spec_index(self) -> u8 {
        match self {
            CrdsData::ContactInfo(_) => 0,
            CrdsData::Vote(index, _) => index,
            CrdsData::LowestSlot(_) => 0,
            CrdsData::EpochSlots(index, _) => index,
        }
    }

    /// What follows the common header in the signed bytes.
    pub open spec fn spec_payload(self) -> Seq<u8> {
        match self {
            CrdsData::ContactInfo(info) => le_bytes(info.gossip.ip as nat, 4) + le_bytes(
                info.gossip.port as nat,
                2,
            ) + le_bytes(info.shred_version as nat, 2),
            CrdsData::Vote(_, vote) => le_bytes(vote.slot as nat, 8) + vote.hash.bytes@,
            CrdsData::LowestSlot(lowest) => le_bytes(lowest.lowest as nat, 8),
            CrdsData::EpochSlots(_, slots) => le_bytes(slots.first_slot as nat, 8) + le_bytes(
                slots.num_slots as nat,
                8,
            ),
        }
    }

    /// The bytes that the author signs: the kind's tag, the index, the
    /// author's key, the wallclock, then the payload, numbers lowest byte
    /// first.
    pub open spec fn spec_signable_bytes(self) -> Seq<u8> {
        seq![self.spec_label().spec_kind().spec_tag(), self.spec_index()]
            + self.spec_pubkey().bytes@ + le_bytes(self.spec_wallclock() as nat, 8)
            + self.spec_payload()
    }

    /// The node that wrote the record.
    pub fn pubkey(&self) -> (key: Pubkey)
        ensures
            key == self.spec_pubkey(),
    {
        match self {
            CrdsData::ContactInfo(info) => info.pubkey,
            CrdsData::Vote(_, vote) => vote.from,
            CrdsData::LowestSlot(lowest) => lowest.from,
            CrdsData::EpochSlots(_, slots) => slots.from,
        }
    }

    /// The time the author gave the record.
    pub fn wallclock(&self) -> (wallclock: u64)
        ensures
            wallclock == self.spec_wallclock(),
    {
        match self {
            CrdsData::ContactInfo(info) => info.wallclock,
            CrdsData::Vote(_, vote) => vote.wallclock,
            CrdsData::LowestSlot(lowest) => lowest.wallclock,
            CrdsData::EpochSlots(_, slots) => slots.wallclock,
        }
    }

    pub fn label(&self) -> (label: CrdsValueLabel)
        ensures
            label == self.spec_label(),
    {
        match self {
            CrdsData::ContactInfo(info) => CrdsValueLabel::ContactInfo(info.pubkey),
            CrdsData::Vote(index, vote) => CrdsValueLabel::Vote(*index, vote.from),
            CrdsData::LowestSlot(lowest) => CrdsValueLabel::LowestSlot(lowest.from),
            CrdsData::EpochSlots(index, slots) => CrdsValueLabel::EpochSlots(*index, slots.from),
        }
    }

    pub fn signable_bytes(&self) -> (bytes: Vec<u8>)
        ensures
            bytes@ == self.spec_signable_bytes(),
    {
        let mut buf: Vec<u8> = Vec::new();
        let label = self.label();
        buf.push(label.kind().tag());
        let index: u8 = match self {
            CrdsData::ContactInfo(_) => 0,
            CrdsData::Vote(index, _) => *index,
            CrdsData::LowestSlot(_) => 0,
            CrdsData::EpochSlots(index, _) => *index,
        };
        buf.push(index);
        assert(buf@ =~= seq![self.spec_label().spec_kind().spec_tag(), self.spec_index()]);
        let key = self.pubkey();
        append_bytes32(&mut buf, &key.bytes);
        append_le(&mut buf, self.wallclock(), 8);
        let ghost header = buf@;
        match self {
            CrdsData::ContactInfo(info) => {
                append_le(&mut buf, info.gossip.ip as u64, 4);
                append_le(&mut buf, info.gossip.port as u64, 2);
                append_le(&mut buf, info.shred_version as u64, 2);
                assert(buf@ =~= header + self.spec_payload());
            },
            CrdsData::Vote(_, vote) => {
                append_le(&mut buf, vote.slot, 8);
                append_bytes32(&mut buf, &vote.hash.bytes);
                assert(buf@ =~= header + self.spec_payload());
            },
            CrdsData::LowestSlot(lowest) => {
                append_le(&mut buf, lowest.lowest, 8);
            },
            CrdsData::EpochSlots(_, slots) => {
                append_le(&mut buf, slots.first_slot, 8);
                append_le(&mut buf, slots.num_slots, 8);
                assert(buf@ =~= header + self.spec_payload());
            },
        }
        buf
    }
}

impl From<&ContactInfo> for CrdsData {
    fn from(info: &ContactInfo) -> (data: CrdsData) {
        CrdsData::ContactInfo(*info)
    }
}

impl vstd::std_specs::convert::FromSpecImpl<&ContactInfo> for CrdsData {
    open spec fn obeys_from_spec() -> bool {
        true
    }

    open spec fn from_spec(info: &ContactInfo) -> CrdsData {
        CrdsData::ContactInfo(*info)
    }
}

} // verus!
