//! How long records rest in the table.

use crate::crds_data::{CrdsKind, CrdsValueLabel};
use crate::identity::Pubkey;
use crate::stakes::StakeMap;
use vstd::prelude::*;

verus! {

/// How long records may rest in the table before they are purged, per kind
/// of record, in milliseconds. Records of the node itself never age, and
/// records of a staked node are kept for at least the extended timeout.
pub struct CrdsTimeouts<'a> {
    pub pubkey: Pubkey,
    pub stakes: &'a StakeMap,
    pub contact_info: u64,
    pub vote: u64,
    pub lowest_slot: u64,
    pub epoch_slots: u64,
    pub extended_timeout: u64,
}

impl<'a> CrdsTimeouts<'a> {
    /// The age that the table allows a record of this kind from a node
    /// without stake.
    pub open spec fn spec_kind_timeout(&self, kind: CrdsKind) -> u64 {
        match kind {
            CrdsKind::ContactInfo => self.contact_info,
            CrdsKind::Vote => self.vote,
            CrdsKind::LowestSlot => self.lowest_slot,
            CrdsKind::EpochSlots => self.epoch_slots,
        }
    }

    /// The age that the table allows the record under `label`.
    pub open spec fn spec_timeout(&self, label: CrdsValueLabel) -> u64 {
        let base = self.spec_kind_timeout(label.spec_kind());
        if label.spec_pubkey() == self.pubkey {
            u64::MAX
        } else if self.stakes.spec_get(label.spec_pubkey()) > 0 && base < self.extended_timeout {
            self.extended_timeout
        } else {
            base
        }
    }

    /// Timeouts for the node `pubkey`: every kind gets `default_timeout`,
    /// staked nodes at least `epoch_duration`. While no node has stake, every
    /// kind gets the longer of the two.
    pub fn new(
        pubkey: Pubkey,
        default_timeout: u64,
        epoch_duration: u64,
        stakes: &'a StakeMap,
    ) -> (timeouts: CrdsTimeouts<'a>)
        ensures
            timeouts.pubkey == pubkey,
            timeouts.stakes == stakes,
            timeouts.extended_timeout == if default_timeout < epoch_duration {
                epoch_duration
            } else {
                default_timeout
            },
            forall|kind: CrdsKind| #[trigger]
                timeouts.spec_kind_timeout(kind) == if stakes.spec_all_zero() {
                    timeouts.extended_timeout
                } else {
                    default_timeout
                },
    {
        let extended_timeout = if default_timeout < epoch_duration {
            epoch_duration
        } else {
            default_timeout
        };
        let base = if stakes.all_zero() {
            extended_timeout
        } else {
            default_timeout
        };
        CrdsTimeouts {
            pubkey,
            stakes,
            contact_info: base,
            vote: base,
            lowest_slot: base,
            epoch_slots: base,
            extended_timeout,
        }
    }

    /// The same timeouts, but for `kind`, which gets `timeout`.
    pub fn with_kind_timeout(self, kind: CrdsKind, timeout: u64) -> (timeouts: CrdsTimeouts<'a>)
        ensures
            timeouts.pubkey == self.pubkey,
            timeouts.stakes == self.stakes,
            timeouts.extended_timeout == self.extended_timeout,
            forall|other: CrdsKind| #[trigger]
                timeouts.spec_kind_timeout(other) == if other == kind {
                    timeout
                } else {
                    self.spec_kind_timeout(other)
                },
    {
        let mut timeouts = self;
        match kind {
            CrdsKind::ContactInfo => {
                timeouts.contact_info = timeout;
            },
            CrdsKind::Vote => {
                timeouts.vote = timeout;
            },
            CrdsKind::LowestSlot => {
                timeouts.lowest_slot = timeout;
            },
            CrdsKind::EpochSlots => {
                timeouts.epoch_slots = timeout;
            },
        }
        timeouts
    }

    /// The age that the table allows the record under `label`.
    pub fn timeout(&self, label: &CrdsValueLabel) -> (timeout: u64)
        ensures
            timeout == self.spec_timeout(*label),
    {
        let owner = label.pubkey();
        let base = match label.kind() {
            CrdsKind::ContactInfo => self.contact_info,
            CrdsKind::Vote => self.vote,
            CrdsKind::LowestSlot => self.lowest_slot,
            CrdsKind::EpochSlots => self.epoch_slots,
        };
        if owner.same(&self.pubkey) {
            u64::MAX
        } else if base < self.extended_timeout && self.stakes.get(&owner) > 0 {
            self.extended_timeout
        } else {
            base
        }
    }
}

} // verus!
