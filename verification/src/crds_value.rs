//! Signed records.

use crate::crds_data::{lemma_le_bytes_len, CrdsData, CrdsValueLabel};
use crate::digest::{ed25519_verifies, ed25519_verify, sha256, sha256_digest};
use crate::identity;
use crate::identity::{Pubkey, Signature};
use vstd::prelude::*;

verus! {

/// A signed record. It is made once, by `new`, which computes its content
/// hash and checks the signature against the author's key; nothing changes
/// it afterwards.
#[derive(Clone, Copy, Debug)]
pub struct CrdsValue {
    data: CrdsData,
    signature: Signature,
    hash: identity::Hash,
    verified: bool,
}

/// The bytes of a record as peers exchange it: the signature, then the
/// signed bytes. The content hash is taken over these.
pub open spec fn wire_bytes(data: CrdsData, signature: Signature) -> Seq<u8> {
    signature.bytes@ + data.spec_signable_bytes()
}

impl CrdsValue {
    pub closed spec fn spec_data(self) -> CrdsData {
        self.data
    }

    pub closed spec fn spec_signature(self) -> Signature {
        self.signature
    }

    pub closed spec fn spec_hash(self) -> identity::Hash {
        self.hash
    }

    /// Whether the signature was found to verify under the author's key
    /// when the record was made.
    pub closed spec fn spec_verified(self) -> bool {
        self.verified
    }

    pub open spec fn spec_label(self) -> CrdsValueLabel {
        self.spec_data().spec_label()
    }

    pub open spec fn spec_pubkey(self) -> Pubkey {
        self.spec_data().spec_pubkey()
    }

    pub open spec fn spec_wallclock(self) -> u64 {
        self.spec_data().spec_wallclock()
    }

    pub open spec fn spec_serialized_size(self) -> nat {
        wire_bytes(self.spec_data(), self.spec_signature()).len()
    }

    /// Whether the hash and the verdict are those of the payload and the
    /// signature. Every record is consistent.
    #[verifier::type_invariant]
    pub open spec fn consistent(self) -> bool {
        &&& self.spec_hash().bytes@ == sha256(wire_bytes(self.spec_data(), self.spec_signature()))
        &&& self.spec_verified() == ed25519_verifies(
            self.spec_pubkey().bytes@,
            self.spec_data().spec_signable_bytes(),
            self.spec_signature().bytes@,
        )
    }

    /// Makes a record of a payload and the signature that came with it.
    pub fn new(data: CrdsData, signature: Signature) -> (value: CrdsValue)
        ensures
            value.spec_data() == data,
            value.spec_signature() == signature,
            value.consistent(),
    {
        let signable = data.signable_bytes();
        let key = data.pubkey();
        let verified = ed25519_verify(&key.bytes, signable.as_slice(), &signature.bytes);
        let mut wire: Vec<u8> = Vec::new();
        let mut i: usize = 0;
        while i < 64
            invariant
                i <= 64,
                wire@ == signature.bytes@.take(i as int),
            decreases 64 - i,
        {
            wire.push(signature.bytes[i]);
            assert(signature.bytes@.take(i + 1) =~= signature.bytes@.take(i as int).push(
                signature.bytes@[i as int],
            ));
            i += 1;
        }
        assert(signature.bytes@.take(64) =~= signature.bytes@);
        let mut j: usize = 0;
        while j < signable.len()
            invariant
                j <= signable@.len(),
                wire@ == signature.bytes@ + signable@.take(j as int),
            decreases signable@.len() - j,
        {
            wire.push(signable[j]);
            assert(signable@.take(j + 1) =~= signable@.take(j as int).push(signable@[j as int]));
            assert(signature.bytes@ + signable@.take(j + 1) =~= (signature.bytes@ + signable@.take(
                j as int,
            )).push(signable@[j as int]));
            j += 1;
        }
        assert(signable@.take(signable@.len() as int) =~= signable@);
        let hash = identity::Hash { bytes: sha256_digest(wire.as_slice()) };
        CrdsValue { data, signature, hash, verified }
    }

    pub fn data(&self) -> (data: CrdsData)
        ensures
            data == self.spec_data(),
    {
        self.data
    }

    pub fn signature(&self) -> (signature: Signature)
        ensures
            signature == self.spec_signature(),
    {
        self.signature
    }

    /// The content hash, by which peers tell what they already hold.
    pub fn hash(&self) -> (hash: identity::Hash)
        ensures
            hash == self.spec_hash(),
            hash.bytes@ == sha256(wire_bytes(self.spec_data(), self.spec_signature())),
    {
        proof {
            use_type_invariant(self);
        }
        self.hash
    }

    /// Whether the signature verifies under the author's key.
    pub fn verify(&self) -> (ok: bool)
        ensures
            ok == self.spec_verified(),
            ok == ed25519_verifies(
                self.spec_pubkey().bytes@,
                self.spec_data().spec_signable_bytes(),
                self.spec_signature().bytes@,
            ),
    {
        proof {
            use_type_invariant(self);
        }
        self.verified
    }

    pub fn label(&self) -> (label: CrdsValueLabel)
        ensures
            label == self.spec_label(),
    {
        self.data.label()
    }

    pub fn pubkey(&self) -> (key: Pubkey)
        ensures
            key == self.spec_pubkey(),
    {
        self.data.pubkey()
    }

    pub fn wallclock(&self) -> (wallclock: u64)
        ensures
            wallclock == self.spec_wallclock(),
    {
        self.data.wallclock()
    }

    /// The number of bytes the record takes in a message.
    pub fn serialized_size(&self) -> (size: usize)
        ensures
            size == self.spec_serialized_size(),
            size <= 146,
    {
        proof {
            let data = self.data;
            lemma_le_bytes_len(data.spec_wallclock() as nat, 8);
            match data {
                CrdsData::ContactInfo(info) => {
                    lemma_le_bytes_len(info.gossip.ip as nat, 4);
                    lemma_le_bytes_len(info.gossip.port as nat, 2);
                    lemma_le_bytes_len(info.shred_version as nat, 2);
                },
                CrdsData::Vote(_, vote) => {
                    lemma_le_bytes_len(vote.slot as nat, 8);
                },
                CrdsData::LowestSlot(lowest) => {
                    lemma_le_bytes_len(lowest.lowest as nat, 8);
                },
                CrdsData::EpochSlots(_, slots) => {
                    lemma_le_bytes_len(slots.first_slot as nat, 8);
                    lemma_le_bytes_len(slots.num_slots as nat, 8);
                },
            }
        }
        match self.data {
            CrdsData::ContactInfo(_) => 114,
            CrdsData::Vote(_, _) => 146,
            CrdsData::LowestSlot(_) => 114,
            CrdsData::EpochSlots(_, _) => 122,
        }
    }
}

} // verus!
