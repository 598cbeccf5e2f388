//! Keys, hashes, signatures and addresses, and the order of byte strings.

use vstd::prelude::*;
use vstd::std_specs::cmp::PartialEqSpecImpl;

verus! {

/// Identity of a cluster node: the 32 bytes of its public key.
#[derive(Clone, Copy, Debug, Eq, Hash)]
pub struct Pubkey {
    pub bytes: [u8; 32],
}

/// Content hash of a record: 32 bytes.
#[derive(Clone, Copy, Debug, Eq, Hash)]
pub struct Hash {
    pub bytes: [u8; 32],
}

/// A detached 64-byte signature.
#[derive(Clone, Copy, Debug)]
pub struct Signature {
    pub bytes: [u8; 64],
}

/// Network address at which a node receives gossip.
#[derive(Clone, Copy, Debug, PartialEq, Eq, Structural)]
pub struct SocketAddress {
    pub ip: u32,
    pub port: u16,
}

/// Lexicographic order on byte strings of equal length: `a` comes before `b`
/// when they differ and `a` holds the smaller byte at the first difference.
pub open spec fn bytes_less(a: Seq<u8>, b: Seq<u8>) -> bool {
    exists|k: int|
        0 <= k < a.len() && k < b.len() && a[k] < b[k] && (forall|j: int|
            0 <= j < k ==> a[j] == b[j])
}

/// The order of `bytes_less` never holds in both directions.
pub proof fn lemma_bytes_less_asymmetric(a: Seq<u8>, b: Seq<u8>)
    ensures
        !(bytes_less(a, b) && bytes_less(b, a)),
        !bytes_less(a, a),
{
    if bytes_less(a, b) && bytes_less(b, a) {
        let k1 = choose|k: int|
            0 <= k < a.len() && k < b.len() && a[k] < b[k] && (forall|j: int|
                0 <= j < k ==> a[j] == b[j]);
        let k2 = choose|k: int|
            0 <= k < b.len() && k < a.len() && b[k] < a[k] && (forall|j: int|
                0 <= j < k ==> b[j] == a[j]);
        if k1 < k2 {
            assert(b[k1] == a[k1]);
        } else if k2 < k1 {
            assert(a[k2] == b[k2]);
        }
    }
}

/// The order of `bytes_less` is transitive.
pub proof fn lemma_bytes_less_transitive(a: Seq<u8>, b: Seq<u8>, c: Seq<u8>)
    requires
        bytes_less(a, b),
        bytes_less(b, c),
    ensures
        bytes_less(a, c),
{
    let k1 = choose|k: int|
        0 <= k < a.len() && k < b.len() && a[k] < b[k] && (forall|j: int|
            0 <= j < k ==> a[j] == b[j]);
    let k2 = choose|k: int|
        0 <= k < b.len() && k < c.len() && b[k] < c[k] && (forall|j: int|
            0 <= j < k ==> b[j] == c[j]);
    let k = if k1 <= k2 {
        k1
    } else {
        k2
    };
    assert(0 <= k < a.len() && k < c.len() && a[k] < c[k] && (forall|j: int|
        0 <= j < k ==> a[j] == c[j]));
}

fn bytes32_equal(a: &[u8; 32], b: &[u8; 32]) -> (same: bool)
    ensures
        same == (*a == *b),
{
    let mut i: usize = 0;
    while i < 32
        invariant
            i <= 32,
            forall|j: int| 0 <= j < i ==> a@[j] == b@[j],
        decreases 32 - i,
    {
        if a[i] != b[i] {
            return false;
        }
        i += 1;
    }
    assert(*a =~= *b);
    true
}

fn bytes32_less(a: &[u8; 32], b: &[u8; 32]) -> (less: bool)
    ensures
        less == bytes_less(a@, b@),
{
    let mut i: usize = 0;
    while i < 32
        invariant
            i <= 32,
            forall|j: int| 0 <= j < i ==> a@[j] == b@[j],
        decreases 32 - i,
    {
        if a[i] < b[i] {
            return true;
        }
        if a[i] > b[i] {
            assert(!bytes_less(a@, b@)) by {
                if bytes_less(a@, b@) {
                    let k = choose|k: int|
                        0 <= k < a@.len() && k < b@.len() && a@[k] < b@[k] && (forall|j: int|
                            0 <= j < k ==> a@[j] == b@[j]);
                    if k > i {
                        assert(a@[i as int] == b@[i as int]);
                    }
                }
            }
            return false;
        }
        i += 1;
    }
    assert(a@ =~= b@);
    proof {
        lemma_bytes_less_asymmetric(a@, b@);
    }
    false
}

impl PartialEq for Pubkey {
    fn eq(&self, other: &Pubkey) -> (b: bool) {
        bytes32_equal(&self.bytes, &other.bytes)
    }
}

impl PartialEqSpecImpl for Pubkey {
    open spec fn obeys_eq_spec() -> bool {
        true
    }

    open spec fn eq_spec(&self, other: &Pubkey) -> bool {
        self.bytes == other.bytes
    }
}

impl Pubkey {
    pub fn new_from_array(bytes: [u8; 32]) -> (key: Pubkey)
        ensures
            key.bytes == bytes,
    {
        Pubkey { bytes }
    }

    pub fn to_bytes(&self) -> (bytes: [u8; 32])
        ensures
            bytes == self.bytes,
    {
        self.bytes
    }

    /// Whether two keys hold the same bytes.
    pub fn same(&self, other: &Pubkey) -> (b: bool)
        ensures
            b == (*self == *other),
    {
        bytes32_equal(&self.bytes, &other.bytes)
    }

    /// The order in which keys are ranked: that of their bytes.
    pub open spec fn spec_less(self, other: Pubkey) -> bool {
        bytes_less(self.bytes@, other.bytes@)
    }

    pub fn less(&self, other: &Pubkey) -> (b: bool)
        ensures
            b == self.spec_less(*other),
    {
        bytes32_less(&self.bytes, &other.bytes)
    }
}

impl PartialEq for Hash {
    fn eq(&self, other: &Hash) -> (b: bool) {
        bytes32_equal(&self.bytes, &other.bytes)
    }
}

impl PartialEqSpecImpl for Hash {
    open spec fn obeys_eq_spec() -> bool {
        true
    }

    open spec fn eq_spec(&self, other: &Hash) -> bool {
        self.bytes == other.bytes
    }
}

impl Hash {
    pub fn new_from_array(bytes: [u8; 32]) -> (hash: Hash)
        ensures
            hash.bytes == bytes,
    {
        Hash { bytes }
    }

    pub fn to_bytes(&self) -> (bytes: [u8; 32])
        ensures
            bytes == self.bytes,
    {
        self.bytes
    }

    pub fn same(&self, other: &Hash) -> (b: bool)
        ensures
            b == (*self == *other),
    {
        bytes32_equal(&self.bytes, &other.bytes)
    }

    /// The order by which records of equal wallclock are ranked.
    pub open spec fn spec_less(self, other: Hash) -> bool {
        bytes_less(self.bytes@, other.bytes@)
    }

    pub fn less(&self, other: &Hash) -> (b: bool)
        ensures
            b == self.spec_less(*other),
    {
        bytes32_less(&self.bytes, &other.bytes)
    }

    /// The first eight bytes read as a big-endian number.
    pub open spec fn spec_prefix(self) -> nat {
        prefix_value(self.bytes@, 8)
    }

    pub fn prefix(&self) -> (p: u64)
        ensures
            p == self.spec_prefix(),
    {
        let mut acc: u64 = 0;
        let mut i: usize = 0;
        while i < 8
            invariant
                i <= 8,
                acc == prefix_value(self.bytes@, i as nat),
                acc < pow256(i as nat),
            decreases 8 - i,
        {
            proof {
                lemma_pow256_values();
            }
            acc = acc * 256 + self.bytes[i] as u64;
            i += 1;
        }
        acc
    }
}

impl Signature {
    pub fn new_from_array(bytes: [u8; 64]) -> (signature: Signature)
        ensures
            signature.bytes == bytes,
    {
        Signature { bytes }
    }
}

impl SocketAddress {
    pub fn new(ip: u32, port: u16) -> (addr: SocketAddress)
        ensures
            addr.ip == ip,
            addr.port == port,
    {
        SocketAddress { ip, port }
    }
}

/// The first `n` bytes of `bytes` read as a big-endian number.
pub open spec fn prefix_value(bytes: Seq<u8>, n: nat) -> nat
    decreases n,
{
    if n == 0 {
        0
    } else {
        prefix_value(bytes, (n - 1) as nat) * 256 + bytes[n - 1] as nat
    }
}

pub open spec fn pow256(n: nat) -> nat
    decreases n,
{
    if n == 0 {
        1
    } else {
        256 * pow256((n - 1) as nat)
    }
}

proof fn lemma_pow256_values()
    ensures
        pow256(0) == 1,
        pow256(1) == 0x100,
        pow256(2) == 0x1_0000,
        pow256(3) == 0x100_0000,
        pow256(4) == 0x1_0000_0000,
        pow256(5) == 0x100_0000_0000,
        pow256(6) == 0x1_0000_0000_0000,
        pow256(7) == 0x100_0000_0000_0000,
        pow256(8) == 0x1_0000_0000_0000_0000,
{
    reveal_with_fuel(pow256, 10);
}

} // verus!
