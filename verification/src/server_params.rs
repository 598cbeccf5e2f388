//! The limits and timings that a stream server runs with.

use vstd::prelude::*;

verus! {

/// Several connections per peer allow for address translation and for
/// connections that open while others close.
pub const DEFAULT_MAX_QUIC_CONNECTIONS_PER_PEER: usize = 8;

pub const DEFAULT_MAX_STAKED_CONNECTIONS: usize = 2000;

pub const DEFAULT_MAX_UNSTAKED_CONNECTIONS: usize = 500;

/// Five hundred streams a millisecond are half a million packets a second.
pub const DEFAULT_MAX_STREAMS_PER_MS: u64 = 500;

/// The new connections per minute from a particular IP address.
pub const DEFAULT_MAX_CONNECTIONS_PER_IPADDR_PER_MINUTE: u64 = 8;

pub const DEFAULT_QUIC_ENDPOINTS: usize = 1;

/// How long batches of packets are gathered before they are handed on, in
/// milliseconds.
pub const DEFAULT_TPU_COALESCE_MS: u64 = 5;

/// How long the server waits for the next chunk of a stream, in
/// milliseconds.
pub const DEFAULT_WAIT_FOR_CHUNK_TIMEOUT_MS: u64 = 2000;

/// The size of the channel on which batches of packets are gathered.
pub const DEFAULT_MAX_COALESCE_CHANNEL_SIZE: usize = 250_000;

pub const DEFAULT_NUM_SERVER_THREADS_FOR_TEST: usize = 8;

/// Calls `num_cpus::get`, the number of logical processors that the
/// process may use. Trusted: it is at least one, as the crate documents.
#[verifier::external_body]
fn available_cpus() -> (n: usize)
    ensures
        n >= 1,
{
    num_cpus::get()
}

/// The number of threads to run on `cpus` processors where at most `cap`
/// are wanted.
pub fn capped_threads(cpus: usize, cap: usize) -> (n: usize)
    ensures
        n == if cpus < cap {
            cpus
        } else {
            cap
        },
{
    if cpus < cap {
        cpus
    } else {
        cap
    }
}

pub fn default_num_tpu_transaction_forward_receive_threads() -> (n: usize)
    ensures
        1 <= n <= 16,
{
    capped_threads(available_cpus(), 16)
}

pub fn default_num_tpu_transaction_receive_threads() -> (n: usize)
    ensures
        1 <= n <= 8,
{
    capped_threads(available_cpus(), 8)
}

pub fn default_num_tpu_vote_transaction_receive_threads() -> (n: usize)
    ensures
        1 <= n <= 8,
{
    capped_threads(available_cpus(), 8)
}

/// Limits and timings of a server. Durations are in milliseconds, and
/// `num_threads` is at least one.
#[derive(Clone, Copy, Debug, PartialEq, Eq, Structural)]
pub struct QuicServerParams {
    pub max_connections_per_peer: usize,
    pub max_staked_connections: usize,
    pub max_unstaked_connections: usize,
    pub max_streams_per_ms: u64,
    pub max_connections_per_ipaddr_per_min: u64,
    pub wait_for_chunk_timeout: u64,
    pub coalesce: u64,
    pub coalesce_channel_size: usize,
    pub num_threads: usize,
}

impl QuicServerParams {
    /// The parameters a server runs with unless told otherwise.
    pub open spec fn spec_default() -> QuicServerParams {
        QuicServerParams {
            max_connections_per_peer: 1,
            max_staked_connections: DEFAULT_MAX_STAKED_CONNECTIONS,
            max_unstaked_connections: DEFAULT_MAX_UNSTAKED_CONNECTIONS,
            max_streams_per_ms: DEFAULT_MAX_STREAMS_PER_MS,
            max_connections_per_ipaddr_per_min: DEFAULT_MAX_CONNECTIONS_PER_IPADDR_PER_MINUTE,
            wait_for_chunk_timeout: DEFAULT_WAIT_FOR_CHUNK_TIMEOUT_MS,
            coalesce: DEFAULT_TPU_COALESCE_MS,
            coalesce_channel_size: DEFAULT_MAX_COALESCE_CHANNEL_SIZE,
            num_threads: 1,
        }
    }

    /// The defaults, with a smaller channel and a fixed number of threads.
    pub fn default_for_tests() -> (params: QuicServerParams)
        ensures
            params == (QuicServerParams {
                coalesce_channel_size: 100_000,
                num_threads: DEFAULT_NUM_SERVER_THREADS_FOR_TEST,
                ..Self::spec_default()
            }),
    {
        // Shrink the channel size to avoid a massive allocation for tests
        QuicServerParams {
            coalesce_channel_size: 100_000,
            num_threads: DEFAULT_NUM_SERVER_THREADS_FOR_TEST,
            ..Self::default()
        }
    }
}

impl Default for QuicServerParams {
    fn default() -> (params: QuicServerParams)
        ensures
            params == Self::spec_default(),
    {
        QuicServerParams {
            max_connections_per_peer: 1,
            max_staked_connections: DEFAULT_MAX_STAKED_CONNECTIONS,
            max_unstaked_connections: DEFAULT_MAX_UNSTAKED_CONNECTIONS,
            max_streams_per_ms: DEFAULT_MAX_STREAMS_PER_MS,
            max_connections_per_ipaddr_per_min: DEFAULT_MAX_CONNECTIONS_PER_IPADDR_PER_MINUTE,
            wait_for_chunk_timeout: DEFAULT_WAIT_FOR_CHUNK_TIMEOUT_MS,
            coalesce: DEFAULT_TPU_COALESCE_MS,
            coalesce_channel_size: DEFAULT_MAX_COALESCE_CHANNEL_SIZE,
            num_threads: capped_threads(available_cpus(), 1),
        }
    }
}

} // verus!
