//! Gossip among the nodes of a cluster: a table of signed records that the
//! nodes replicate without a coordinator, the push and the pull by which
//! records spread, and the challenges by which a node makes sure of its
//! peers. Beside it stand the reports that a ledger tool prints of slots and
//! entries, and the limits that a stream server runs with.
//!
//! Every function states what it returns and changes, and is proved to do so.
//! What is taken on trust is named in `digest`, `text` and `server_params`:
//! the hash of a byte string, the verdict on a signature, one character
//! appended to a string, and the number of processors.

pub mod bloom;
pub mod crds;
pub mod crds_data;
pub mod crds_value;
pub mod digest;
pub mod error;
pub mod gossip;
pub mod identity;
pub mod peers;
pub mod ping_pong;
pub mod pull;
pub mod push;
pub mod sampling;
pub mod server_params;
pub mod slot_report;
pub mod stakes;
pub mod text;
pub mod timeouts;
