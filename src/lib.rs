//! Rendezvous registry for NAT traversal: peers register their observed
//! public address, look each other up and coordinate a mutual hole punch.
//!
//! The registry holds at most `MAX_RELAY_COUNT` entries, one per public key;
//! entries idle for longer than `TIME_TO_LIVE` are removed by a sweep. A store
//! of the placeholder address `127.0.0.9:9` never replaces a real address, but
//! still counts as a sign of life. Storing a key that is already registered is
//! always accepted, also when the registry is full, and does not grow it.

pub mod address;
pub mod peer_data;
pub mod relay_map;
pub mod rendezvous;

pub use address::{may_overwrite, parse_peer_addr, PeerAddr};
pub use peer_data::{PeerData, PublicKey};
pub use relay_map::{now_ms, RelayError, RelayMap, MAX_RELAY_COUNT, TIME_TO_LIVE};
pub use rendezvous::{
    discover, keep_alive, keep_alive_at, passive_wait, store, store_at, waiting_punch, PunchStatus,
};
