//! One registry entry: a peer's identity, last reported address, last sign of
//! life and hole-punch intent.

use vstd::prelude::*;

use crate::address::PeerAddr;

verus! {

/// A peer's identity: its public key in text form.
pub type PublicKey = String;

/// What a registry entry holds, as mathematical values.
pub ghost struct PeerView {
    pub public_key: Seq<char>,
    pub peer_addr: PeerAddr,
    pub discovery_time: u128,
    pub waiting_punch: bool,
    pub waiting_for: Option<Seq<char>>,
}

/// The entry created for `key` at `addr` at time `now`: not waiting for anyone.
pub open spec fn fresh_view(key: Seq<char>, addr: PeerAddr, now: u128) -> PeerView {
    PeerView {
        public_key: key,
        peer_addr: addr,
        discovery_time: now,
        waiting_punch: false,
        waiting_for: None,
    }
}

pub open spec fn key_view(k: Option<PublicKey>) -> Option<Seq<char>> {
    match k {
        Some(s) => Some(s@),
        None => None,
    }
}

/// A registered peer: its key, the address it last reported, when it last
/// showed a sign of life (milliseconds since the Unix epoch), and the peer it
/// waits to punch with, if any.
#[derive(Debug)]
pub struct PeerData {
    pub public_key: PublicKey,
    pub peer_addr: PeerAddr,
    pub discovery_time: u128,
    pub waiting_punch: bool,
    pub waiting_for: Option<PublicKey>,
}

impl View for PeerData {
    type V = PeerView;

    open spec fn view(&self) -> PeerView {
        PeerView {
            public_key: self.public_key@,
            peer_addr: self.peer_addr,
            discovery_time: self.discovery_time,
            waiting_punch: self.waiting_punch,
            waiting_for: key_view(self.waiting_for),
        }
    }
}

impl PeerData {
    /// A copy of this entry.
    pub fn snapshot(&self) -> (r: PeerData)
        ensures
            r@ == self@,
    {
        let waiting_for = match &self.waiting_for {
            Some(k) => Some(k.clone()),
            None => None,
        };
        PeerData {
            public_key: self.public_key.clone(),
            peer_addr: self.peer_addr,
            discovery_time: self.discovery_time,
            waiting_punch: self.waiting_punch,
            waiting_for,
        }
    }

    /// A new entry stamped with the time `now`.
    pub fn new_at(public_key: PublicKey, peer_addr: PeerAddr, now: u128) -> (r: PeerData)
        ensures
            r@ == fresh_view(public_key@, peer_addr, now),
    {
        PeerData { public_key, peer_addr, discovery_time: now, waiting_punch: false, waiting_for: None }
    }

    /// A new entry stamped with the current wall-clock time.
    pub fn new(public_key: PublicKey, peer_addr: PeerAddr) -> (r: PeerData)
        ensures
            r@ == fresh_view(public_key@, peer_addr, r.discovery_time),
    {
        let now = crate::relay_map::now_ms();
        PeerData::new_at(public_key, peer_addr, now)
    }
}

} // verus!
