//! The rendezvous protocol on top of the registry: store, discover, request a
//! punch, wait passively and keep alive.

use vstd::prelude::*;
use vstd::string::*;

use crate::address::{is_placeholder_spec, may_overwrite_spec, parse_peer_addr, parse_spec, PeerAddr};
use crate::peer_data::PublicKey;
use crate::relay_map::{
    admits, bound, is_expired, marked, now_ms, swept, touched, waits_for, RegistryView, RelayError,
    RelayMap, MAX_RELAY_COUNT, TIME_TO_LIVE,
};

verus! {

/// Whether a punch request found its target waiting for the sender.
#[derive(Clone, Copy, Debug, PartialEq, Eq, Structural)]
pub enum PunchStatus {
    /// Both peers wait for each other: the sender should start now.
    Punch,
    /// The sender is recorded as waiting; the target has not asked yet.
    NotPunch,
}

/// What `store` answers for `key` reporting the address whose UTF-8 text is
/// `text`.
pub open spec fn store_result(m: RegistryView, key: Seq<char>, text: Seq<u8>) -> Result<PeerAddr, RelayError> {
    match parse_spec(text) {
        None => Err(RelayError::MalformedAddress),
        Some(addr) => if admits(m, key) {
            Ok(addr)
        } else {
            Err(RelayError::CapacityExceeded)
        },
    }
}

/// The registry after `store` of `key` with the address text `text` at `now`.
pub open spec fn stored(m: RegistryView, key: Seq<char>, text: Seq<u8>, now: u128) -> RegistryView {
    match store_result(m, key, text) {
        Ok(addr) => bound(m, key, addr, now),
        Err(_) => m,
    }
}

/// What `discover` answers for `target`.
pub open spec fn discover_result(m: RegistryView, target: Seq<char>) -> Option<PeerAddr> {
    if m.contains_key(target) {
        Some(m[target].peer_addr)
    } else {
        None
    }
}

/// The registry after `sender` asks to punch with `target`.
pub open spec fn punched(m: RegistryView, sender: Seq<char>, target: Seq<char>) -> RegistryView {
    if m.contains_key(sender) {
        m.insert(sender, marked(m[sender], target))
    } else {
        m
    }
}

/// What a punch request answers: read after the sender's own mark is in place.
pub open spec fn punch_result(m: RegistryView, sender: Seq<char>, target: Seq<char>) -> Result<PunchStatus, RelayError> {
    if !m.contains_key(sender) {
        Err(RelayError::NotRegistered)
    } else {
        let after = punched(m, sender, target);
        if after.contains_key(target) && waits_for(after[target], sender) {
            Ok(PunchStatus::Punch)
        } else {
            Ok(PunchStatus::NotPunch)
        }
    }
}

/// The registry after a keep-alive of `sender` at `now`.
pub open spec fn kept_alive(m: RegistryView, sender: Seq<char>, now: u128) -> RegistryView {
    if m.contains_key(sender) {
        m.insert(sender, touched(m[sender], now))
    } else {
        m
    }
}

/// Registers `sender_id` at the address written in `p2p_addr`, at time `now`.
/// Answers the parsed address, or why the registration was refused.
pub fn store_at(map: &mut RelayMap, sender_id: PublicKey, p2p_addr: &str, now: u128) -> (r: Result<PeerAddr, RelayError>)
    requires
        old(map).wf(),
    ensures
        final(map).wf(),
        r == store_result(old(map)@, sender_id@, p2p_addr.spec_bytes()),
        final(map)@ == stored(old(map)@, sender_id@, p2p_addr.spec_bytes(), now),
{
    match parse_peer_addr(p2p_addr) {
        None => Err(RelayError::MalformedAddress),
        Some(addr) => match map.bind_peer_at(sender_id, addr, now) {
            Ok(()) => Ok(addr),
            Err(e) => Err(e),
        },
    }
}

/// Registers `sender_id` at the address written in `p2p_addr`, stamped with
/// the wall-clock time.
pub fn store(map: &mut RelayMap, sender_id: PublicKey, p2p_addr: &str) -> (r: Result<PeerAddr, RelayError>)
    requires
        old(map).wf(),
    ensures
        final(map).wf(),
        r == store_result(old(map)@, sender_id@, p2p_addr.spec_bytes()),
        exists|now: u128| final(map)@ == stored(old(map)@, sender_id@, p2p_addr.spec_bytes(), now),
{
    let now = now_ms();
    store_at(map, sender_id, p2p_addr, now)
}

/// The address registered for `target_id`, if any.
pub fn discover(map: &RelayMap, target_id: &PublicKey) -> (r: Option<PeerAddr>)
    requires
        map.wf(),
    ensures
        r == discover_result(map@, target_id@),
{
    match map.get(target_id) {
        Some(p) => Some(p.peer_addr),
        None => None,
    }
}

/// Records that `sender_id` waits to punch with `target_id`, then reports
/// whether `target_id` already waits for `sender_id`. The marks stay after a
/// match: asking again keeps answering `Punch` until one of the two entries is
/// replaced or swept.
pub fn waiting_punch(map: &mut RelayMap, sender_id: &PublicKey, target_id: &PublicKey) -> (r: Result<PunchStatus, RelayError>)
    requires
        old(map).wf(),
    ensures
        final(map).wf(),
        r == punch_result(old(map)@, sender_id@, target_id@),
        final(map)@ == punched(old(map)@, sender_id@, target_id@),
{
    match map.mark_waiting(sender_id, target_id) {
        Err(e) => Err(e),
        Ok(()) => {
            let ready = match map.get(target_id) {
                Some(t) => t.waiting_punch && match &t.waiting_for {
                    Some(w) => *w == *sender_id,
                    None => false,
                },
                None => false,
            };
            if ready {
                Ok(PunchStatus::Punch)
            } else {
                Ok(PunchStatus::NotPunch)
            }
        },
    }
}

/// Refreshes the entry of `sender_id` at time `now`; answers whether it is
/// registered.
pub fn keep_alive_at(map: &mut RelayMap, sender_id: &PublicKey, now: u128) -> (r: bool)
    requires
        old(map).wf(),
    ensures
        final(map).wf(),
        r == old(map)@.contains_key(sender_id@),
        final(map)@ == kept_alive(old(map)@, sender_id@, now),
{
    map.reset_peer_time_at(sender_id, now)
}

/// Refreshes the entry of `sender_id` by the wall clock; answers whether it
/// is registered.
pub fn keep_alive(map: &mut RelayMap, sender_id: &PublicKey) -> (r: bool)
    requires
        old(map).wf(),
    ensures
        final(map).wf(),
        r == old(map)@.contains_key(sender_id@),
        exists|now: u128| final(map)@ == kept_alive(old(map)@, sender_id@, now),
{
    let now = now_ms();
    keep_alive_at(map, sender_id, now)
}

/// Some peer that waits to punch with `sender_id`, if there is one. Which
/// one, where several wait, is not promised.
pub fn passive_wait(map: &RelayMap, sender_id: &PublicKey) -> (r: Option<PublicKey>)
    requires
        map.wf(),
    ensures
        r is Some <==> exists|k: Seq<char>| #[trigger] map@.contains_key(k) && waits_for(map@[k], sender_id@),
        r matches Some(k) ==> map@.contains_key(k@) && waits_for(map@[k@], sender_id@),
{
    match map.find_waiting_for(sender_id) {
        Some(p) => Some(p.public_key.clone()),
        None => None,
    }
}

/// Storing a valid address for `key` in a registry with room, then
/// discovering `key`, answers that address. Excluded: a placeholder stored
/// over a real address, which keeps the real one.
pub proof fn lemma_store_then_discover(m: RegistryView, key: Seq<char>, text: Seq<u8>, now: u128)
    requires
        m.dom().finite(),
        m.len() < MAX_RELAY_COUNT,
        parse_spec(text) is Some,
        m.contains_key(key) ==> may_overwrite_spec(m[key].peer_addr, parse_spec(text).unwrap()),
    ensures
        store_result(m, key, text) == Ok::<PeerAddr, RelayError>(parse_spec(text).unwrap()),
        discover_result(stored(m, key, text, now), key) == Some(parse_spec(text).unwrap()),
{
}

/// A full registry refuses a new key with `CapacityExceeded` and stays as it
/// is, while a key already present is stored again without growing it.
pub proof fn lemma_capacity(reg: &RelayMap, key: Seq<char>, text: Seq<u8>, now: u128)
    requires
        reg.wf(),
        reg@.len() == MAX_RELAY_COUNT,
        parse_spec(text) is Some,
    ensures
        !reg@.contains_key(key) ==> store_result(reg@, key, text) == Err::<PeerAddr, RelayError>(
            RelayError::CapacityExceeded,
        ) && stored(reg@, key, text, now) == reg@,
        reg@.contains_key(key) ==> store_result(reg@, key, text) is Ok && stored(reg@, key, text, now).len()
            == reg@.len(),
{
    reg.lemma_wf();
    if reg@.contains_key(key) {
        assert(stored(reg@, key, text, now).dom() =~= reg@.dom());
    }
}

/// An entry that has expired at the time of a sweep is gone from `discover`
/// after it.
pub proof fn lemma_sweep_drops_expired(m: RegistryView, key: Seq<char>, now: u128)
    requires
        m.contains_key(key),
        is_expired(m[key].discovery_time, now),
    ensures
        discover_result(swept(m, now), key) is None,
{
}

/// An entry kept alive at `t`, no more than `TIME_TO_LIVE` before a sweep at
/// `now`, survives the sweep with its address.
pub proof fn lemma_keep_alive_survives_sweep(m: RegistryView, key: Seq<char>, t: u128, now: u128)
    requires
        m.contains_key(key),
        t <= now,
        now - t <= TIME_TO_LIVE,
    ensures
        discover_result(swept(kept_alive(m, key, t), now), key) == Some(m[key].peer_addr),
{
}

/// Storing the placeholder for a key that has a real address keeps that
/// address and refreshes the entry's timestamp, so that the entry survives a
/// sweep one time to live later.
pub proof fn lemma_placeholder_keeps_address(m: RegistryView, key: Seq<char>, text: Seq<u8>, now: u128)
    requires
        m.contains_key(key),
        !is_placeholder_spec(m[key].peer_addr),
        parse_spec(text) matches Some(a) && is_placeholder_spec(a),
    ensures
        store_result(m, key, text) is Ok,
        stored(m, key, text, now)[key].peer_addr == m[key].peer_addr,
        stored(m, key, text, now)[key].discovery_time == now,
        now + TIME_TO_LIVE <= u128::MAX ==> discover_result(
            swept(stored(m, key, text, now), (now + TIME_TO_LIVE) as u128),
            key,
        ) == Some(m[key].peer_addr),
{
}

/// When registered peers `a` and `b` each ask to punch with the other, the
/// second request answers `Punch`, whichever of the two comes first.
pub proof fn lemma_punch_symmetry(m: RegistryView, a: Seq<char>, b: Seq<char>)
    requires
        m.contains_key(a),
        m.contains_key(b),
    ensures
        punch_result(m, a, b) is Ok,
        punch_result(punched(m, a, b), b, a) == Ok::<PunchStatus, RelayError>(PunchStatus::Punch),
{
}

/// A registered peer asking to punch with another peer that does not wait for
/// it gets `NotPunch`. Excluded: a peer naming itself, which matches at once.
pub proof fn lemma_one_sided_punch(m: RegistryView, a: Seq<char>, b: Seq<char>)
    requires
        m.contains_key(a),
        a != b,
        !(m.contains_key(b) && waits_for(m[b], a)),
    ensures
        punch_result(m, a, b) == Ok::<PunchStatus, RelayError>(PunchStatus::NotPunch),
{
}

} // verus!
