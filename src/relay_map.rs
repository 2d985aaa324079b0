//! The peer registry: at most `MAX_RELAY_COUNT` entries, one per public key,
//! seen from outside as a map from key to entry.

use vstd::prelude::*;

use crate::address::{may_overwrite, may_overwrite_spec, PeerAddr};
use crate::peer_data::{fresh_view, PeerData, PeerView, PublicKey};

verus! {

/// How long an entry lives without a sign of life, in milliseconds.
pub const TIME_TO_LIVE: u128 = 600_000;

/// The most entries the registry holds.
pub const MAX_RELAY_COUNT: usize = 3_000;

/// The registry's contents: each registered key with its entry.
pub type RegistryView = Map<Seq<char>, PeerView>;

/// Why a registry or rendezvous operation was refused.
#[derive(Clone, Copy, Debug, PartialEq, Eq, Structural)]
pub enum RelayError {
    /// The address text is not an IPv4 socket address.
    MalformedAddress,
    /// The registry already holds `MAX_RELAY_COUNT` entries.
    CapacityExceeded,
    /// No entry exists for the key.
    NotRegistered,
}

/// An entry last seen at `discovery_time` has outlived its time to live at `now`.
pub open spec fn is_expired(discovery_time: u128, now: u128) -> bool {
    now - discovery_time > TIME_TO_LIVE
}

/// `rec` with its last sign of life moved to `now`.
pub open spec fn touched(rec: PeerView, now: u128) -> PeerView {
    PeerView {
        public_key: rec.public_key,
        peer_addr: rec.peer_addr,
        discovery_time: now,
        waiting_punch: rec.waiting_punch,
        waiting_for: rec.waiting_for,
    }
}

/// The entry after its peer reports `addr` again at `now`: a fresh entry, or
/// only a new timestamp where the address may not be replaced.
pub open spec fn rebound(existing: PeerView, addr: PeerAddr, now: u128) -> PeerView {
    if may_overwrite_spec(existing.peer_addr, addr) {
        fresh_view(existing.public_key, addr, now)
    } else {
        touched(existing, now)
    }
}

/// A registration of `key` is accepted: the key is known, or there is room.
pub open spec fn admits(m: RegistryView, key: Seq<char>) -> bool {
    m.contains_key(key) || m.len() < MAX_RELAY_COUNT
}

/// The contents after `key` registers `addr` at `now`.
pub open spec fn bound(m: RegistryView, key: Seq<char>, addr: PeerAddr, now: u128) -> RegistryView {
    if m.contains_key(key) {
        m.insert(key, rebound(m[key], addr, now))
    } else {
        m.insert(key, fresh_view(key, addr, now))
    }
}

/// The contents after a sweep at `now`: the entries that have not expired.
pub open spec fn swept(m: RegistryView, now: u128) -> RegistryView {
    Map::new(|k: Seq<char>| m.contains_key(k) && !is_expired(m[k].discovery_time, now), |k: Seq<char>| m[k])
}

/// `rec` marked as waiting to punch with `target`.
pub open spec fn marked(rec: PeerView, target: Seq<char>) -> PeerView {
    PeerView {
        public_key: rec.public_key,
        peer_addr: rec.peer_addr,
        discovery_time: rec.discovery_time,
        waiting_punch: true,
        waiting_for: Some(target),
    }
}

/// `rec` is waiting to punch with `target`.
pub open spec fn waits_for(rec: PeerView, target: Seq<char>) -> bool {
    rec.waiting_punch && rec.waiting_for == Some(target)
}

/// The keys of a sequence of entries, in order.
spec fn keys_of(s: Seq<PeerData>) -> Seq<Seq<char>> {
    s.map_values(|p: PeerData| p.public_key@)
}

/// The contents held by a sequence of entries with unique keys.
spec fn view_of(s: Seq<PeerData>) -> RegistryView {
    Map::new(|k: Seq<char>| keys_of(s).contains(k), |k: Seq<char>| s[keys_of(s).index_of(k)]@)
}

proof fn lemma_view_of_index(s: Seq<PeerData>, i: int)
    requires
        keys_of(s).no_duplicates(),
        0 <= i < s.len(),
    ensures
        view_of(s).contains_key(s[i].public_key@),
        view_of(s)[s[i].public_key@] == s[i]@,
{
    let k = s[i].public_key@;
    assert(keys_of(s)[i] == k);
    assert(keys_of(s).contains(k));
}

proof fn lemma_view_of_key(s: Seq<PeerData>, k: Seq<char>) -> (i: int)
    requires
        view_of(s).contains_key(k),
    ensures
        0 <= i < s.len(),
        s[i].public_key@ == k,
        view_of(s)[k] == s[i]@,
{
    let i = keys_of(s).index_of(k);
    assert(keys_of(s)[i] == k);
    i
}

proof fn lemma_view_of_len(s: Seq<PeerData>)
    requires
        keys_of(s).no_duplicates(),
    ensures
        view_of(s).dom().finite(),
        view_of(s).len() == s.len(),
{
    broadcast use vstd::seq_lib::seq_to_set_is_finite;

    assert(view_of(s).dom() =~= keys_of(s).to_set());
    keys_of(s).unique_seq_to_set();
}

/// Replacing an entry by one under the same key replaces that key's entry.
proof fn lemma_view_of_update(s: Seq<PeerData>, i: int, d: PeerData)
    requires
        keys_of(s).no_duplicates(),
        0 <= i < s.len(),
        d.public_key@ == s[i].public_key@,
    ensures
        keys_of(s.update(i, d)) == keys_of(s),
        view_of(s.update(i, d)) == view_of(s).insert(d.public_key@, d@),
{
    let t = s.update(i, d);
    assert(keys_of(t) =~= keys_of(s));
    lemma_view_of_index(t, i);
    assert forall|k: Seq<char>| #[trigger] view_of(t).contains_key(k) && k != d.public_key@
        implies view_of(t)[k] == view_of(s)[k] by {
        let j = lemma_view_of_key(t, k);
        lemma_view_of_index(s, j);
    }
    assert(view_of(t) =~= view_of(s).insert(d.public_key@, d@));
}

/// Appending an entry under a new key adds that key.
proof fn lemma_view_of_push(s: Seq<PeerData>, d: PeerData)
    requires
        keys_of(s).no_duplicates(),
        !view_of(s).contains_key(d.public_key@),
    ensures
        keys_of(s.push(d)).no_duplicates(),
        view_of(s.push(d)) == view_of(s).insert(d.public_key@, d@),
{
    let t = s.push(d);
    assert(keys_of(t) =~= keys_of(s).push(d.public_key@));
    assert forall|a: int, b: int| 0 <= a < t.len() && 0 <= b < t.len() && a != b
        implies keys_of(t)[a] != keys_of(t)[b] by {
        if a == s.len() {
            lemma_view_of_index(s, b);
        } else if b == s.len() {
            lemma_view_of_index(s, a);
        }
    }
    lemma_view_of_index(t, s.len() as int);
    assert forall|k: Seq<char>| #[trigger] view_of(t).contains_key(k) && k != d.public_key@
        implies view_of(s).contains_key(k) && view_of(t)[k] == view_of(s)[k] by {
        let j = lemma_view_of_key(t, k);
        lemma_view_of_index(s, j);
    }
    assert forall|k: Seq<char>| #[trigger] view_of(s).contains_key(k) implies view_of(t).contains_key(k) by {
        let j = lemma_view_of_key(s, k);
        lemma_view_of_index(t, j);
    }
    assert(view_of(t) =~= view_of(s).insert(d.public_key@, d@));
}

/// The registry. Its entries sit in a vector with unique keys; callers see
/// it as a map from key to entry (`@`) and rely on `wf`, which `new`
/// establishes and every operation keeps.
pub struct RelayMap {
    inner: Vec<PeerData>,
}

impl View for RelayMap {
    type V = RegistryView;

    closed spec fn view(&self) -> RegistryView {
        view_of(self.inner@)
    }
}

impl RelayMap {
    /// Keys are unique and the registry is within its capacity.
    pub closed spec fn wf(&self) -> bool {
        keys_of(self.inner@).no_duplicates() && self.inner.len() <= MAX_RELAY_COUNT
    }

    /// A well-formed registry holds finitely many entries, at most
    /// `MAX_RELAY_COUNT`, each under its own key.
    pub proof fn lemma_wf(&self)
        requires
            self.wf(),
        ensures
            self@.dom().finite(),
            self@.len() <= MAX_RELAY_COUNT,
            forall|k: Seq<char>| #[trigger] self@.contains_key(k) ==> self@[k].public_key == k,
    {
        lemma_view_of_len(self.inner@);
        assert forall|k: Seq<char>| #[trigger] self@.contains_key(k) implies self@[k].public_key == k by {
            lemma_view_of_key(self.inner@, k);
        }
    }

    /// An empty registry.
    pub fn new() -> (r: RelayMap)
        ensures
            r.wf(),
            r@ == RegistryView::empty(),
    {
        let r = RelayMap { inner: Vec::new() };
        assert(r@ =~= RegistryView::empty());
        r
    }

    /// The position of the entry of `key`, if any.
    fn find_index(&self, key: &PublicKey) -> (r: Option<usize>)
        requires
            self.wf(),
        ensures
            r matches Some(i) ==> i < self.inner.len() && self.inner@[i as int].public_key@ == key@,
            r is None ==> !self@.contains_key(key@),
    {
        let mut i: usize = 0;
        while i < self.inner.len()
            invariant
                i <= self.inner.len(),
                forall|j: int| 0 <= j < i ==> self.inner@[j].public_key@ != key@,
            decreases self.inner.len() - i,
        {
            if self.inner[i].public_key == *key {
                return Some(i);
            }
            i = i + 1;
        }
        proof {
            if self@.contains_key(key@) {
                lemma_view_of_key(self.inner@, key@);
            }
        }
        None
    }

    /// The number of entries.
    pub fn len(&self) -> (r: usize)
        requires
            self.wf(),
        ensures
            r == self@.len(),
    {
        proof { lemma_view_of_len(self.inner@); }
        self.inner.len()
    }

    /// Whether `p_key` is registered.
    pub fn has_peer(&self, p_key: &PublicKey) -> (r: bool)
        requires
            self.wf(),
        ensures
            r == self@.contains_key(p_key@),
    {
        let found = self.find_index(p_key);
        proof {
            if let Some(i) = found {
                lemma_view_of_index(self.inner@, i as int);
            }
        }
        found.is_some()
    }

    /// The entry registered under `id`, if any.
    pub fn get(&self, id: &PublicKey) -> (r: Option<&PeerData>)
        requires
            self.wf(),
        ensures
            r is Some <==> self@.contains_key(id@),
            r matches Some(p) ==> p@ == self@[id@],
    {
        match self.find_index(id) {
            Some(i) => {
                proof { lemma_view_of_index(self.inner@, i as int); }
                Some(&self.inner[i])
            },
            None => None,
        }
    }

    /// Replaces the entry at `i` by one under the same key.
    fn replace_at(&mut self, i: usize, d: PeerData)
        requires
            old(self).wf(),
            i < old(self).inner.len(),
            d.public_key@ == old(self).inner@[i as int].public_key@,
        ensures
            final(self).wf(),
            final(self)@ == old(self)@.insert(d.public_key@, d@),
    {
        proof { lemma_view_of_update(self.inner@, i as int, d); }
        self.inner.set(i, d);
    }

    /// Mutable access to the entry of `id`, if any. The registry keeps its
    /// shape as long as the entry's key is left as it is.
    pub fn get_mut(&mut self, id: &PublicKey) -> (r: Option<&mut PeerData>)
        requires
            old(self).wf(),
        ensures
            r is Some <==> old(self)@.contains_key(id@),
            r is None ==> final(self).wf() && final(self)@ == old(self)@,
            r matches Some(p) ==> (*p)@ == old(self)@[id@] && (final(p).public_key@ == id@ ==> final(self).wf()
                && final(self)@ == old(self)@.insert(id@, final(p)@)),
    {
        match self.find_index(id) {
            Some(i) => {
                proof { lemma_view_of_index(self.inner@, i as int); }
                proof {
                    let s0 = self.inner@;
                    assert forall|d: PeerData| d.public_key@ == id@ implies #[trigger] keys_of(s0.update(i as int, d))
                        == keys_of(s0) && view_of(s0.update(i as int, d)) == view_of(s0).insert(id@, d@) by {
                        lemma_view_of_update(s0, i as int, d);
                    }
                }
                Some(&mut self.inner[i])
            },
            None => None,
        }
    }

    /// Mutable access to the entry of a registered `p_key`. The registry keeps
    /// its shape as long as the entry's key is left as it is.
    #[allow(non_snake_case)]
    pub fn get_peerData_mut(&mut self, p_key: &PublicKey) -> (r: &mut PeerData)
        requires
            old(self).wf(),
            old(self)@.contains_key(p_key@),
        ensures
            (*r)@ == old(self)@[p_key@],
            final(r).public_key@ == p_key@ ==> final(self).wf() && final(self)@ == old(self)@.insert(
                p_key@,
                final(r)@,
            ),
    {
        let i = match self.find_index(p_key) {
            Some(i) => i,
            None => 0,
        };
        proof {
            lemma_view_of_index(self.inner@, i as int);
            let s0 = self.inner@;
            assert forall|d: PeerData| d.public_key@ == p_key@ implies #[trigger] keys_of(s0.update(i as int, d))
                == keys_of(s0) && view_of(s0.update(i as int, d)) == view_of(s0).insert(p_key@, d@) by {
                lemma_view_of_update(s0, i as int, d);
            }
        }
        &mut self.inner[i]
    }

    /// Registers `public_key` at `peer_addr` at time `now`. A new key needs
    /// room below `MAX_RELAY_COUNT`; a known key is always accepted, gets a
    /// fresh entry where the address may be replaced, and otherwise only a new
    /// timestamp.
    pub fn bind_peer_at(&mut self, public_key: PublicKey, peer_addr: PeerAddr, now: u128) -> (r: Result<(), RelayError>)
        requires
            old(self).wf(),
        ensures
            final(self).wf(),
            r is Ok <==> admits(old(self)@, public_key@),
            r is Ok ==> final(self)@ == bound(old(self)@, public_key@, peer_addr, now),
            r is Err ==> r == Err::<(), RelayError>(RelayError::CapacityExceeded) && final(self)@ == old(self)@,
    {
        proof { lemma_view_of_len(self.inner@); }
        match self.find_index(&public_key) {
            Some(i) => {
                proof { lemma_view_of_index(self.inner@, i as int); }
                if may_overwrite(&self.inner[i].peer_addr, &peer_addr) {
                    let d = PeerData::new_at(public_key, peer_addr, now);
                    self.replace_at(i, d);
                } else {
                    let mut d = self.inner[i].snapshot();
                    d.discovery_time = now;
                    self.replace_at(i, d);
                }
                Ok(())
            },
            None => {
                if self.inner.len() >= MAX_RELAY_COUNT {
                    return Err(RelayError::CapacityExceeded);
                }
                let d = PeerData::new_at(public_key, peer_addr, now);
                proof { lemma_view_of_push(self.inner@, d); }
                self.inner.push(d);
                Ok(())
            },
        }
    }

    /// Registers `public_key` at `peer_addr`, stamped with the wall-clock time.
    pub fn bind_peer(&mut self, public_key: PublicKey, peer_addr: PeerAddr) -> (r: Result<(), RelayError>)
        requires
            old(self).wf(),
        ensures
            final(self).wf(),
            r is Ok <==> admits(old(self)@, public_key@),
            r is Ok ==> exists|now: u128| final(self)@ == bound(old(self)@, public_key@, peer_addr, now),
            r is Err ==> r == Err::<(), RelayError>(RelayError::CapacityExceeded) && final(self)@ == old(self)@,
    {
        let now = now_ms();
        self.bind_peer_at(public_key, peer_addr, now)
    }

    /// Sets the last sign of life of `p_key` to `now`; returns whether the key
    /// is registered.
    pub fn reset_peer_time_at(&mut self, p_key: &PublicKey, now: u128) -> (r: bool)
        requires
            old(self).wf(),
        ensures
            final(self).wf(),
            r == old(self)@.contains_key(p_key@),
            r ==> final(self)@ == old(self)@.insert(p_key@, touched(old(self)@[p_key@], now)),
            !r ==> final(self)@ == old(self)@,
    {
        match self.find_index(p_key) {
            Some(i) => {
                proof { lemma_view_of_index(self.inner@, i as int); }
                let mut d = self.inner[i].snapshot();
                d.discovery_time = now;
                self.replace_at(i, d);
                true
            },
            None => false,
        }
    }

    /// Sets the last sign of life of `p_key` to the wall-clock time, where the
    /// key is registered.
    pub fn reset_peer_time(&mut self, p_key: &PublicKey)
        requires
            old(self).wf(),
        ensures
            final(self).wf(),
            old(self)@.contains_key(p_key@) ==> exists|now: u128|
                final(self)@ == old(self)@.insert(p_key@, touched(old(self)@[p_key@], now)),
            !old(self)@.contains_key(p_key@) ==> final(self)@ == old(self)@,
    {
        let now = now_ms();
        self.reset_peer_time_at(p_key, now);
    }

    /// Records that `p_key` waits to punch with `target`; fails where `p_key`
    /// is not registered.
    pub fn mark_waiting(&mut self, p_key: &PublicKey, target: &PublicKey) -> (r: Result<(), RelayError>)
        requires
            old(self).wf(),
        ensures
            final(self).wf(),
            r is Ok <==> old(self)@.contains_key(p_key@),
            r is Ok ==> final(self)@ == old(self)@.insert(p_key@, marked(old(self)@[p_key@], target@)),
            r is Err ==> r == Err::<(), RelayError>(RelayError::NotRegistered) && final(self)@ == old(self)@,
    {
        match self.find_index(p_key) {
            Some(i) => {
                proof { lemma_view_of_index(self.inner@, i as int); }
                let mut d = self.inner[i].snapshot();
                d.waiting_punch = true;
                d.waiting_for = Some(target.clone());
                self.replace_at(i, d);
                Ok(())
            },
            None => Err(RelayError::NotRegistered),
        }
    }

    /// Some entry that waits to punch with `target`, if there is one. Which
    /// one, where several wait, is not promised.
    pub fn find_waiting_for(&self, target: &PublicKey) -> (r: Option<&PeerData>)
        requires
            self.wf(),
        ensures
            r matches Some(p) ==> self@.contains_key(p.public_key@) && self@[p.public_key@] == p@
                && waits_for(p@, target@),
            r is None ==> forall|k: Seq<char>| #[trigger] self@.contains_key(k) ==> !waits_for(self@[k], target@),
    {
        let mut i: usize = 0;
        while i < self.inner.len()
            invariant
                self.wf(),
                i <= self.inner.len(),
                forall|j: int| 0 <= j < i ==> !waits_for(#[trigger] self.inner@[j]@, target@),
            decreases self.inner.len() - i,
        {
            let p = &self.inner[i];
            if p.waiting_punch {
                match &p.waiting_for {
                    Some(w) => {
                        if *w == *target {
                            proof { lemma_view_of_index(self.inner@, i as int); }
                            return Some(p);
                        }
                    },
                    None => {},
                }
            }
            i = i + 1;
        }
        proof {
            assert forall|k: Seq<char>| #[trigger] self@.contains_key(k) implies !waits_for(self@[k], target@) by {
                let j = lemma_view_of_key(self.inner@, k);
                assert(!waits_for(self.inner@[j]@, target@));
            }
        }
        None
    }

    /// Removes every entry that has expired at `now`; returns how many went.
    pub fn evict_expired(&mut self, now: u128) -> (r: usize)
        requires
            old(self).wf(),
        ensures
            final(self).wf(),
            final(self)@ == swept(old(self)@, now),
            r == old(self)@.len() - final(self)@.len(),
    {
        let ghost pre = self.inner@;
        let mut kept: Vec<PeerData> = Vec::new();
        let ghost mut src: Seq<int> = Seq::empty();
        let mut i: usize = 0;
        while i < self.inner.len()
            invariant
                pre == self.inner@,
                keys_of(pre).no_duplicates(),
                i <= pre.len(),
                kept.len() == src.len(),
                kept.len() <= i,
                forall|j: int| 0 <= j < src.len() ==> 0 <= #[trigger] src[j] < i,
                forall|j: int, l: int| 0 <= j < l < src.len() ==> src[j] < src[l],
                forall|j: int| 0 <= j < kept.len() ==> #[trigger] kept@[j]@ == pre[src[j]]@
                    && !is_expired(pre[src[j]].discovery_time, now),
                forall|m: int| 0 <= m < i && !is_expired(#[trigger] pre[m].discovery_time, now)
                    ==> exists|j: int| 0 <= j < src.len() && src[j] == m,
            decreases pre.len() - i,
        {
            let p = &self.inner[i];
            if !(now > p.discovery_time && now - p.discovery_time > TIME_TO_LIVE) {
                let ghost old_kept = kept@;
                let ghost old_src = src;
                kept.push(p.snapshot());
                proof {
                    src = src.push(i as int);
                    assert forall|j: int| 0 <= j < kept.len() implies #[trigger] kept@[j]@ == pre[src[j]]@
                        && !is_expired(pre[src[j]].discovery_time, now) by {
                        if j < old_kept.len() {
                            assert(kept@[j] == old_kept[j]);
                            assert(src[j] == old_src[j]);
                            assert(old_kept[j]@ == pre[old_src[j]]@);
                        } else {
                            assert(src[j] == i);
                            assert(kept@[j]@ == pre[i as int]@);
                        }
                    }
                    assert(src[src.len() - 1] == i);
                    assert forall|m: int| 0 <= m < i + 1 && !is_expired(#[trigger] pre[m].discovery_time, now)
                        implies exists|j: int| 0 <= j < src.len() && src[j] == m by {
                        if m < i {
                            let j = choose|j: int| 0 <= j < old_src.len() && old_src[j] == m;
                            assert(src[j] == m);
                        }
                    }
                }
            }
            i = i + 1;
        }
        proof {
            assert forall|a: int, b: int| 0 <= a < kept.len() && 0 <= b < kept.len() && a != b
                implies keys_of(kept@)[a] != keys_of(kept@)[b] by {
                if a < b {
                    assert(src[a] < src[b]);
                } else {
                    assert(src[b] < src[a]);
                }
                assert(keys_of(pre)[src[a]] != keys_of(pre)[src[b]]);
                assert(keys_of(kept@)[a] == kept@[a]@.public_key);
                assert(keys_of(kept@)[b] == kept@[b]@.public_key);
            }
            let m0 = view_of(pre);
            assert forall|k: Seq<char>| #[trigger] view_of(kept@).contains_key(k)
                implies swept(m0, now).contains_key(k) && view_of(kept@)[k] == m0[k] by {
                let j = lemma_view_of_key(kept@, k);
                lemma_view_of_index(pre, src[j]);
            }
            assert forall|k: Seq<char>| #[trigger] swept(m0, now).contains_key(k)
                implies view_of(kept@).contains_key(k) by {
                let m = lemma_view_of_key(pre, k);
                let j = choose|j: int| 0 <= j < src.len() && src[j] == m;
                lemma_view_of_index(kept@, j);
            }
            assert(view_of(kept@) =~= swept(m0, now));
            lemma_view_of_len(pre);
            lemma_view_of_len(kept@);
        }
        let removed = self.inner.len() - kept.len();
        self.inner = kept;
        removed
    }

    /// Removes every entry that has expired by the wall clock.
    pub fn garbage_collect(&mut self)
        requires
            old(self).wf(),
        ensures
            final(self).wf(),
            exists|now: u128| final(self)@ == swept(old(self)@, now),
    {
        let now = now_ms();
        self.evict_expired(now);
    }
}


/// Relies on `SystemTime::elapsed`, taken from `UNIX_EPOCH`: the wall-clock
/// time in milliseconds, or `None` where the clock reads before the epoch.
/// Nothing is known of the value: it is whatever the clock says.
#[verifier::external_body]
fn millis_since_epoch() -> (r: Option<u128>) {
    match std::time::UNIX_EPOCH.elapsed() {
        Ok(d) => Some(d.as_millis()),
        Err(_) => None,
    }
}

/// Milliseconds since the Unix epoch by the wall clock; 0 where the clock
/// reads before the epoch.
pub fn now_ms() -> u128 {
    match millis_since_epoch() {
        Some(ms) => ms,
        None => 0,
    }
}

} // verus!
