//! The peer table: connection state, reputation with automatic bans, and
//! traffic statistics.
use vstd::prelude::*;
use crate::primitives::address::Address;

verus! {

/// What a peer is known to be.
pub struct PeerInfo {
    /// The peer's identifier.
    pub id: String,
    pub addresses: Vec<String>,
    pub protocol_version: u32,
    pub agent: String,
    pub is_validator: bool,
    pub validator_address: Option<Address>,
    /// When the peer was last seen, in seconds since the Unix epoch.
    pub last_seen: u64,
    pub state: PeerState,
    /// Between -1000 and 1000.
    pub reputation: i32,
}

/// The connection state of a peer.
#[derive(Clone, Copy, Debug, PartialEq, Eq, Structural)]
pub enum PeerState {
    Disconnected,
    Connecting,
    Connected,
    Banned,
}

/// Traffic with a peer.
#[derive(Clone, Copy, Debug)]
pub struct PeerStats {
    pub messages_received: u64,
    pub messages_sent: u64,
    pub bytes_received: u64,
    pub bytes_sent: u64,
    pub latency_ms: u32,
    pub failures: u32,
}

impl Default for PeerStats {
    fn default() -> (r: Self)
        ensures
            r.messages_received == 0 && r.messages_sent == 0 && r.bytes_received == 0 && r.bytes_sent == 0,
            r.latency_ms == 0 && r.failures == 0,
    {
        PeerStats { messages_received: 0, messages_sent: 0, bytes_received: 0, bytes_sent: 0, latency_ms: 0, failures: 0 }
    }
}

/// Some peer of the list has identifier `id`.
pub open spec fn has_peer(s: Seq<PeerInfo>, id: Seq<char>) -> bool {
    exists|i: int| 0 <= i < s.len() && (#[trigger] s[i]).id@ == id
}

/// The position of the peer with identifier `id`.
pub open spec fn peer_index(s: Seq<PeerInfo>, id: Seq<char>) -> int {
    choose|i: int| 0 <= i < s.len() && (#[trigger] s[i]).id@ == id
}

/// No identifier twice.
pub open spec fn ids_unique(s: Seq<PeerInfo>) -> bool {
    forall|i: int, j: int| 0 <= i < j < s.len() ==> (#[trigger] s[i]).id@ != (#[trigger] s[j]).id@
}

/// The peers that are not disconnected, in order.
pub open spec fn not_disconnected(s: Seq<PeerInfo>) -> Seq<PeerInfo>
    decreases s.len(),
{
    if s.len() == 0 {
        s
    } else if s.last().state != PeerState::Disconnected {
        not_disconnected(s.drop_last()).push(s.last())
    } else {
        not_disconnected(s.drop_last())
    }
}

/// The connected peers, in order.
pub open spec fn connected_of(s: Seq<PeerInfo>) -> Seq<PeerInfo>
    decreases s.len(),
{
    if s.len() == 0 {
        s
    } else if s.last().state == PeerState::Connected {
        connected_of(s.drop_last()).push(s.last())
    } else {
        connected_of(s.drop_last())
    }
}

/// The connected validator peers, in order.
pub open spec fn validators_of(s: Seq<PeerInfo>) -> Seq<PeerInfo>
    decreases s.len(),
{
    if s.len() == 0 {
        s
    } else if s.last().state == PeerState::Connected && s.last().is_validator {
        validators_of(s.drop_last()).push(s.last())
    } else {
        validators_of(s.drop_last())
    }
}

/// The peers kept by a cleanup at `now`: the connected ones and those seen
/// less than `max_age` seconds ago.
pub open spec fn kept_at(s: Seq<PeerInfo>, now: u64, max_age: u64) -> Seq<PeerInfo>
    decreases s.len(),
{
    if s.len() == 0 {
        s
    } else if s.last().state == PeerState::Connected || now - s.last().last_seen < max_age {
        kept_at(s.drop_last(), now, max_age).push(s.last())
    } else {
        kept_at(s.drop_last(), now, max_age)
    }
}

/// The list with `p` in place of the peer of the same identifier, or with
/// `p` added.
pub open spec fn upsert_peer(s: Seq<PeerInfo>, p: PeerInfo) -> Seq<PeerInfo> {
    if has_peer(s, p.id@) { s.update(peer_index(s, p.id@), p) } else { s.push(p) }
}

/// A reputation moved by `delta` and kept within -1000 and 1000.
pub open spec fn clamped(rep: int, delta: int) -> i32 {
    let v = rep + delta;
    (if v < -1000 { -1000 } else if v > 1000 { 1000 } else { v }) as i32
}

/// The table of known peers and their statistics.
pub struct PeerManager {
    peers: Vec<PeerInfo>,
    stats: Vec<(String, PeerStats)>,
    max_peers: usize,
    /// How long a ban lasts, in seconds.
    ban_duration: u64,
}

/// The statistics recorded for `id`.
pub open spec fn stats_of(s: Seq<(String, PeerStats)>, id: Seq<char>) -> Option<PeerStats>
    decreases s.len(),
{
    if s.len() == 0 {
        None
    } else if s.last().0@ == id {
        Some(s.last().1)
    } else {
        stats_of(s.drop_last(), id)
    }
}

proof fn lemma_peer_index(s: Seq<PeerInfo>, i: int)
    requires ids_unique(s), 0 <= i < s.len(),
    ensures has_peer(s, s[i].id@), peer_index(s, s[i].id@) == i,
{
    let k = peer_index(s, s[i].id@);
    if k != i { if k < i { assert(s[k].id@ != s[i].id@); } else { assert(s[i].id@ != s[k].id@); } }
}

impl PeerManager {
    pub closed spec fn peers_spec(&self) -> Seq<PeerInfo> { self.peers@ }
    pub closed spec fn stats_spec(&self) -> Seq<(String, PeerStats)> { self.stats@ }
    pub closed spec fn max_spec(&self) -> usize { self.max_peers }

    pub closed spec fn wf(&self) -> bool {
        ids_unique(self.peers@)
    }

    /// An empty table for at most `max_peers` peers; bans last an hour.
    pub fn new(max_peers: usize) -> (r: Self)
        ensures r.wf(), r.peers_spec().len() == 0, r.stats_spec().len() == 0, r.max_spec() == max_peers,
    {
        PeerManager { peers: Vec::new(), stats: Vec::new(), max_peers, ban_duration: 3600 }
    }

    fn find(&self, id: &String) -> (r: Option<usize>)
        requires self.wf(),
        ensures
            match r {
                Some(i) => i < self.peers@.len() && self.peers@[i as int].id@ == id@ && peer_index(self.peers@, id@) == i
                    && has_peer(self.peers@, id@),
                None => !has_peer(self.peers@, id@),
            },
    {
        let mut i: usize = 0;
        while i < self.peers.len()
            invariant
                i <= self.peers@.len(),
                ids_unique(self.peers@),
                forall|k: int| 0 <= k < i ==> (#[trigger] self.peers@[k]).id@ != id@,
            decreases self.peers@.len() - i,
        {
            if self.peers[i].id == *id {
                proof { lemma_peer_index(self.peers@, i as int); }
                return Some(i);
            }
            i = i + 1;
        }
        None
    }

    /// Adds or replaces a peer; a full table first drops its disconnected
    /// peers.
    pub fn add_peer(&mut self, peer: PeerInfo)
        requires old(self).wf(),
        ensures
            final(self).wf(),
            final(self).max_spec() == old(self).max_spec(),
            final(self).stats_spec() == old(self).stats_spec(),
            final(self).peers_spec() == upsert_peer(
                if old(self).peers_spec().len() >= old(self).max_spec() { not_disconnected(old(self).peers_spec()) } else { old(self).peers_spec() },
                peer),
    {
        if self.peers.len() >= self.max_peers {
            let ghost p0 = self.peers@;
            let total = self.peers.len();
            let mut kept: Vec<PeerInfo> = Vec::new();
            let mut old_peers: Vec<PeerInfo> = Vec::new();
            std::mem::swap(&mut old_peers, &mut self.peers);
            let mut i: usize = 0;
            assert(p0.take(0) =~= Seq::<PeerInfo>::empty());
            while old_peers.len() > 0
                invariant
                    i <= p0.len(),
                    old_peers@ == p0.skip(i as int),
                    i + old_peers@.len() == p0.len(),
                p0.len() == total,
                    kept@ == not_disconnected(p0.take(i as int)),
                    ids_unique(p0),
                    forall|a: int| 0 <= a < kept@.len() ==> exists|b: int| 0 <= b < i && #[trigger] kept@[a] == p0[b],
                    ids_unique(kept@),
                    forall|a: int| 0 <= a < kept@.len() ==> forall|b: int| i <= b < p0.len() ==> (#[trigger] kept@[a]).id@ != (#[trigger] p0[b]).id@,
                decreases old_peers@.len(),
            {
                let p = old_peers.remove(0);
                assert(p == p0[i as int]);
                assert(p0.take(i + 1).drop_last() =~= p0.take(i as int));
                assert(p0.skip(i as int).drop_first() =~= p0.skip(i + 1));
                if p.state != PeerState::Disconnected {
                    let ghost k0 = kept@;
                    kept.push(p);
                    proof {
                        assert forall|a: int| 0 <= a < kept@.len() implies exists|b: int| 0 <= b < i + 1 && #[trigger] kept@[a] == p0[b] by {
                            if a < k0.len() {
                                let b = choose|b: int| 0 <= b < i && #[trigger] k0[a] == p0[b];
                                assert(kept@[a] == p0[b]);
                            } else {
                                assert(kept@[a] == p0[i as int]);
                            }
                        }
                        assert forall|a: int, c: int| 0 <= a < c < kept@.len() implies (#[trigger] kept@[a]).id@ != (#[trigger] kept@[c]).id@ by {
                            if c == k0.len() { assert(kept@[a] == k0[a]); assert(kept@[c] == p0[i as int]); }
                            else { assert(kept@[a] == k0[a] && kept@[c] == k0[c]); }
                        }
                        assert forall|a: int| 0 <= a < kept@.len() implies forall|b: int| i + 1 <= b < p0.len() ==> (#[trigger] kept@[a]).id@ != (#[trigger] p0[b]).id@ by {
                            if a == k0.len() {
                                assert(kept@[a] == p0[i as int]);
                                assert forall|b: int| i + 1 <= b < p0.len() implies kept@[a].id@ != (#[trigger] p0[b]).id@ by {
                                    assert(p0[i as int].id@ != p0[b].id@);
                                }
                            } else {
                                assert(kept@[a] == k0[a]);
                            }
                        }
                    }
                }
                i = i + 1;
            }
            assert(p0.take(i as int) =~= p0);
            self.peers = kept;
        }
        let ghost base = self.peers@;
        match self.find(&peer.id) {
            Some(i) => {
                let ghost pv = peer;
                self.peers.set(i, peer);
                proof {
                    assert forall|a: int, c: int| 0 <= a < c < self.peers@.len() implies (#[trigger] self.peers@[a]).id@ != (#[trigger] self.peers@[c]).id@ by {
                        if a != i && c != i { assert(base[a].id@ != base[c].id@); }
                        else if a == i { assert(base[i as int].id@ != base[c].id@); }
                        else { assert(base[a].id@ != base[i as int].id@); }
                    }
                }
            },
            None => {
                self.peers.push(peer);
                proof {
                    assert forall|a: int, c: int| 0 <= a < c < self.peers@.len() implies (#[trigger] self.peers@[a]).id@ != (#[trigger] self.peers@[c]).id@ by {
                        if c == base.len() { assert(self.peers@[a] == base[a]); } else { assert(base[a].id@ != base[c].id@); }
                    }
                }
            },
        }
    }

    /// The peer with identifier `id`.
    pub fn get_peer(&self, id: &String) -> (r: Option<&PeerInfo>)
        requires self.wf(),
        ensures
            match r {
                Some(p) => has_peer(self.peers_spec(), id@) && *p == self.peers_spec()[peer_index(self.peers_spec(), id@)],
                None => !has_peer(self.peers_spec(), id@),
            },
    {
        match self.find(id) {
            Some(i) => Some(&self.peers[i]),
            None => None,
        }
    }

    /// Sets the state of a known peer.
    pub fn set_state(&mut self, id: &String, state: PeerState)
        requires old(self).wf(),
        ensures
            final(self).wf(),
            final(self).stats_spec() == old(self).stats_spec() && final(self).max_spec() == old(self).max_spec(),
            has_peer(old(self).peers_spec(), id@) ==> ({
                let i = peer_index(old(self).peers_spec(), id@);
                final(self).peers_spec() == old(self).peers_spec().update(i, PeerInfo { state, ..old(self).peers_spec()[i] })
            }),
            !has_peer(old(self).peers_spec(), id@) ==> final(self).peers_spec() == old(self).peers_spec(),
    {
        match self.find(id) {
            Some(i) => {
                let ghost p0 = self.peers@;
                let mut p = self.peers.remove(i);
                p.state = state;
                self.peers.insert(i, p);
                proof {
                    assert(self.peers@ =~= p0.update(i as int, PeerInfo { state, ..p0[i as int] }));
                    assert forall|a: int, c: int| 0 <= a < c < self.peers@.len() implies (#[trigger] self.peers@[a]).id@ != (#[trigger] self.peers@[c]).id@ by {
                        assert(p0[a].id@ != p0[c].id@);
                    }
                }
            },
            None => {},
        }
    }

    /// Bans a known peer: banned state and the lowest reputation.
    pub fn ban_peer(&mut self, id: &String, reason: &str)
        requires old(self).wf(),
        ensures
            final(self).wf(),
            final(self).stats_spec() == old(self).stats_spec() && final(self).max_spec() == old(self).max_spec(),
            has_peer(old(self).peers_spec(), id@) ==> ({
                let i = peer_index(old(self).peers_spec(), id@);
                final(self).peers_spec() == old(self).peers_spec().update(i,
                    PeerInfo { state: PeerState::Banned, reputation: -1000i32, ..old(self).peers_spec()[i] })
            }),
            !has_peer(old(self).peers_spec(), id@) ==> final(self).peers_spec() == old(self).peers_spec(),
    {
        match self.find(id) {
            Some(i) => {
                let ghost p0 = self.peers@;
                let mut p = self.peers.remove(i);
                p.state = PeerState::Banned;
                p.reputation = -1000;
                self.peers.insert(i, p);
                proof {
                    assert(self.peers@ =~= p0.update(i as int, PeerInfo { state: PeerState::Banned, reputation: -1000i32, ..p0[i as int] }));
                    assert forall|a: int, c: int| 0 <= a < c < self.peers@.len() implies (#[trigger] self.peers@[a]).id@ != (#[trigger] self.peers@[c]).id@ by {
                        assert(p0[a].id@ != p0[c].id@);
                    }
                }
            },
            None => {},
        }
    }

    /// Moves a known peer's reputation by `delta`, within -1000 and 1000;
    /// at -100 or below the peer is banned.
    pub fn update_reputation(&mut self, id: &String, delta: i32)
        requires
            old(self).wf(),
            has_peer(old(self).peers_spec(), id@) ==> i32::MIN <= old(self).peers_spec()[peer_index(old(self).peers_spec(), id@)].reputation + delta <= i32::MAX,
        ensures
            final(self).wf(),
            final(self).stats_spec() == old(self).stats_spec() && final(self).max_spec() == old(self).max_spec(),
            has_peer(old(self).peers_spec(), id@) ==> ({
                let i = peer_index(old(self).peers_spec(), id@);
                let p = old(self).peers_spec()[i];
                let rep = clamped(p.reputation as int, delta as int);
                final(self).peers_spec() == old(self).peers_spec().update(i,
                    PeerInfo { reputation: rep, state: if rep <= -100 { PeerState::Banned } else { p.state }, ..p })
            }),
            !has_peer(old(self).peers_spec(), id@) ==> final(self).peers_spec() == old(self).peers_spec(),
    {
        match self.find(id) {
            Some(i) => {
                let ghost p0 = self.peers@;
                let mut p = self.peers.remove(i);
                let v = p.reputation + delta;
                p.reputation = if v < -1000 { -1000 } else if v > 1000 { 1000 } else { v };
                if p.reputation <= -100 {
                    p.state = PeerState::Banned;
                }
                self.peers.insert(i, p);
                proof {
                    let rep = clamped(p0[i as int].reputation as int, delta as int);
                    assert(self.peers@ =~= p0.update(i as int, PeerInfo { reputation: rep,
                        state: if rep <= -100 { PeerState::Banned } else { p0[i as int].state }, ..p0[i as int] }));
                    assert forall|a: int, c: int| 0 <= a < c < self.peers@.len() implies (#[trigger] self.peers@[a]).id@ != (#[trigger] self.peers@[c]).id@ by {
                        assert(p0[a].id@ != p0[c].id@);
                    }
                }
            },
            None => {},
        }
    }

    /// The connected peers, in table order.
    pub fn connected_peers(&self) -> (r: Vec<&PeerInfo>)
        ensures Seq::new(r@.len(), |i: int| *r@[i]) == connected_of(self.peers_spec()),
    {
        let mut out: Vec<&PeerInfo> = Vec::new();
        let mut i: usize = 0;
        assert(self.peers@.take(0) =~= Seq::<PeerInfo>::empty());
        while i < self.peers.len()
            invariant
                i <= self.peers@.len(),
                Seq::new(out@.len(), |k: int| *out@[k]) == connected_of(self.peers@.take(i as int)),
            decreases self.peers@.len() - i,
        {
            assert(self.peers@.take(i + 1).drop_last() =~= self.peers@.take(i as int));
            if self.peers[i].state == PeerState::Connected {
                out.push(&self.peers[i]);
            }
            assert(Seq::new(out@.len(), |k: int| *out@[k]) =~= connected_of(self.peers@.take(i + 1)));
            i = i + 1;
        }
        assert(self.peers@.take(i as int) =~= self.peers@);
        out
    }

    /// The connected validator peers, in table order.
    pub fn validator_peers(&self) -> (r: Vec<&PeerInfo>)
        ensures Seq::new(r@.len(), |i: int| *r@[i]) == validators_of(self.peers_spec()),
    {
        let mut out: Vec<&PeerInfo> = Vec::new();
        let mut i: usize = 0;
        assert(self.peers@.take(0) =~= Seq::<PeerInfo>::empty());
        while i < self.peers.len()
            invariant
                i <= self.peers@.len(),
                Seq::new(out@.len(), |k: int| *out@[k]) == validators_of(self.peers@.take(i as int)),
            decreases self.peers@.len() - i,
        {
            assert(self.peers@.take(i + 1).drop_last() =~= self.peers@.take(i as int));
            if self.peers[i].state == PeerState::Connected && self.peers[i].is_validator {
                out.push(&self.peers[i]);
            }
            assert(Seq::new(out@.len(), |k: int| *out@[k]) =~= validators_of(self.peers@.take(i + 1)));
            i = i + 1;
        }
        assert(self.peers@.take(i as int) =~= self.peers@);
        out
    }

    /// Up to `count` connected peers, highest reputation first; among equal
    /// reputations, table order.
    pub fn best_peers(&self, count: usize) -> (r: Vec<&PeerInfo>)
        ensures
            r@.len() == (if count < connected_of(self.peers_spec()).len() { count as int } else { connected_of(self.peers_spec()).len() as int }),
            forall|i: int| 0 <= i < r@.len() ==> connected_of(self.peers_spec()).contains(*(#[trigger] r@[i])),
            forall|i: int, j: int| 0 <= i < j < r@.len() ==> (#[trigger] r@[i]).reputation >= (#[trigger] r@[j]).reputation,
    {
        let mut pool = self.connected_peers();
        let ghost c = connected_of(self.peers@);
        proof {
            assert forall|i: int| 0 <= i < pool@.len() implies c.contains(*(#[trigger] pool@[i])) by {
                assert(c[i] == Seq::new(pool@.len(), |k: int| *pool@[k])[i]);
            }
        }
        let mut out: Vec<&PeerInfo> = Vec::new();
        while out.len() < count && pool.len() > 0
            invariant
                out@.len() + pool@.len() == c.len(),
                out@.len() <= count,
                forall|i: int| 0 <= i < out@.len() ==> c.contains(*(#[trigger] out@[i])),
                forall|i: int| 0 <= i < pool@.len() ==> c.contains(*(#[trigger] pool@[i])),
                forall|i: int, j: int| 0 <= i < j < out@.len() ==> (#[trigger] out@[i]).reputation >= (#[trigger] out@[j]).reputation,
                forall|i: int, j: int| 0 <= i < out@.len() && 0 <= j < pool@.len() ==> (#[trigger] out@[i]).reputation >= (#[trigger] pool@[j]).reputation,
            decreases pool@.len(),
        {
            let mut best: usize = 0;
            let mut k: usize = 1;
            while k < pool.len()
                invariant
                    1 <= k <= pool@.len(),
                    best < pool@.len(),
                    forall|q: int| 0 <= q < k ==> (#[trigger] pool@[q]).reputation <= pool@[best as int].reputation,
                decreases pool@.len() - k,
            {
                if pool[k].reputation > pool[best].reputation {
                    best = k;
                }
                k = k + 1;
            }
            let ghost p0 = pool@;
            let ghost o0 = out@;
            let chosen = pool.remove(best);
            out.push(chosen);
            proof {
                assert(c.contains(*p0[best as int]));
                assert forall|i: int| 0 <= i < pool@.len() implies c.contains(*(#[trigger] pool@[i])) by {
                    if i < best { assert(pool@[i] == p0[i]); } else { assert(pool@[i] == p0[i + 1]); }
                }
                assert forall|i: int| 0 <= i < out@.len() implies c.contains(*(#[trigger] out@[i])) by {
                    if i < o0.len() { assert(out@[i] == o0[i]); }
                }
                assert forall|i: int, j: int| 0 <= i < j < out@.len() implies (#[trigger] out@[i]).reputation >= (#[trigger] out@[j]).reputation by {
                    if j < o0.len() { assert(out@[i] == o0[i] && out@[j] == o0[j]); }
                    else { assert(out@[i] == o0[i]); assert(out@[j] == p0[best as int]); }
                }
                assert forall|i: int, j: int| 0 <= i < out@.len() && 0 <= j < pool@.len() implies (#[trigger] out@[i]).reputation >= (#[trigger] pool@[j]).reputation by {
                    let pj = if j < best { j } else { j + 1 };
                    assert(pool@[j] == p0[pj]);
                    if i < o0.len() { assert(out@[i] == o0[i]); } else { assert(out@[i] == p0[best as int]); }
                }
            }
        }
        out
    }

    /// Counts a message sent to `id` and its bytes.
    pub fn record_sent(&mut self, id: &String, bytes: u64)
        requires
            stats_of(old(self).stats_spec(), id@) matches Some(s) ==> s.messages_sent < u64::MAX && s.bytes_sent + bytes <= u64::MAX,
        ensures
            final(self).peers_spec() == old(self).peers_spec() && final(self).max_spec() == old(self).max_spec(),
            ({
                let s = match stats_of(old(self).stats_spec(), id@) { Some(s) => s, None => PeerStats {
                    messages_received: 0, messages_sent: 0, bytes_received: 0, bytes_sent: 0, latency_ms: 0, failures: 0 } };
                &&& stats_of(final(self).stats_spec(), id@) == Some(PeerStats { messages_sent: (s.messages_sent + 1) as u64,
                        bytes_sent: (s.bytes_sent + bytes) as u64, ..s })
                &&& forall|x: Seq<char>| x != id@ ==> #[trigger] stats_of(final(self).stats_spec(), x) == stats_of(old(self).stats_spec(), x)
            }),
    {
        let s = self.get_stats(id);
        let base = match s { Some(s) => s, None => PeerStats::default() };
        let n = PeerStats { messages_sent: base.messages_sent + 1, bytes_sent: base.bytes_sent + bytes, ..base };
        self.put_stats(id, n);
    }

    /// Counts a message received from `id` and its bytes.
    pub fn record_received(&mut self, id: &String, bytes: u64)
        requires
            stats_of(old(self).stats_spec(), id@) matches Some(s) ==> s.messages_received < u64::MAX && s.bytes_received + bytes <= u64::MAX,
        ensures
            final(self).peers_spec() == old(self).peers_spec() && final(self).max_spec() == old(self).max_spec(),
            ({
                let s = match stats_of(old(self).stats_spec(), id@) { Some(s) => s, None => PeerStats {
                    messages_received: 0, messages_sent: 0, bytes_received: 0, bytes_sent: 0, latency_ms: 0, failures: 0 } };
                &&& stats_of(final(self).stats_spec(), id@) == Some(PeerStats { messages_received: (s.messages_received + 1) as u64,
                        bytes_received: (s.bytes_received + bytes) as u64, ..s })
                &&& forall|x: Seq<char>| x != id@ ==> #[trigger] stats_of(final(self).stats_spec(), x) == stats_of(old(self).stats_spec(), x)
            }),
    {
        let s = self.get_stats(id);
        let base = match s { Some(s) => s, None => PeerStats::default() };
        let n = PeerStats { messages_received: base.messages_received + 1, bytes_received: base.bytes_received + bytes, ..base };
        self.put_stats(id, n);
    }

    fn put_stats(&mut self, id: &String, s: PeerStats)
        ensures
            final(self).peers@ == old(self).peers@ && final(self).max_peers == old(self).max_peers,
            stats_of(final(self).stats@, id@) == Some(s),
            forall|x: Seq<char>| x != id@ ==> #[trigger] stats_of(final(self).stats@, x) == stats_of(old(self).stats@, x),
    {
        let ghost s0 = self.stats@;
        self.stats.push((id.clone(), s));
        proof {
            assert(self.stats@.drop_last() =~= s0);
        }
    }

    /// The statistics of `id`.
    pub fn get_stats(&self, id: &String) -> (r: Option<PeerStats>)
        ensures r == stats_of(self.stats_spec(), id@),
    {
        let mut i: usize = self.stats.len();
        assert(self.stats@.take(i as int) =~= self.stats@);
        while i > 0
            invariant
                i <= self.stats@.len(),
                stats_of(self.stats@, id@) == stats_of(self.stats@.take(i as int), id@),
            decreases i,
        {
            assert(self.stats@.take(i as int).drop_last() =~= self.stats@.take(i - 1));
            if self.stats[i - 1].0 == *id {
                return Some(self.stats[i - 1].1);
            }
            i = i - 1;
        }
        None
    }

    pub fn connected_count(&self) -> (r: usize)
        ensures r == connected_of(self.peers_spec()).len(),
    {
        self.connected_peers().len()
    }

    pub fn total_count(&self) -> (r: usize)
        ensures r == self.peers_spec().len(),
    {
        self.peers.len()
    }

    /// Drops the peers that are neither connected nor seen within
    /// `max_age` seconds of `now`.
    pub fn cleanup_at(&mut self, now: u64, max_age: u64)
        requires
            old(self).wf(),
            forall|i: int| 0 <= i < old(self).peers_spec().len() && (#[trigger] old(self).peers_spec()[i]).state != PeerState::Connected
                ==> old(self).peers_spec()[i].last_seen <= now,
        ensures
            final(self).wf(),
            final(self).peers_spec() == kept_at(old(self).peers_spec(), now, max_age),
            final(self).stats_spec() == old(self).stats_spec() && final(self).max_spec() == old(self).max_spec(),
    {
        let ghost p0 = self.peers@;
        let total = self.peers.len();
        assert(p0 == old(self).peers_spec());
        let mut kept: Vec<PeerInfo> = Vec::new();
        let mut old_peers: Vec<PeerInfo> = Vec::new();
        std::mem::swap(&mut old_peers, &mut self.peers);
        let mut i: usize = 0;
        assert(p0.take(0) =~= Seq::<PeerInfo>::empty());
        while old_peers.len() > 0
            invariant
                i <= p0.len(),
                old_peers@ == p0.skip(i as int),
                i + old_peers@.len() == p0.len(),
                p0.len() == total,
                kept@ == kept_at(p0.take(i as int), now, max_age),
                ids_unique(p0),
                forall|q: int| 0 <= q < p0.len() && (#[trigger] p0[q]).state != PeerState::Connected ==> p0[q].last_seen <= now,
                forall|a: int| 0 <= a < kept@.len() ==> exists|b: int| 0 <= b < i && #[trigger] kept@[a] == p0[b],
                ids_unique(kept@),
                forall|a: int| 0 <= a < kept@.len() ==> forall|b: int| i <= b < p0.len() ==> (#[trigger] kept@[a]).id@ != (#[trigger] p0[b]).id@,
            decreases old_peers@.len(),
        {
            let p = old_peers.remove(0);
            assert(p == p0[i as int]);
            assert(p0.take(i + 1).drop_last() =~= p0.take(i as int));
            assert(p0.skip(i as int).drop_first() =~= p0.skip(i + 1));
            if p.state == PeerState::Connected || now - p.last_seen < max_age {
                let ghost k0 = kept@;
                kept.push(p);
                proof {
                    assert forall|a: int| 0 <= a < kept@.len() implies exists|b: int| 0 <= b < i + 1 && #[trigger] kept@[a] == p0[b] by {
                        if a < k0.len() {
                            let b = choose|b: int| 0 <= b < i && #[trigger] k0[a] == p0[b];
                            assert(kept@[a] == p0[b]);
                        } else {
                            assert(kept@[a] == p0[i as int]);
                        }
                    }
                    assert forall|a: int, c: int| 0 <= a < c < kept@.len() implies (#[trigger] kept@[a]).id@ != (#[trigger] kept@[c]).id@ by {
                        if c == k0.len() { assert(kept@[a] == k0[a]); assert(kept@[c] == p0[i as int]); }
                        else { assert(kept@[a] == k0[a] && kept@[c] == k0[c]); }
                    }
                    assert forall|a: int| 0 <= a < kept@.len() implies forall|b: int| i + 1 <= b < p0.len() ==> (#[trigger] kept@[a]).id@ != (#[trigger] p0[b]).id@ by {
                        if a == k0.len() {
                            assert(kept@[a] == p0[i as int]);
                            assert forall|b: int| i + 1 <= b < p0.len() implies kept@[a].id@ != (#[trigger] p0[b]).id@ by {
                                assert(p0[i as int].id@ != p0[b].id@);
                            }
                        } else {
                            assert(kept@[a] == k0[a]);
                        }
                    }
                }
            }
            i = i + 1;
        }
        assert(p0.take(i as int) =~= p0);
        self.peers = kept;
    }

    /// Drops the peers that are neither connected nor recently seen, by the
    /// system clock; should the clock read earlier than a peer was last seen,
    /// the latest such time stands for now.
    pub fn cleanup(&mut self, max_age: u64)
        requires
            old(self).wf(),
        ensures
            final(self).wf(),
            exists|now: u64| #![trigger kept_at(old(self).peers_spec(), now, max_age)]
                (forall|i: int| 0 <= i < old(self).peers_spec().len() && (#[trigger] old(self).peers_spec()[i]).state != PeerState::Connected
                    ==> old(self).peers_spec()[i].last_seen <= now)
                && final(self).peers_spec() == kept_at(old(self).peers_spec(), now, max_age),
            final(self).stats_spec() == old(self).stats_spec() && final(self).max_spec() == old(self).max_spec(),
    {
        let mut now = crate::primitives::clock::unix_time_secs();
        let mut i: usize = 0;
        while i < self.peers.len()
            invariant
                i <= self.peers@.len(),
                forall|q: int| 0 <= q < i && (#[trigger] self.peers@[q]).state != PeerState::Connected ==> self.peers@[q].last_seen <= now,
            decreases self.peers@.len() - i,
        {
            if self.peers[i].state != PeerState::Connected && self.peers[i].last_seen > now {
                now = self.peers[i].last_seen;
            }
            i = i + 1;
        }
        self.cleanup_at(now, max_age);
    }
}

impl Default for PeerManager {
    fn default() -> (r: Self)
        ensures r.wf(), r.peers_spec().len() == 0, r.max_spec() == 100,
    {
        PeerManager::new(100)
    }
}

} // verus!
