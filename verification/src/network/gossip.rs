//! Gossip: the cache that drops messages already seen, and the mesh
//! settings.
use vstd::prelude::*;

verus! {

type VHash = crate::primitives::types::Hash;

/// When each message hash was seen, in seconds since the Unix epoch.
pub open spec fn seen_at(s: Seq<(VHash, u64)>, h: Seq<u8>) -> Option<u64>
    decreases s.len(),
{
    if s.len() == 0 {
        None
    } else if s.last().0.0@ == h {
        Some(s.last().1)
    } else {
        seen_at(s.drop_last(), h)
    }
}

/// The entries seen less than `ttl` seconds before `now`, in order.
pub open spec fn fresh(s: Seq<(VHash, u64)>, now: u64, ttl: u64) -> Seq<(VHash, u64)>
    decreases s.len(),
{
    if s.len() == 0 {
        s
    } else if now - s.last().1 < ttl {
        fresh(s.drop_last(), now, ttl).push(s.last())
    } else {
        fresh(s.drop_last(), now, ttl)
    }
}

/// Remembers message hashes for deduplication.
pub struct MessageCache {
    seen: Vec<(VHash, u64)>,
    max_size: usize,
    /// How long an entry is kept once the cache is over size, in seconds.
    ttl: u64,
}

impl MessageCache {
    pub closed spec fn entries(&self) -> Seq<(VHash, u64)> { self.seen@ }
    pub closed spec fn max_spec(&self) -> usize { self.max_size }
    pub closed spec fn ttl_spec(&self) -> u64 { self.ttl }

    /// No hash twice.
    pub closed spec fn wf(&self) -> bool {
        forall|i: int, j: int| 0 <= i < j < self.seen@.len() ==> (#[trigger] self.seen@[i]).0.0@ != (#[trigger] self.seen@[j]).0.0@
    }

    pub fn new(max_size: usize, ttl: u64) -> (r: Self)
        ensures r.wf(), r.entries().len() == 0, r.max_spec() == max_size, r.ttl_spec() == ttl,
    {
        MessageCache { seen: Vec::new(), max_size, ttl }
    }

    fn position(&self, hash: &VHash) -> (r: Option<usize>)
        requires self.wf(),
        ensures
            match r {
                Some(i) => i < self.seen@.len() && self.seen@[i as int].0.0@ == hash.0@
                    && forall|j: int| 0 <= j < self.seen@.len() && j != i ==> (#[trigger] self.seen@[j]).0.0@ != hash.0@,
                None => forall|j: int| 0 <= j < self.seen@.len() ==> (#[trigger] self.seen@[j]).0.0@ != hash.0@,
            },
    {
        let mut i: usize = 0;
        while i < self.seen.len()
            invariant
                i <= self.seen@.len(),
                self.wf(),
                forall|j: int| 0 <= j < i ==> (#[trigger] self.seen@[j]).0.0@ != hash.0@,
            decreases self.seen@.len() - i,
        {
            if self.seen[i].0 == *hash {
                proof {
                    assert forall|j: int| 0 <= j < self.seen@.len() && j != i implies (#[trigger] self.seen@[j]).0.0@ != hash.0@ by {
                        if j < i { } else { assert(self.seen@[i as int].0.0@ != self.seen@[j].0.0@); }
                    }
                }
                return Some(i);
            }
            i = i + 1;
        }
        None
    }

    /// Whether the hash was seen.
    pub fn is_seen(&self, hash: &VHash) -> (r: bool)
        requires self.wf(),
        ensures r == (seen_at(self.entries(), hash.0@) is Some),
    {
        proof { lemma_seen_at(self.seen@, hash.0@); }
        self.position(hash).is_some()
    }

    /// Records the hash as seen at `now`; over size, the entries not seen
    /// within the time to live are dropped.
    pub fn mark_seen_at(&mut self, hash: VHash, now: u64)
        requires
            old(self).wf(),
            forall|i: int| 0 <= i < old(self).entries().len() ==> (#[trigger] old(self).entries()[i]).1 <= now,
        ensures
            final(self).wf(),
            final(self).max_spec() == old(self).max_spec() && final(self).ttl_spec() == old(self).ttl_spec(),
            forall|i: int| 0 <= i < final(self).entries().len() ==> (#[trigger] final(self).entries()[i]).1 <= now,
            ({
                let added = marked(old(self).entries(), hash, now);
                final(self).entries() == if added.len() > old(self).max_spec() { fresh(added, now, old(self).ttl_spec()) } else { added }
            }),
    {
        let ghost s0 = self.seen@;
        match self.position(&hash) {
            Some(i) => {
                self.seen.set(i, (hash, now));
                proof {
                    assert forall|a: int, b: int| 0 <= a < b < self.seen@.len() implies (#[trigger] self.seen@[a]).0.0@ != (#[trigger] self.seen@[b]).0.0@ by {
                        if a != i && b != i { assert(s0[a].0.0@ != s0[b].0.0@); }
                    }
                    assert forall|q: int| 0 <= q < self.seen@.len() implies (#[trigger] self.seen@[q]).1 <= now by {
                        if q != i { assert(self.seen@[q] == s0[q]); assert(old(self).entries()[q] == s0[q]); }
                    }
                }
            },
            None => {
                self.seen.push((hash, now));
                proof {
                    assert forall|a: int, b: int| 0 <= a < b < self.seen@.len() implies (#[trigger] self.seen@[a]).0.0@ != (#[trigger] self.seen@[b]).0.0@ by {
                        if b == s0.len() { assert(self.seen@[a] == s0[a]); } else { assert(s0[a].0.0@ != s0[b].0.0@); }
                    }
                    assert forall|q: int| 0 <= q < self.seen@.len() implies (#[trigger] self.seen@[q]).1 <= now by {
                        if q < s0.len() { assert(self.seen@[q] == s0[q]); assert(old(self).entries()[q] == s0[q]); }
                    }
                }
            },
        }
        if self.seen.len() > self.max_size {
            self.prune(now);
        }
    }

    /// Records the hash as seen now, by the system clock: as `mark_seen_at`
    /// with the time read, or with the latest time recorded should the clock
    /// read earlier than that.
    pub fn mark_seen(&mut self, hash: VHash)
        requires old(self).wf(),
        ensures
            final(self).wf(),
            final(self).max_spec() == old(self).max_spec() && final(self).ttl_spec() == old(self).ttl_spec(),
            exists|now: u64| {
                let added = #[trigger] marked(old(self).entries(), hash, now);
                &&& forall|i: int| 0 <= i < old(self).entries().len() ==> (#[trigger] old(self).entries()[i]).1 <= now
                &&& final(self).entries() == if added.len() > old(self).max_spec() { fresh(added, now, old(self).ttl_spec()) } else { added }
            },
    {
        let mut now = crate::primitives::clock::unix_time_secs();
        let mut i: usize = 0;
        while i < self.seen.len()
            invariant
                i <= self.seen@.len(),
                forall|q: int| 0 <= q < i ==> (#[trigger] self.seen@[q]).1 <= now,
            decreases self.seen@.len() - i,
        {
            if self.seen[i].1 > now {
                now = self.seen[i].1;
            }
            i = i + 1;
        }
        self.mark_seen_at(hash, now);
    }

    fn prune(&mut self, now: u64)
        requires
            old(self).wf(),
            forall|i: int| 0 <= i < old(self).seen@.len() ==> (#[trigger] old(self).seen@[i]).1 <= now,
        ensures
            final(self).wf(),
            final(self).seen@ == fresh(old(self).seen@, now, old(self).ttl),
            forall|i: int| 0 <= i < final(self).seen@.len() ==> (#[trigger] final(self).seen@[i]).1 <= now,
            final(self).max_size == old(self).max_size && final(self).ttl == old(self).ttl,
    {
        let ghost s0 = self.seen@;
        let mut kept: Vec<(VHash, u64)> = Vec::new();
        let mut i: usize = 0;
        assert(s0.take(0) =~= Seq::<(VHash, u64)>::empty());
        while i < self.seen.len()
            invariant
                i <= s0.len(),
                self.seen@ == s0,
                forall|q: int| 0 <= q < s0.len() ==> (#[trigger] s0[q]).1 <= now,
                forall|a: int, b: int| 0 <= a < b < s0.len() ==> (#[trigger] s0[a]).0.0@ != (#[trigger] s0[b]).0.0@,
                kept@ == fresh(s0.take(i as int), now, self.ttl),
                forall|a: int| 0 <= a < kept@.len() ==> exists|b: int| 0 <= b < i && #[trigger] kept@[a] == s0[b],
                forall|a: int, c: int| 0 <= a < c < kept@.len() ==> (#[trigger] kept@[a]).0.0@ != (#[trigger] kept@[c]).0.0@,
                forall|a: int| 0 <= a < kept@.len() ==> forall|b: int| i <= b < s0.len() ==> (#[trigger] kept@[a]).0.0@ != (#[trigger] s0[b]).0.0@,
            decreases s0.len() - i,
        {
            let e = self.seen[i];
            assert(s0.take(i + 1).drop_last() =~= s0.take(i as int));
            if now - e.1 < self.ttl {
                let ghost k0 = kept@;
                kept.push(e);
                proof {
                    assert forall|a: int| 0 <= a < kept@.len() implies exists|b: int| 0 <= b < i + 1 && #[trigger] kept@[a] == s0[b] by {
                        if a < k0.len() {
                            let b = choose|b: int| 0 <= b < i && #[trigger] k0[a] == s0[b];
                            assert(kept@[a] == s0[b]);
                        } else {
                            assert(kept@[a] == s0[i as int]);
                        }
                    }
                    assert forall|a: int, c: int| 0 <= a < c < kept@.len() implies (#[trigger] kept@[a]).0.0@ != (#[trigger] kept@[c]).0.0@ by {
                        if c == k0.len() { assert(kept@[a] == k0[a]); assert(kept@[c] == s0[i as int]); }
                        else { assert(kept@[a] == k0[a] && kept@[c] == k0[c]); }
                    }
                    assert forall|a: int| 0 <= a < kept@.len() implies forall|b: int| i + 1 <= b < s0.len() ==> (#[trigger] kept@[a]).0.0@ != (#[trigger] s0[b]).0.0@ by {
                        if a == k0.len() {
                            assert(kept@[a] == s0[i as int]);
                            assert forall|b: int| i + 1 <= b < s0.len() implies kept@[a].0.0@ != (#[trigger] s0[b]).0.0@ by {
                                assert(s0[i as int].0.0@ != s0[b].0.0@);
                            }
                        } else {
                            assert(kept@[a] == k0[a]);
                        }
                    }
                }
            }
            i = i + 1;
        }
        assert(s0.take(i as int) =~= s0);
        proof {
            assert forall|q: int| 0 <= q < kept@.len() implies (#[trigger] kept@[q]).1 <= now by {
                let b = choose|b: int| 0 <= b < i && #[trigger] kept@[q] == s0[b];
            }
        }
        self.seen = kept;
    }
}

/// The entries after recording `hash` at `now`: its entry updated in place,
/// or added at the end.
pub open spec fn marked(s: Seq<(VHash, u64)>, hash: VHash, now: u64) -> Seq<(VHash, u64)> {
    if exists|i: int| 0 <= i < s.len() && (#[trigger] s[i]).0.0@ == hash.0@ {
        s.update(choose|i: int| 0 <= i < s.len() && (#[trigger] s[i]).0.0@ == hash.0@, (hash, now))
    } else {
        s.push((hash, now))
    }
}

proof fn lemma_seen_at(s: Seq<(VHash, u64)>, h: Seq<u8>)
    ensures (seen_at(s, h) is Some) == exists|i: int| 0 <= i < s.len() && (#[trigger] s[i]).0.0@ == h,
    decreases s.len(),
{
    if s.len() > 0 {
        lemma_seen_at(s.drop_last(), h);
        if s.last().0.0@ == h {
            assert(s[s.len() - 1].0.0@ == h);
        } else {
            assert forall|i: int| 0 <= i < s.len() && (#[trigger] s[i]).0.0@ == h implies 0 <= i < s.drop_last().len() && s.drop_last()[i].0.0@ == h by {
                if i == s.len() - 1 { assert(s[i] == s.last()); }
            }
            assert forall|i: int| 0 <= i < s.drop_last().len() && (#[trigger] s.drop_last()[i]).0.0@ == h implies s[i].0.0@ == h by {}
        }
    }
}

impl Default for MessageCache {
    fn default() -> (r: Self)
        ensures r.wf(), r.entries().len() == 0, r.max_spec() == 100_000, r.ttl_spec() == 300,
    {
        MessageCache::new(100_000, 300)
    }
}

/// Settings of the gossip mesh.
#[derive(Clone, Copy, Debug)]
pub struct GossipConfig {
    pub max_message_size: usize,
    /// Mesh degree.
    pub mesh_d: usize,
    pub mesh_d_lo: usize,
    pub mesh_d_hi: usize,
    pub fanout_ttl: u64,
    /// Seconds between heartbeats.
    pub heartbeat_interval: u64,
}

impl Default for GossipConfig {
    fn default() -> (r: Self)
        ensures
            r.max_message_size == 1024 * 1024 && r.mesh_d == 6 && r.mesh_d_lo == 4 && r.mesh_d_hi == 12,
            r.fanout_ttl == 60 && r.heartbeat_interval == 1,
    {
        GossipConfig { max_message_size: 1024 * 1024, mesh_d: 6, mesh_d_lo: 4, mesh_d_hi: 12, fanout_ttl: 60, heartbeat_interval: 1 }
    }
}

} // verus!
