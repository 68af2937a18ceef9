//! The per-peer commitment log and intrusion counters.
use vstd::prelude::*;

verus! {

/// Failure counts recorded against one peer.
#[derive(Clone, Copy, Debug, PartialEq, Eq, Structural)]
pub struct IntrusionCounts {
    pub schnorr_failures: u64,
    pub mac_failures: u64,
    pub combined_failures: u64,
}

/// Counts of a peer that nothing has been recorded against.
pub open spec fn zero_counts() -> IntrusionCounts {
    IntrusionCounts { schnorr_failures: 0, mac_failures: 0, combined_failures: 0 }
}

/// One more, kept at the largest `u64`.
pub open spec fn bump(n: u64, yes: bool) -> u64 {
    if yes && n < u64::MAX {
        (n + 1) as u64
    } else {
        n
    }
}

/// The counts after a rejection with the given outcome of each check.
pub open spec fn counts_after(c: IntrusionCounts, schnorr_ok: bool, mac_ok: bool) -> IntrusionCounts {
    IntrusionCounts {
        schnorr_failures: bump(c.schnorr_failures, !schnorr_ok),
        mac_failures: bump(c.mac_failures, !mac_ok),
        combined_failures: bump(c.combined_failures, !schnorr_ok && !mac_ok),
    }
}

/// The commitments already accepted from each peer, and the failures
/// recorded against each peer.
pub struct ReplayStore {
    commitments: Vec<(u32, [u8; 32])>,
    intrusions: Vec<(u32, IntrusionCounts)>,
    threshold: u64,
}

impl ReplayStore {
    /// Each peer has at most one entry of counts.
    pub closed spec fn wf(&self) -> bool {
        forall|i: int, j: int|
            0 <= i < j < self.intrusions.len() ==> self.intrusions[i].0 != self.intrusions[j].0
    }

    /// The pairs (peer, commitment) of the log.
    pub closed spec fn log(&self) -> Set<(u32, Seq<u8>)> {
        Set::new(
            |e: (u32, Seq<u8>)|
                exists|i: int|
                    0 <= i < self.commitments.len() && self.commitments[i].0 == e.0
                        && self.commitments[i].1@ == e.1,
        )
    }

    /// The counts of each peer that has an entry.
    pub closed spec fn counts(&self) -> Map<u32, IntrusionCounts> {
        Map::new(
            |p: u32| exists|i: int| 0 <= i < self.intrusions.len() && self.intrusions[i].0 == p,
            |p: u32|
                self.intrusions[choose|i: int|
                    0 <= i < self.intrusions.len() && self.intrusions[i].0 == p].1,
        )
    }

    /// The counts of `peer`, zero where it has no entry.
    pub open spec fn counts_of(&self, peer: u32) -> IntrusionCounts {
        if self.counts().contains_key(peer) {
            self.counts()[peer]
        } else {
            zero_counts()
        }
    }

    /// The bound above which a count signals an intrusion.
    pub closed spec fn threshold_spec(&self) -> u64 {
        self.threshold
    }

    /// An empty store whose counts signal above `threshold`.
    pub fn new(threshold: u64) -> (r: ReplayStore)
        ensures
            r.wf(),
            r.log() == Set::<(u32, Seq<u8>)>::empty(),
            r.counts() == Map::<u32, IntrusionCounts>::empty(),
            r.threshold_spec() == threshold,
    {
        let r = ReplayStore { commitments: Vec::new(), intrusions: Vec::new(), threshold };
        assert(r.log() =~= Set::<(u32, Seq<u8>)>::empty());
        assert(r.counts() =~= Map::<u32, IntrusionCounts>::empty());
        r
    }

    /// Whether `commitment` is unseen from `peer`, so that it may be accepted.
    pub fn check_commitment(&self, peer: u32, commitment: &[u8; 32]) -> (r: bool)
        ensures
            r == !self.log().contains((peer, commitment@)),
    {
        let mut i: usize = 0;
        while i < self.commitments.len()
            invariant
                0 <= i <= self.commitments.len(),
                forall|k: int|
                    0 <= k < i ==> !(self.commitments[k].0 == peer && self.commitments[k].1@
                        == commitment@),
            decreases self.commitments.len() - i,
        {
            let e = &self.commitments[i];
            if e.0 == peer && crate::curve::bytes_eq(&e.1, commitment) {
                assert(self.log().contains((peer, commitment@)));
                return false;
            }
            i = i + 1;
        }
        true
    }

    /// Adds `commitment` to the log of `peer`.
    pub fn record_commitment(&mut self, peer: u32, commitment: [u8; 32])
        requires
            old(self).wf(),
        ensures
            final(self).wf(),
            final(self).log() == old(self).log().insert((peer, commitment@)),
            final(self).counts() == old(self).counts(),
            final(self).threshold_spec() == old(self).threshold_spec(),
    {
        let ghost before = self.commitments@;
        self.commitments.push((peer, commitment));
        assert forall|e: (u32, Seq<u8>)| #[trigger]
            self.log().contains(e) == old(self).log().insert((peer, commitment@)).contains(e) by {
            if old(self).log().contains(e) {
                let i = choose|i: int|
                    0 <= i < before.len() && before[i].0 == e.0 && before[i].1@ == e.1;
                assert(self.commitments[i] == before[i]);
            }
            if e == (peer, commitment@) {
                assert(self.commitments[before.len() as int] == (peer, commitment));
            }
        }
        assert(self.log() =~= old(self).log().insert((peer, commitment@)));
        assert(self.counts() =~= old(self).counts());
    }

    /// The index of the entry of `peer`, if it has one.
    fn find_peer(&self, peer: u32) -> (r: Option<usize>)
        requires
            self.wf(),
        ensures
            match r {
                Some(i) => i < self.intrusions.len() && self.intrusions[i as int].0 == peer
                    && self.counts().contains_key(peer) && self.counts()[peer]
                    == self.intrusions[i as int].1,
                None => !self.counts().contains_key(peer),
            },
    {
        let mut i: usize = 0;
        while i < self.intrusions.len()
            invariant
                0 <= i <= self.intrusions.len(),
                self.wf(),
                forall|k: int| 0 <= k < i ==> self.intrusions[k].0 != peer,
            decreases self.intrusions.len() - i,
        {
            if self.intrusions[i].0 == peer {
                assert(self.counts().contains_key(peer));
                let ghost j = choose|j: int|
                    0 <= j < self.intrusions.len() && self.intrusions[j].0 == peer;
                assert(j == i as int);
                return Some(i);
            }
            i = i + 1;
        }
        None
    }

    /// Sets the counts of `peer`.
    fn put_counts(&mut self, peer: u32, c: IntrusionCounts)
        requires
            old(self).wf(),
        ensures
            final(self).wf(),
            final(self).counts() == old(self).counts().insert(peer, c),
            final(self).log() == old(self).log(),
            final(self).threshold_spec() == old(self).threshold_spec(),
    {
        let ghost before = self.intrusions@;
        match self.find_peer(peer) {
            Some(i) => {
                self.intrusions.set(i, (peer, c));
                assert(self.intrusions[i as int] == (peer, c));
            },
            None => {
                self.intrusions.push((peer, c));
                assert(self.intrusions[before.len() as int] == (peer, c));
            },
        }
        assert forall|p: u32| #[trigger]
            self.counts().contains_key(p) == old(self).counts().insert(peer, c).contains_key(p) by {
            if old(self).counts().contains_key(p) {
                let i = choose|i: int| 0 <= i < before.len() && before[i].0 == p;
                assert(self.intrusions[i].0 == p);
            }
        }
        assert forall|p: u32| #[trigger] self.counts().contains_key(p) implies self.counts()[p]
            == old(self).counts().insert(peer, c)[p] by {
            let j = choose|i: int| 0 <= i < self.intrusions.len() && self.intrusions[i].0 == p;
            if p != peer {
                assert(before[j].0 == p);
            }
        }
        assert(self.counts() =~= old(self).counts().insert(peer, c));
        assert(self.log() =~= old(self).log());
    }

    /// Creates zero counts for `peer` where it has none.
    pub fn init_data(&mut self, peer: u32)
        requires
            old(self).wf(),
        ensures
            final(self).wf(),
            final(self).counts() == (if old(self).counts().contains_key(peer) {
                old(self).counts()
            } else {
                old(self).counts().insert(peer, zero_counts())
            }),
            final(self).log() == old(self).log(),
            final(self).threshold_spec() == old(self).threshold_spec(),
    {
        if self.find_peer(peer).is_none() {
            self.put_counts(
                peer,
                IntrusionCounts { schnorr_failures: 0, mac_failures: 0, combined_failures: 0 },
            );
        }
    }

    /// Records a rejection from `peer`: one more failure of each check that
    /// failed, and of both together where both failed.
    pub fn manage_intrusion(&mut self, peer: u32, schnorr_ok: bool, mac_ok: bool)
        requires
            old(self).wf(),
        ensures
            final(self).wf(),
            final(self).counts() == old(self).counts().insert(
                peer,
                counts_after(old(self).counts_of(peer), schnorr_ok, mac_ok),
            ),
            final(self).log() == old(self).log(),
            final(self).threshold_spec() == old(self).threshold_spec(),
    {
        let c = match self.find_peer(peer) {
            Some(i) => self.intrusions[i].1,
            None => IntrusionCounts { schnorr_failures: 0, mac_failures: 0, combined_failures: 0 },
        };
        let next = IntrusionCounts {
            schnorr_failures: bump_count(c.schnorr_failures, !schnorr_ok),
            mac_failures: bump_count(c.mac_failures, !mac_ok),
            combined_failures: bump_count(c.combined_failures, !schnorr_ok && !mac_ok),
        };
        self.put_counts(peer, next);
    }

    /// Whether each count of `peer` (Schnorr failures, MAC failures, both)
    /// exceeds the threshold.
    pub fn check_intrusion(&self, peer: u32) -> (r: (bool, bool, bool))
        requires
            self.wf(),
        ensures
            r == (self.counts_of(peer).schnorr_failures > self.threshold_spec(),
            self.counts_of(peer).mac_failures > self.threshold_spec(),
            self.counts_of(peer).combined_failures > self.threshold_spec()),
    {
        let c = match self.find_peer(peer) {
            Some(i) => self.intrusions[i].1,
            None => IntrusionCounts { schnorr_failures: 0, mac_failures: 0, combined_failures: 0 },
        };
        (c.schnorr_failures > self.threshold, c.mac_failures > self.threshold, c.combined_failures
            > self.threshold)
    }
}

fn bump_count(n: u64, yes: bool) -> (r: u64)
    ensures
        r == bump(n, yes),
{
    if yes && n < u64::MAX {
        n + 1
    } else {
        n
    }
}

/// Whether each count of `peer` exceeds the store's threshold.
pub fn check_intrusion(store: &ReplayStore, peer: u32) -> (r: (bool, bool, bool))
    requires
        store.wf(),
    ensures
        r == (store.counts_of(peer).schnorr_failures > store.threshold_spec(),
        store.counts_of(peer).mac_failures > store.threshold_spec(),
        store.counts_of(peer).combined_failures > store.threshold_spec()),
{
    store.check_intrusion(peer)
}

/// Creates zero counts for `peer` where it has none.
pub fn init_intrusion_counters(store: &mut ReplayStore, peer: u32)
    requires
        old(store).wf(),
    ensures
        final(store).wf(),
        final(store).counts() == (if old(store).counts().contains_key(peer) {
            old(store).counts()
        } else {
            old(store).counts().insert(peer, zero_counts())
        }),
        final(store).log() == old(store).log(),
        final(store).threshold_spec() == old(store).threshold_spec(),
{
    store.init_data(peer)
}

} // verus!
