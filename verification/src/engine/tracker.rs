//! The engine's two books: the set of probes in flight, and the number of
//! timeouts each probe has been through. Both are ordered collections keyed
//! by the probe's family, address and port.
use vstd::prelude::*;
use vstd::relations::injective_on;
use vstd::set_lib::lemma_map_size;
use std::collections::BTreeMap;
use std::collections::BTreeSet;
use crate::net::Probe;

verus! {

/// A finite set of probes.
pub struct ProbeSet {
    keys: BTreeSet<(u8, u128, u16)>,
}

impl View for ProbeSet {
    type V = Set<Probe>;

    closed spec fn view(&self) -> Set<Probe> {
        self.keys@.map(|key: (u8, u128, u16)| Probe::of_key(key))
    }
}

impl ProbeSet {
    /// The collection is finite and every key in it is the key of a probe.
    pub closed spec fn wf(&self) -> bool {
        &&& self.keys@.finite()
        &&& forall|key: (u8, u128, u16)| self.keys@.contains(key) ==> Probe::valid_key(key)
    }

    proof fn lemma_view(&self)
        requires
            self.wf(),
        ensures
            self@.finite(),
            self@.len() == self.keys@.len(),
            forall|probe: Probe| self@.contains(probe) <==> self.keys@.contains(probe.spec_key()),
    {
        let decode = |key: (u8, u128, u16)| Probe::of_key(key);
        assert(injective_on(decode, self.keys@)) by {
            assert forall|a: (u8, u128, u16), b: (u8, u128, u16)|
                self.keys@.contains(a) && self.keys@.contains(b) && #[trigger] decode(a)
                    == #[trigger] decode(b) implies a == b by {
                assert(Probe::valid_key(a) && Probe::valid_key(b));
            }
        }
        lemma_map_size(self.keys@, self@, decode);
        assert forall|probe: Probe| self@.contains(probe) <==> self.keys@.contains(
            probe.spec_key(),
        ) by {
            if self.keys@.contains(probe.spec_key()) {
                probe.lemma_key_round_trip();
                assert(decode(probe.spec_key()) == probe);
            }
            if self@.contains(probe) {
                let key = choose|key: (u8, u128, u16)|
                    self.keys@.contains(key) && decode(key) == probe;
                assert(Probe::valid_key(key));
            }
        }
    }

    /// The empty set.
    pub fn new() -> (set: Self)
        ensures
            set.wf(),
            set@ == Set::<Probe>::empty(),
    {
        let set = ProbeSet { keys: BTreeSet::new() };
        proof {
            set.lemma_view();
            assert(set@ =~= Set::<Probe>::empty());
        }
        set
    }

    /// The number of probes in the set.
    pub fn len(&self) -> (n: usize)
        requires
            self.wf(),
        ensures
            n == self@.len(),
            self@.finite(),
    {
        proof {
            self.lemma_view();
        }
        self.keys.len()
    }

    /// Whether the set holds no probe.
    pub fn is_empty(&self) -> (empty: bool)
        requires
            self.wf(),
        ensures
            empty == (self@.len() == 0),
            empty == (self@ == Set::<Probe>::empty()),
            self@.finite(),
    {
        proof {
            self.lemma_view();
            if self@.len() == 0 {
                assert(self@ =~= Set::<Probe>::empty());
            }
        }
        self.keys.len() == 0
    }

    /// Whether `probe` is in the set.
    pub fn contains(&self, probe: Probe) -> (found: bool)
        requires
            self.wf(),
        ensures
            found == self@.contains(probe),
    {
        proof {
            self.lemma_view();
        }
        let key = probe.key();
        self.keys.contains(&key)
    }

    /// Puts `probe` into the set. Returns whether it was new.
    pub fn insert(&mut self, probe: Probe) -> (added: bool)
        requires
            old(self).wf(),
        ensures
            final(self).wf(),
            final(self)@ == old(self)@.insert(probe),
            added == !old(self)@.contains(probe),
    {
        proof {
            self.lemma_view();
            probe.lemma_key_round_trip();
        }
        let added = self.keys.insert(probe.key());
        proof {
            self.lemma_view();
            assert(self@ =~= old(self)@.insert(probe)) by {
                assert forall|other: Probe| self@.contains(other) <==> old(self)@.insert(
                    probe,
                ).contains(other) by {
                    other.lemma_key_round_trip();
                }
            }
        }
        added
    }

    /// Takes `probe` out of the set. Returns whether it was there.
    pub fn remove(&mut self, probe: Probe) -> (removed: bool)
        requires
            old(self).wf(),
        ensures
            final(self).wf(),
            final(self)@ == old(self)@.remove(probe),
            removed == old(self)@.contains(probe),
    {
        proof {
            self.lemma_view();
            probe.lemma_key_round_trip();
        }
        let key = probe.key();
        let removed = self.keys.remove(&key);
        proof {
            self.lemma_view();
            assert(self@ =~= old(self)@.remove(probe)) by {
                assert forall|other: Probe| self@.contains(other) <==> old(self)@.remove(
                    probe,
                ).contains(other) by {
                    other.lemma_key_round_trip();
                }
            }
        }
        removed
    }

    /// Puts every probe of `probes` into the set.
    pub fn extend(&mut self, probes: &Vec<Probe>)
        requires
            old(self).wf(),
        ensures
            final(self).wf(),
            final(self)@ == old(self)@.union(probes@.to_set()),
    {
        let mut i: usize = 0;
        while i < probes.len()
            invariant
                0 <= i <= probes.len(),
                self.wf(),
                self@ == old(self)@.union(probes@.take(i as int).to_set()),
            decreases probes.len() - i,
        {
            let ghost before = self@;
            self.insert(probes[i]);
            proof {
                let upto = probes@.take(i as int);
                let next = probes@.take(i + 1);
                assert(next =~= upto.push(probes@[i as int]));
                assert(next.to_set() =~= upto.to_set().insert(probes@[i as int])) by {
                    assert forall|p: Probe| next.to_set().contains(p) <==> upto.to_set().insert(
                        probes@[i as int],
                    ).contains(p) by {
                        if next.contains(p) {
                            let j = choose|j: int| 0 <= j < next.len() && next[j] == p;
                            if j < i {
                                assert(upto[j] == p);
                            }
                        }
                        if upto.contains(p) {
                            let j = choose|j: int| 0 <= j < upto.len() && upto[j] == p;
                            assert(next[j] == p);
                        }
                        assert(next[i as int] == probes@[i as int]);
                    }
                }
                assert(self@ =~= old(self)@.union(next.to_set()));
            }
            i = i + 1;
        }
        proof {
            assert(probes@.take(i as int) =~= probes@);
        }
    }
}

/// For each probe that has timed out and is to be sent again, the number of
/// timeouts it has been through.
pub struct RetryTracker {
    counts: BTreeMap<(u8, u128, u16), u8>,
}

impl View for RetryTracker {
    type V = Map<Probe, u8>;

    closed spec fn view(&self) -> Map<Probe, u8> {
        Map::new(
            |probe: Probe| self.counts@.contains_key(probe.spec_key()),
            |probe: Probe| self.counts@[probe.spec_key()],
        )
    }
}

impl RetryTracker {
    /// A tracker that knows of no probe.
    pub fn new() -> (tracker: Self)
        ensures
            tracker@ == Map::<Probe, u8>::empty(),
    {
        let tracker = RetryTracker { counts: BTreeMap::new() };
        proof {
            assert(tracker@ =~= Map::<Probe, u8>::empty());
        }
        tracker
    }

    /// The number of timeouts recorded for `probe`, if any is.
    pub fn get(&self, probe: Probe) -> (count: Option<u8>)
        ensures
            count == if self@.contains_key(probe) {
                Some(self@[probe])
            } else {
                None
            },
    {
        let key = probe.key();
        match self.counts.get(&key) {
            Some(count) => Some(*count),
            None => None,
        }
    }

    /// Records `count` timeouts for `probe`.
    pub fn insert(&mut self, probe: Probe, count: u8)
        ensures
            final(self)@ == old(self)@.insert(probe, count),
    {
        proof {
            probe.lemma_key_round_trip();
        }
        self.counts.insert(probe.key(), count);
        proof {
            assert(self@ =~= old(self)@.insert(probe, count)) by {
                assert forall|other: Probe| #[trigger] self@.contains_key(other) <==> old(self)@.insert(
                    probe,
                    count,
                ).contains_key(other) by {
                    other.lemma_key_round_trip();
                }
                assert forall|other: Probe| self@.contains_key(other) implies #[trigger] self@[other]
                    == old(self)@.insert(probe, count)[other] by {
                    other.lemma_key_round_trip();
                }
            }
        }
    }

    /// Forgets `probe`.
    pub fn remove(&mut self, probe: Probe)
        ensures
            final(self)@ == old(self)@.remove(probe),
    {
        proof {
            probe.lemma_key_round_trip();
        }
        let key = probe.key();
        self.counts.remove(&key);
        proof {
            assert(self@ =~= old(self)@.remove(probe)) by {
                assert forall|other: Probe| #[trigger] self@.contains_key(other) <==> old(self)@.remove(
                    probe,
                ).contains_key(other) by {
                    other.lemma_key_round_trip();
                }
                assert forall|other: Probe| self@.contains_key(other) implies #[trigger] self@[other]
                    == old(self)@.remove(probe)[other] by {
                    other.lemma_key_round_trip();
                }
            }
        }
    }
}

} // verus!
