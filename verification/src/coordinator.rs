//! Single-flight coordination of derivative generation: a registry of
//! in-flight derivative keys with the waiters registered for each, so that
//! at most one generation runs per key and every concurrent caller for that
//! key observes the one shared result.

use vstd::prelude::*;

verus! {

/// The unit of deduplication: one derivative is identified by the catalog
/// entry it is made from and the requested dimensions.
#[derive(Clone, Copy, PartialEq, Eq, Structural, Debug)]
pub struct DerivKey {
    pub id: i64,
    pub w: u32,
    pub h: u32,
}

/// What a caller becomes when it asks to generate a key: the leader, which
/// must run the generation, or a follower, which holds a ticket and waits
/// for the leader's result.
#[derive(Clone, Copy, PartialEq, Eq, Structural, Debug)]
pub enum RegisterOutcome {
    Leader,
    Follower(u64),
}

struct FlightEntry {
    key: DerivKey,
    waiters: Vec<u64>,
}

/// The in-flight registry: a mapping from derivative key to the tickets of
/// the waiters registered for it. A key is present exactly while a
/// generation for it is running.
pub struct InFlightRegistry {
    entries: Vec<FlightEntry>,
}

/// Registering on a registry that does not hold the key makes the caller
/// the leader and records the key with no waiters; registering on a held
/// key appends one fresh waiter ticket.
pub open spec fn spec_register_map(
    m: Map<DerivKey, Seq<u64>>,
    k: DerivKey,
) -> Map<DerivKey, Seq<u64>> {
    if m.dom().contains(k) {
        m.insert(k, m[k].push(m[k].len() as u64))
    } else {
        m.insert(k, Seq::empty())
    }
}

/// A registration leads exactly when no generation for the key is running.
pub open spec fn spec_is_leader(m: Map<DerivKey, Seq<u64>>, k: DerivKey) -> bool {
    !m.dom().contains(k)
}

/// Completion removes the key, whatever the outcome was.
pub open spec fn spec_complete_map(
    m: Map<DerivKey, Seq<u64>>,
    k: DerivKey,
) -> Map<DerivKey, Seq<u64>> {
    m.remove(k)
}

impl View for InFlightRegistry {
    type V = Map<DerivKey, Seq<u64>>;

    closed spec fn view(&self) -> Map<DerivKey, Seq<u64>> {
        Map::new(
            |k: DerivKey|
                exists|i: int|
                    0 <= i < self.entries@.len() && (#[trigger] self.entries@[i]).key == k,
            |k: DerivKey|
                self.entries@[choose|i: int|
                    0 <= i < self.entries@.len() && (#[trigger] self.entries@[i]).key
                        == k].waiters@,
        )
    }
}

impl InFlightRegistry {
    /// Keys are registered at most once, and the tickets of each entry are
    /// exactly the positions in its waiter list, so no two waiters of one
    /// key share a ticket.
    pub closed spec fn wf(&self) -> bool {
        &&& forall|i: int, j: int|
            0 <= i < j < self.entries@.len() ==> (#[trigger] self.entries@[i]).key != (
            #[trigger] self.entries@[j]).key
        &&& forall|i: int, t: int|
            0 <= i < self.entries@.len() && 0 <= t < self.entries@[i].waiters@.len()
                ==> #[trigger] self.entries@[i].waiters@[t] == t as u64
    }

    proof fn lemma_entry_view(&self, i: int)
        requires
            self.wf(),
            0 <= i < self.entries@.len(),
        ensures
            self@.dom().contains(self.entries@[i].key),
            self@[self.entries@[i].key] == self.entries@[i].waiters@,
    {
        let k = self.entries@[i].key;
        assert(0 <= i < self.entries@.len() && self.entries@[i].key == k);
        let j = choose|j: int|
            0 <= j < self.entries@.len() && (#[trigger] self.entries@[j]).key == k;
        if i != j {
            assert(false);
        }
    }

    /// An empty registry: no key is in flight.
    pub fn new() -> (r: InFlightRegistry)
        ensures
            r.wf(),
            r@ == Map::<DerivKey, Seq<u64>>::empty(),
    {
        let r = InFlightRegistry { entries: Vec::new() };
        proof {
            assert(r@ =~= Map::<DerivKey, Seq<u64>>::empty());
        }
        r
    }

    fn find_key(&self, key: DerivKey) -> (r: Option<usize>)
        ensures
            match r {
                Some(i) => i < self.entries@.len() && self.entries@[i as int].key == key,
                None => forall|i: int|
                    0 <= i < self.entries@.len() ==> (#[trigger] self.entries@[i]).key != key,
            },
    {
        let mut i: usize = 0;
        while i < self.entries.len()
            invariant
                i <= self.entries@.len(),
                forall|j: int| 0 <= j < i ==> (#[trigger] self.entries@[j]).key != key,
            decreases self.entries@.len() - i,
        {
            if self.entries[i].key == key {
                return Some(i);
            }
            i = i + 1;
        }
        None
    }

    /// Whether a generation for `key` is currently registered.
    pub fn is_in_flight(&self, key: DerivKey) -> (r: bool)
        requires
            self.wf(),
        ensures
            r == self@.dom().contains(key),
    {
        let found = self.find_key(key);
        proof {
            if let Some(i) = found {
                self.lemma_entry_view(i as int);
            }
        }
        found.is_some()
    }

    /// Joins the in-flight window for `key`: the caller becomes leader if
    /// no generation for the key is running, else a follower holding a
    /// ticket that no other waiter of this window holds.
    pub fn register(&mut self, key: DerivKey) -> (r: RegisterOutcome)
        requires
            old(self).wf(),
        ensures
            final(self).wf(),
            final(self)@ == spec_register_map(old(self)@, key),
            (r is Leader) == spec_is_leader(old(self)@, key),
            match r {
                RegisterOutcome::Leader => !old(self)@.dom().contains(key) && final(self)@
                    == old(self)@.insert(key, Seq::<u64>::empty()),
                RegisterOutcome::Follower(t) => old(self)@.dom().contains(key) && t == old(
                    self,
                )@[key].len() && !old(self)@[key].contains(t) && final(self)@ == old(
                    self,
                )@.insert(key, old(self)@[key].push(t)),
            },
    {
        let found = self.find_key(key);
        match found {
            None => {
                let ghost pre = *self;
                self.entries.push(FlightEntry { key, waiters: Vec::new() });
                proof {
                    let n = pre.entries@.len() as int;
                    assert(self.entries@.len() == n + 1);
                    assert(self.entries@[n].key == key);
                    assert(forall|j: int| 0 <= j < n ==> self.entries@[j] == pre.entries@[j]);
                    assert(self.wf());
                    assert(!pre@.dom().contains(key));
                    assert(self@ =~= pre@.insert(key, Seq::<u64>::empty())) by {
                        assert forall|k: DerivKey| #[trigger]
                            self@.dom().contains(k) implies pre@.insert(
                            key,
                            Seq::<u64>::empty(),
                        ).dom().contains(k) by {
                            let i = choose|i: int|
                                0 <= i < self.entries@.len() && (#[trigger] self.entries@[i]).key
                                    == k;
                            if i < n {
                                pre.lemma_entry_view(i);
                            }
                        }
                        assert forall|k: DerivKey| #[trigger]
                            pre@.insert(key, Seq::<u64>::empty()).dom().contains(
                                k,
                            ) implies self@.dom().contains(k) by {
                            if k == key {
                                self.lemma_entry_view(n);
                            } else {
                                let i = choose|i: int|
                                    0 <= i < pre.entries@.len() && (#[trigger] pre.entries@[i]).key
                                        == k;
                                self.lemma_entry_view(i);
                            }
                        }
                        assert forall|k: DerivKey| #[trigger]
                            self@.dom().contains(k) implies self@[k] == pre@.insert(
                            key,
                            Seq::<u64>::empty(),
                        )[k] by {
                            if k == key {
                                self.lemma_entry_view(n);
                            } else {
                                let i = choose|i: int|
                                    0 <= i < self.entries@.len() && (#[trigger] self.entries@[i]).key
                                        == k;
                                self.lemma_entry_view(i);
                                assert(i < n);
                                pre.lemma_entry_view(i);
                            }
                        }
                    }
                }
                RegisterOutcome::Leader
            },
            Some(i) => {
                let ghost pre = *self;
                let mut entry = self.entries.remove(i);
                let t = entry.waiters.len() as u64;
                entry.waiters.push(t);
                self.entries.push(entry);
                proof {
                    let n = pre.entries@.len() as int;
                    let ii = i as int;
                    pre.lemma_entry_view(ii);
                    let old_w = pre.entries@[ii].waiters@;
                    assert(self.entries@.len() == n);
                    assert(self.entries@[n - 1].key == key);
                    assert(self.entries@[n - 1].waiters@ == old_w.push(t));
                    // positions below i keep their entries; positions from i
                    // to n-2 hold what followed them before
                    assert(forall|j: int| 0 <= j < ii ==> self.entries@[j] == pre.entries@[j]);
                    assert(forall|j: int|
                        ii <= j < n - 1 ==> self.entries@[j] == pre.entries@[j + 1]);
                    assert(self.wf()) by {
                        assert forall|a: int, b: int|
                            0 <= a < b < self.entries@.len() implies (
                        #[trigger] self.entries@[a]).key != (#[trigger] self.entries@[b]).key by {
                            if b < n - 1 {
                                // both map into distinct old positions
                            } else {
                                // b is the re-inserted entry for `key`
                            }
                        }
                    }
                    assert(self@ =~= pre@.insert(key, old_w.push(t))) by {
                        assert forall|k: DerivKey| #[trigger]
                            self@.dom().contains(k) implies pre@.insert(
                            key,
                            old_w.push(t),
                        ).dom().contains(k) by {
                            let a = choose|a: int|
                                0 <= a < self.entries@.len() && (#[trigger] self.entries@[a]).key
                                    == k;
                            if a < ii {
                                pre.lemma_entry_view(a);
                            } else if a < n - 1 {
                                pre.lemma_entry_view(a + 1);
                            }
                        }
                        assert forall|k: DerivKey| #[trigger]
                            pre@.insert(key, old_w.push(t)).dom().contains(
                                k,
                            ) implies self@.dom().contains(k) by {
                            if k == key {
                                self.lemma_entry_view(n - 1);
                            } else {
                                let a = choose|a: int|
                                    0 <= a < pre.entries@.len() && (#[trigger] pre.entries@[a]).key
                                        == k;
                                if a < ii {
                                    self.lemma_entry_view(a);
                                } else {
                                    assert(a != ii);
                                    self.lemma_entry_view(a - 1);
                                }
                            }
                        }
                        assert forall|k: DerivKey| #[trigger]
                            self@.dom().contains(k) implies self@[k] == pre@.insert(
                            key,
                            old_w.push(t),
                        )[k] by {
                            if k == key {
                                self.lemma_entry_view(n - 1);
                            } else {
                                let a = choose|a: int|
                                    0 <= a < self.entries@.len() && (#[trigger] self.entries@[a]).key
                                        == k;
                                self.lemma_entry_view(a);
                                if a < ii {
                                    pre.lemma_entry_view(a);
                                } else {
                                    assert(a < n - 1);
                                    pre.lemma_entry_view(a + 1);
                                }
                            }
                        }
                    }
                    assert(!old_w.contains(t)) by {
                        if old_w.contains(t) {
                            let x = choose|x: int| 0 <= x < old_w.len() && old_w[x] == t;
                            assert(old_w[x] == x as u64);
                        }
                    }
                }
                RegisterOutcome::Follower(t)
            },
        }
    }

    /// Ends the in-flight window for `key`: removes it from the registry
    /// and hands back the tickets of every waiter that registered during
    /// the window, so the one result can be delivered to each of them.
    pub fn complete(&mut self, key: DerivKey) -> (w: Option<Vec<u64>>)
        requires
            old(self).wf(),
        ensures
            final(self).wf(),
            final(self)@ == spec_complete_map(old(self)@, key),
            match w {
                Some(v) => old(self)@.dom().contains(key) && v@ == old(self)@[key],
                None => !old(self)@.dom().contains(key),
            },
    {
        let found = self.find_key(key);
        match found {
            None => {
                proof {
                    assert(!old(self)@.dom().contains(key));
                    assert(self@ =~= old(self)@.remove(key));
                }
                None
            },
            Some(i) => {
                let ghost pre = *self;
                let entry = self.entries.remove(i);
                proof {
                    let n = pre.entries@.len() as int;
                    let ii = i as int;
                    pre.lemma_entry_view(ii);
                    assert(forall|j: int| 0 <= j < ii ==> self.entries@[j] == pre.entries@[j]);
                    assert(forall|j: int|
                        ii <= j < n - 1 ==> self.entries@[j] == pre.entries@[j + 1]);
                    assert(self.wf());
                    assert(self@ =~= pre@.remove(key)) by {
                        assert forall|k: DerivKey| #[trigger]
                            self@.dom().contains(k) implies pre@.remove(key).dom().contains(k) by {
                            let a = choose|a: int|
                                0 <= a < self.entries@.len() && (#[trigger] self.entries@[a]).key
                                    == k;
                            if a < ii {
                                pre.lemma_entry_view(a);
                            } else {
                                pre.lemma_entry_view(a + 1);
                            }
                        }
                        assert forall|k: DerivKey| #[trigger]
                            pre@.remove(key).dom().contains(k) implies self@.dom().contains(k) by {
                            let a = choose|a: int|
                                0 <= a < pre.entries@.len() && (#[trigger] pre.entries@[a]).key
                                    == k;
                            assert(a != ii);
                            if a < ii {
                                self.lemma_entry_view(a);
                            } else {
                                self.lemma_entry_view(a - 1);
                            }
                        }
                        assert forall|k: DerivKey| #[trigger]
                            self@.dom().contains(k) implies self@[k] == pre@.remove(key)[k] by {
                            let a = choose|a: int|
                                0 <= a < self.entries@.len() && (#[trigger] self.entries@[a]).key
                                    == k;
                            self.lemma_entry_view(a);
                            if a < ii {
                                pre.lemma_entry_view(a);
                            } else {
                                pre.lemma_entry_view(a + 1);
                            }
                        }
                    }
                }
                Some(entry.waiters)
            },
        }
    }
}

/// The registry after the leader's registration and `n` follower
/// registrations for the same key.
pub open spec fn spec_register_n(
    m: Map<DerivKey, Seq<u64>>,
    k: DerivKey,
    n: nat,
) -> Map<DerivKey, Seq<u64>>
    decreases n,
{
    if n == 0 {
        m
    } else {
        spec_register_map(spec_register_n(m, k, (n - 1) as nat), k)
    }
}

/// Single-flight, fan-out, and fresh retry in one window. Starting from a
/// registry in which `key` is not in flight, the first registration leads
/// and every one of the `n` registrations that follow it in the window is
/// a follower; at the end of the window the key maps to `n` pairwise
/// distinct tickets, one per follower, so completion hands every follower
/// its own copy of the leader's one result; and completing removes the
/// key, so the next registration for it leads a fresh attempt.
pub proof fn lemma_single_flight_window(m: Map<DerivKey, Seq<u64>>, key: DerivKey, n: nat)
    requires
        !m.dom().contains(key),
    ensures
        spec_is_leader(m, key),
        forall|j: nat|
            j < n ==> !spec_is_leader(
                #[trigger] spec_register_n(spec_register_map(m, key), key, j),
                key,
            ),
        spec_register_n(spec_register_map(m, key), key, n).dom().contains(key),
        spec_register_n(spec_register_map(m, key), key, n)[key] =~= Seq::new(n, |i: int| i as u64),
        spec_is_leader(
            spec_complete_map(spec_register_n(spec_register_map(m, key), key, n), key),
            key,
        ),
    decreases n,
{
    let m1 = spec_register_map(m, key);
    if n == 0 {
        assert(m1[key] =~= Seq::new(0, |i: int| i as u64));
    } else {
        lemma_single_flight_window(m, key, (n - 1) as nat);
        let prev = spec_register_n(m1, key, (n - 1) as nat);
        assert(spec_register_n(m1, key, n) == spec_register_map(prev, key));
        assert(prev[key] =~= Seq::new((n - 1) as nat, |i: int| i as u64));
        assert(spec_register_map(prev, key)[key] =~= Seq::new(n, |i: int| i as u64));
        assert forall|j: nat| j < n implies !spec_is_leader(
            #[trigger] spec_register_n(m1, key, j),
            key,
        ) by {
            if j == n - 1 {
                assert(spec_register_n(m1, key, j) == prev);
            }
        }
    }
}

/// The tickets handed out in one window are pairwise distinct: every
/// follower can be given its own copy of the result.
pub proof fn lemma_window_tickets_distinct(m: Map<DerivKey, Seq<u64>>, key: DerivKey, n: nat)
    requires
        !m.dom().contains(key),
        n <= u64::MAX,
    ensures
        forall|a: int, b: int|
            0 <= a < b < spec_register_n(spec_register_map(m, key), key, n)[key].len()
                ==> spec_register_n(spec_register_map(m, key), key, n)[key][a]
                != spec_register_n(spec_register_map(m, key), key, n)[key][b],
{
    lemma_single_flight_window(m, key, n);
    let w = spec_register_n(spec_register_map(m, key), key, n)[key];
    assert forall|a: int, b: int| 0 <= a < b < w.len() implies w[a] != w[b] by {
        assert(w[a] == a as u64);
        assert(w[b] == b as u64);
    }
}

/// Running tally of a batch of coordinated generations.
#[derive(Clone, Copy, PartialEq, Eq, Structural, Debug)]
pub struct Progress {
    pub total: usize,
    pub done: usize,
    pub failed: usize,
}

impl Progress {
    /// Every outcome recorded so far is either a success or a failure, and
    /// no more outcomes were recorded than jobs exist.
    pub open spec fn wf(&self) -> bool {
        self.done + self.failed <= self.total
    }

    /// A tally over `total` jobs with nothing recorded yet.
    pub fn new(total: usize) -> (r: Progress)
        ensures
            r.wf(),
            r.total == total,
            r.done == 0,
            r.failed == 0,
    {
        Progress { total, done: 0, failed: 0 }
    }

    /// Records one job's outcome.
    pub fn record(&mut self, ok: bool)
        requires
            old(self).wf(),
            old(self).done + old(self).failed < old(self).total,
        ensures
            final(self).wf(),
            final(self).total == old(self).total,
            final(self).done == old(self).done + if ok {
                1int
            } else {
                0int
            },
            final(self).failed == old(self).failed + if ok {
                0int
            } else {
                1int
            },
    {
        if ok {
            self.done = self.done + 1;
        } else {
            self.failed = self.failed + 1;
        }
    }

    /// Whether every job's outcome has been recorded.
    pub fn finished(&self) -> (r: bool)
        requires
            self.wf(),
        ensures
            r == (self.done + self.failed == self.total),
    {
        self.done + self.failed == self.total
    }
}

} // verus!
