//! The capability cache: memoisation and coalescence of outbound lookups.
//!
//! Idempotent capability calls are keyed by a fingerprint of their inputs.
//! The cache maps each fingerprint to one of two states: a producer is in
//! flight, or a value is installed. A caller that finds nothing becomes the
//! leader and runs the producer; a caller that finds an in-flight producer
//! attaches to it instead of starting a second one, so at most one producer
//! runs per fingerprint. Failed producers install nothing — the next caller
//! retries — and installed entries are never replaced.

use vstd::prelude::*;

use crate::errors::CapabilityError;

verus! {

/// The state the cache holds for one fingerprint.
pub enum CacheSlot {
    /// A producer is running; newcomers attach to its completion.
    InFlight,
    /// The producer's payload, immutable once installed.
    Done(Vec<u8>),
}

/// The mathematical value of a [`CacheSlot`].
pub ghost enum SlotView {
    InFlight,
    Done(Seq<u8>),
}

impl View for CacheSlot {
    type V = SlotView;

    open spec fn view(&self) -> SlotView {
        match self {
            CacheSlot::InFlight => SlotView::InFlight,
            CacheSlot::Done(p) => SlotView::Done(p@),
        }
    }
}

/// The slot the entry sequence holds for fingerprint `k`: the first entry
/// with that key, if any.
pub open spec fn spec_slot(s: Seq<(Vec<u8>, CacheSlot)>, k: Seq<u8>) -> Option<SlotView>
    decreases s.len(),
{
    if s.len() == 0 {
        None
    } else if s[0].0@ == k {
        Some(s[0].1@)
    } else {
        spec_slot(s.drop_first(), k)
    }
}

/// What one `get_or_compute` round does to a fingerprint's slot, and what
/// its caller observes.
pub enum CacheDecision {
    /// Nothing was cached: the caller runs the producer.
    Leader,
    /// A producer is already running: the caller attaches to it.
    Attached,
    /// A value is installed: the caller takes it, marked as cached.
    Hit(Vec<u8>),
}

/// The capability cache.
pub struct CapabilityCache {
    /// Fingerprint/slot pairs, each fingerprint at most once.
    pub entries: Vec<(Vec<u8>, CacheSlot)>,
}

proof fn lemma_slot_of_index(s: Seq<(Vec<u8>, CacheSlot)>, k: Seq<u8>, i: int)
    requires
        0 <= i < s.len(),
        s[i].0@ == k,
        forall|j: int| 0 <= j < i ==> s[j].0@ != k,
    ensures
        spec_slot(s, k) == Some(s[i].1@),
    decreases i,
{
    if i > 0 {
        lemma_slot_of_index(s.drop_first(), k, i - 1);
    }
}

proof fn lemma_slot_none(s: Seq<(Vec<u8>, CacheSlot)>, k: Seq<u8>)
    requires
        forall|j: int| 0 <= j < s.len() ==> s[j].0@ != k,
    ensures
        spec_slot(s, k) is None,
    decreases s.len(),
{
    if s.len() > 0 {
        lemma_slot_none(s.drop_first(), k);
    }
}

proof fn lemma_slot_push(s: Seq<(Vec<u8>, CacheSlot)>, e: (Vec<u8>, CacheSlot), k: Seq<u8>)
    ensures
        spec_slot(s.push(e), k) == if spec_slot(s, k) is Some {
            spec_slot(s, k)
        } else if e.0@ == k {
            Some(e.1@)
        } else {
            None
        },
    decreases s.len(),
{
    if s.len() == 0 {
        assert(s.push(e)[0] == e);
        assert(s.push(e).drop_first() =~= Seq::<(Vec<u8>, CacheSlot)>::empty());
        assert(spec_slot(Seq::<(Vec<u8>, CacheSlot)>::empty(), k) is None);
    } else {
        assert(s.push(e)[0] == s[0]);
        assert(s.push(e).drop_first() =~= s.drop_first().push(e));
        lemma_slot_push(s.drop_first(), e, k);
    }
}

proof fn lemma_slot_update(
    s: Seq<(Vec<u8>, CacheSlot)>,
    i: int,
    e: (Vec<u8>, CacheSlot),
    k: Seq<u8>,
)
    requires
        0 <= i < s.len(),
        e.0@ == s[i].0@,
        forall|j: int| 0 <= j < i ==> s[j].0@ != s[i].0@,
    ensures
        spec_slot(s.update(i, e), k) == if k == s[i].0@ {
            Some(e.1@)
        } else {
            spec_slot(s, k)
        },
    decreases i,
{
    if i == 0 {
        assert(s.update(0, e)[0] == e);
        assert(s.update(0, e).drop_first() =~= s.drop_first());
    } else {
        assert(s.update(i, e)[0] == s[0]);
        assert(s.update(i, e).drop_first() =~= s.drop_first().update(i - 1, e));
        lemma_slot_update(s.drop_first(), i - 1, e, k);
    }
}

proof fn lemma_slot_remove(s: Seq<(Vec<u8>, CacheSlot)>, i: int, k: Seq<u8>)
    requires
        0 <= i < s.len(),
        forall|j: int| 0 <= j < i ==> s[j].0@ != s[i].0@,
        forall|j: int| i < j < s.len() ==> s[j].0@ != s[i].0@,
    ensures
        spec_slot(s.remove(i), k) == if k == s[i].0@ {
            None
        } else {
            spec_slot(s, k)
        },
    decreases i,
{
    if i == 0 {
        assert(s.remove(0) =~= s.drop_first());
        if k == s[0].0@ {
            lemma_slot_none(s.drop_first(), k);
        }
    } else {
        assert(s.remove(i)[0] == s[0]);
        assert(s.remove(i).drop_first() =~= s.drop_first().remove(i - 1));
        lemma_slot_remove(s.drop_first(), i - 1, k);
    }
}

/// Byte-for-byte equality of two fingerprints.
pub fn bytes_eq(a: &Vec<u8>, b: &Vec<u8>) -> (r: bool)
    ensures
        r == (a@ == b@),
{
    if a.len() != b.len() {
        proof {
            assert(a@ != b@);
        }
        return false;
    }
    let mut i: usize = 0;
    while i < a.len()
        invariant
            i <= a@.len(),
            a@.len() == b@.len(),
            forall|j: int| 0 <= j < i ==> a@[j] == b@[j],
        decreases a@.len() - i,
    {
        if a[i] != b[i] {
            return false;
        }
        i = i + 1;
    }
    proof {
        assert(a@ =~= b@);
    }
    true
}

impl CapabilityCache {
    /// Each fingerprint appears at most once.
    pub open spec fn wf(&self) -> bool {
        forall|j1: int, j2: int|
            0 <= j1 < j2 < self.entries@.len() ==> self.entries@[j1].0@ != self.entries@[j2].0@
    }

    /// The slot currently held for fingerprint `k`.
    pub open spec fn slot(&self, k: Seq<u8>) -> Option<SlotView> {
        spec_slot(self.entries@, k)
    }

    /// An empty cache.
    pub fn new() -> (r: CapabilityCache)
        ensures
            r.wf(),
            forall|k: Seq<u8>| r.slot(k) is None,
    {
        let r = CapabilityCache { entries: Vec::new() };
        proof {
            assert forall|k: Seq<u8>| r.slot(k) is None by {
                lemma_slot_none(r.entries@, k);
            }
        }
        r
    }

    /// The index of the entry for `key`, if any.
    fn find(&self, key: &Vec<u8>) -> (r: Option<usize>)
        ensures
            match r {
                Some(i) => 0 <= i < self.entries@.len() && self.entries@[i as int].0@ == key@ && (
                forall|j: int| 0 <= j < i ==> self.entries@[j].0@ != key@),
                None => forall|j: int| 0 <= j < self.entries@.len() ==> self.entries@[j].0@ != key@,
            },
    {
        let mut i: usize = 0;
        while i < self.entries.len()
            invariant
                i <= self.entries@.len(),
                forall|j: int| 0 <= j < i ==> self.entries@[j].0@ != key@,
            decreases self.entries@.len() - i,
        {
            if bytes_eq(&self.entries[i].0, key) {
                return Some(i);
            }
            i = i + 1;
        }
        None
    }

    /// Open one `get_or_compute` round for `key`. The caller becomes the
    /// leader — and owes a `complete` or `fail` — exactly when nothing is
    /// cached or in flight for the fingerprint; otherwise it attaches to
    /// the running producer or takes the installed value, and the cache is
    /// left untouched. At most one leader can therefore exist per
    /// fingerprint at any time.
    pub fn begin(&mut self, key: &Vec<u8>) -> (r: CacheDecision)
        requires
            old(self).wf(),
        ensures
            final(self).wf(),
            (r is Leader) <==> old(self).slot(key@) is None,
            match r {
                CacheDecision::Leader => {
                    &&& final(self).slot(key@) == Some(SlotView::InFlight)
                    &&& forall|k: Seq<u8>| k != key@ ==> final(self).slot(k) == old(self).slot(k)
                },
                CacheDecision::Attached => old(self).slot(key@) == Some(SlotView::InFlight)
                    && *final(self) == *old(self),
                CacheDecision::Hit(p) => old(self).slot(key@) == Some(SlotView::Done(p@))
                    && *final(self) == *old(self),
            },
    {
        match self.find(key) {
            Some(i) => {
                proof {
                    lemma_slot_of_index(self.entries@, key@, i as int);
                }
                match &self.entries[i].1 {
                    CacheSlot::InFlight => CacheDecision::Attached,
                    CacheSlot::Done(p) => CacheDecision::Hit(p.clone()),
                }
            },
            None => {
                let ghost before = self.entries@;
                self.entries.push((key.clone(), CacheSlot::InFlight));
                proof {
                    lemma_slot_none(before, key@);
                    let e = self.entries@.last();
                    assert(self.entries@ =~= before.push(e));
                    assert forall|k: Seq<u8>|
                        #![all_triggers]
                        self.slot(k) == if k == key@ {
                            Some(SlotView::InFlight)
                        } else {
                            spec_slot(before, k)
                        } by {
                        lemma_slot_push(before, e, k);
                    }
                }
                CacheDecision::Leader
            },
        }
    }

    /// The installed payload for `key`, if the slot holds one.
    pub fn lookup(&self, key: &Vec<u8>) -> (r: Option<Vec<u8>>)
        ensures
            match r {
                Some(p) => self.slot(key@) == Some(SlotView::Done(p@)),
                None => !(self.slot(key@) matches Some(SlotView::Done(_))),
            },
    {
        match self.find(key) {
            Some(i) => {
                proof {
                    lemma_slot_of_index(self.entries@, key@, i as int);
                }
                match &self.entries[i].1 {
                    CacheSlot::Done(p) => Some(p.clone()),
                    CacheSlot::InFlight => None,
                }
            },
            None => {
                proof {
                    lemma_slot_none(self.entries@, key@);
                }
                None
            },
        }
    }

    /// Install the leader's payload: the slot moves from in-flight to
    /// done, and every other fingerprint is untouched. Installed entries
    /// are never replaced: only an in-flight slot can be completed.
    pub fn complete(&mut self, key: &Vec<u8>, payload: Vec<u8>)
        requires
            old(self).wf(),
            old(self).slot(key@) == Some(SlotView::InFlight),
        ensures
            final(self).wf(),
            final(self).slot(key@) == Some(SlotView::Done(payload@)),
            forall|k: Seq<u8>| k != key@ ==> final(self).slot(k) == old(self).slot(k),
    {
        let ghost before = self.entries@;
        match self.find(key) {
            Some(i) => {
                let entry = (key.clone(), CacheSlot::Done(payload));
                proof {
                    lemma_slot_of_index(before, key@, i as int);
                }
                self.entries.set(i, entry);
                proof {
                    let e = self.entries@[i as int];
                    assert(self.entries@ =~= before.update(i as int, e));
                    assert forall|k: Seq<u8>|
                        #![all_triggers]
                        self.slot(k) == if k == key@ {
                            Some(SlotView::Done(payload@))
                        } else {
                            spec_slot(before, k)
                        } by {
                        lemma_slot_update(before, i as int, e, k);
                    }
                }
            },
            None => {
                // an in-flight slot implies an entry, so find cannot miss
                proof {
                    lemma_slot_none(before, key@);
                    assert(false);
                }
            },
        }
    }

    /// Drop the leader's in-flight record after a failed producer: no
    /// entry is installed, the next caller for this fingerprint retries,
    /// and every other fingerprint is untouched.
    pub fn fail(&mut self, key: &Vec<u8>)
        requires
            old(self).wf(),
            old(self).slot(key@) == Some(SlotView::InFlight),
        ensures
            final(self).wf(),
            final(self).slot(key@) is None,
            forall|k: Seq<u8>| k != key@ ==> final(self).slot(k) == old(self).slot(k),
    {
        let ghost before = self.entries@;
        match self.find(key) {
            Some(i) => {
                proof {
                    lemma_slot_of_index(before, key@, i as int);
                    assert forall|j: int|
                        i < j < before.len() implies before[j].0@ != before[i as int].0@ by {
                        assert(self.wf());
                    }
                }
                let _ = self.entries.remove(i);
                proof {
                    assert(self.entries@ =~= before.remove(i as int));
                    assert forall|k: Seq<u8>|
                        #![all_triggers]
                        self.slot(k) == if k == key@ {
                            None::<SlotView>
                        } else {
                            spec_slot(before, k)
                        } by {
                        lemma_slot_remove(before, i as int, k);
                    }
                }
            },
            None => {
                // an in-flight slot implies an entry, so find cannot miss
                proof {
                    lemma_slot_none(before, key@);
                    assert(false);
                }
            },
        }
    }
}

/// One synchronous `get_or_compute` round, with the producer's outcome
/// supplied by the caller: a cached payload is returned as was-cached;
/// otherwise the outcome is returned as fresh, installed only on success.
/// Two sequential rounds with the same fingerprint therefore observe
/// identical bytes, the first as `was_cached == false`, the second as
/// `was_cached == true`.
pub fn get_or_compute_sync(
    cache: &mut CapabilityCache,
    key: &Vec<u8>,
    produced: Result<Vec<u8>, CapabilityError>,
) -> (r: (Result<Vec<u8>, CapabilityError>, bool))
    requires
        old(cache).wf(),
        old(cache).slot(key@) != Some(SlotView::InFlight),
    ensures
        final(cache).wf(),
        forall|k: Seq<u8>| k != key@ ==> final(cache).slot(k) == old(cache).slot(k),
        match old(cache).slot(key@) {
            Some(SlotView::Done(p)) => {
                &&& r.1 == true
                &&& r.0 matches Ok(v) && v@ == p
                &&& final(cache).slot(key@) == old(cache).slot(key@)
            },
            _ => {
                &&& r.1 == false
                &&& match produced {
                    Ok(v) => r.0 matches Ok(rv) && rv@ == v@ && final(cache).slot(key@) == Some(
                        SlotView::Done(v@),
                    ),
                    Err(e) => r.0 == Err::<Vec<u8>, CapabilityError>(e) && final(cache).slot(key@)
                        is None,
                }
            },
        },
{
    match cache.begin(key) {
        CacheDecision::Hit(p) => (Ok(p), true),
        CacheDecision::Attached => {
            // excluded by the precondition: no producer is in flight
            proof {
                assert(false);
            }
            (produced, false)
        },
        CacheDecision::Leader => {
            match produced {
                Ok(v) => {
                    let out = v.clone();
                    proof {
                        assert(out@ =~= v@);
                    }
                    cache.complete(key, v);
                    (Ok(out), false)
                },
                Err(e) => {
                    cache.fail(key);
                    (Err(e), false)
                },
            }
        },
    }
}

} // verus!
