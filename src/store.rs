//! The frame store of one session: raw payloads keyed by sequence number.
use vstd::prelude::*;
use std::collections::HashMap;

verus! {

broadcast use vstd::std_specs::hash::group_hash_axioms;

/// Payloads of the stored sequence numbers in `[start, end]`, in ascending order;
/// missing sequence numbers are skipped.
pub open spec fn range_payloads(frames: Map<i32, Seq<u8>>, start: int, end: int) -> Seq<Seq<u8>>
    decreases end - start + 1,
{
    if end < start {
        Seq::empty()
    } else {
        let before = range_payloads(frames, start, end - 1);
        let key = #[verifier::truncate] (end as i32);
        if frames.contains_key(key) {
            before.push(frames[key])
        } else {
            before
        }
    }
}

/// The entries of `frames` whose sequence number is at least `bound`.
pub open spec fn retained(frames: Map<i32, Seq<u8>>, bound: i32) -> Map<i32, Seq<u8>> {
    Map::new(|k: i32| frames.contains_key(k) && k >= bound, |k: i32| frames[k])
}

pub struct FrameStore {
    frames: HashMap<i32, Vec<u8>>,
    /// The stored sequence numbers, each once, in order of first arrival.
    order: Vec<i32>,
}

impl FrameStore {
    /// The stored payloads by sequence number.
    pub closed spec fn frames(&self) -> Map<i32, Seq<u8>> {
        self.frames@.map_values(|v: Vec<u8>| v@)
    }

    /// `order` lists exactly the stored sequence numbers.
    pub closed spec fn wf(&self) -> bool {
        forall|k: i32| self.frames@.contains_key(k) <==> self.order@.contains(k)
    }

    pub fn new() -> (s: Self)
        ensures
            s.wf(),
            s.frames() == Map::<i32, Seq<u8>>::empty(),
    {
        let s = FrameStore { frames: HashMap::new(), order: Vec::new() };
        proof {
            assert(s.frames() =~= Map::<i32, Seq<u8>>::empty());
        }
        s
    }

    /// Stores a payload under its sequence number, replacing any earlier one.
    pub fn insert_message(&mut self, sequence_number: i32, payload: Vec<u8>)
        requires
            old(self).wf(),
        ensures
            final(self).wf(),
            final(self).frames() == old(self).frames().insert(sequence_number, payload@),
    {
        let ghost bytes = payload@;
        if !self.frames.contains_key(&sequence_number) {
            self.order.push(sequence_number);
        }
        self.frames.insert(sequence_number, payload);
        proof {
            assert forall|k: i32| self.frames@.contains_key(k) <==> self.order@.contains(k) by {
                if k == sequence_number {
                    if !old(self).frames@.contains_key(k) {
                        assert(self.order@.last() == k);
                    }
                } else if old(self).order@.contains(k) && !self.order@.contains(k) {
                    let i = choose|i: int| 0 <= i < old(self).order@.len() && old(self).order@[i] == k;
                    assert(self.order@[i] == k);
                } else if self.order@.contains(k) && !old(self).order@.contains(k) {
                    let i = choose|i: int| 0 <= i < self.order@.len() && self.order@[i] == k;
                    assert(old(self).order@[i] == k);
                }
            }
            assert(self.frames() =~= old(self).frames().insert(sequence_number, bytes));
        }
    }

    /// The payloads stored for the sequence numbers in `[start, end]`, in ascending
    /// order of sequence number, skipping those that are not stored.
    pub fn range_lookup(&self, start: i32, end: i32) -> (r: Vec<Vec<u8>>)
        ensures
            r.deep_view() == range_payloads(self.frames(), start as int, end as int),
    {
        let mut out: Vec<Vec<u8>> = Vec::new();
        let mut i: i64 = start as i64;
        while i <= end as i64
            invariant
                start <= i <= end as int + 1 || (i == start && end < start),
                out.deep_view() == range_payloads(self.frames(), start as int, i - 1),
            decreases end as int + 1 - i,
        {
            let key: i32 = i as i32;
            match self.frames.get(&key) {
                Some(payload) => {
                    let copy: Vec<u8> = payload.clone();
                    proof {
                        assert(copy@ =~= payload@);
                        assert(copy.deep_view() =~= payload@);
                    }
                    out.push(copy);
                    proof {
                        assert(out.deep_view() =~= range_payloads(self.frames(), start as int, i - 1).push(payload@));
                    }
                },
                None => {},
            }
            i = i + 1;
        }
        out
    }

    /// Removes every stored frame.
    pub fn clear(&mut self)
        ensures
            final(self).wf(),
            final(self).frames() == Map::<i32, Seq<u8>>::empty(),
    {
        self.frames.clear();
        self.order.clear();
        proof {
            assert(self.frames() =~= Map::<i32, Seq<u8>>::empty());
        }
    }

    /// Removes the frames whose sequence number is below `bound`.
    pub fn discard_before(&mut self, bound: i32)
        requires
            old(self).wf(),
        ensures
            final(self).wf(),
            final(self).frames() == retained(old(self).frames(), bound),
    {
        let mut kept: Vec<i32> = Vec::new();
        let mut i: usize = 0;
        while i < self.order.len()
            invariant
                i <= self.order@.len(),
                self.order@ == old(self).order@,
                forall|k: i32| old(self).frames@.contains_key(k) <==> self.order@.contains(k),
                forall|k: i32|
                    self.frames@.contains_key(k) <==> (old(self).frames@.contains_key(k) && !(k
                        < bound && self.order@.subrange(0, i as int).contains(k))),
                forall|k: i32| self.frames@.contains_key(k) ==> self.frames@[k] == old(self).frames@[k],
                forall|k: i32|
                    kept@.contains(k) <==> (self.order@.subrange(0, i as int).contains(k) && k >= bound),
            decreases self.order@.len() - i,
        {
            let key: i32 = self.order[i];
            let ghost done = self.order@.subrange(0, i as int);
            let ghost next = self.order@.subrange(0, i + 1);
            assert(next =~= done.push(key));
            assert forall|k: i32| next.contains(k) <==> (done.contains(k) || k == key) by {
                if next.contains(k) && k != key {
                    let j = choose|j: int| 0 <= j < next.len() && next[j] == k;
                    assert(done[j] == k);
                }
                if done.contains(k) {
                    let j = choose|j: int| 0 <= j < done.len() && done[j] == k;
                    assert(next[j] == k);
                }
                if k == key {
                    assert(next[i as int] == k);
                }
            }
            let ghost kept_before = kept@;
            if key < bound {
                self.frames.remove(&key);
            } else {
                kept.push(key);
                assert forall|k: i32| kept@.contains(k) <==> (kept_before.contains(k) || k == key) by {
                    if kept@.contains(k) && k != key {
                        let j = choose|j: int| 0 <= j < kept@.len() && kept@[j] == k;
                        assert(kept_before[j] == k);
                    }
                    if kept_before.contains(k) {
                        let j = choose|j: int| 0 <= j < kept_before.len() && kept_before[j] == k;
                        assert(kept@[j] == k);
                    }
                    if k == key {
                        assert(kept@.last() == k);
                    }
                }
            }
            assert forall|k: i32| kept@.contains(k) <==> (next.contains(k) && k >= bound) by {
                assert(kept_before.contains(k) <==> (done.contains(k) && k >= bound));
                assert(next.contains(k) <==> (done.contains(k) || k == key));
                if key < bound {
                    assert(kept@ == kept_before);
                } else {
                    assert(kept@.contains(k) <==> (kept_before.contains(k) || k == key));
                }
                if k != key {
                    assert(next.contains(k) <==> done.contains(k));
                }
            }
            i = i + 1;
        }
        self.order = kept;
        proof {
            assert(self.order@.subrange(0, 0) =~= Seq::<i32>::empty());
            assert(old(self).order@.subrange(0, old(self).order@.len() as int) =~= old(self).order@);
            assert(self.frames() =~= retained(old(self).frames(), bound));
        }
    }
}

} // verus!
