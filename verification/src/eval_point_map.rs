use vstd::prelude::*;
use crate::evalcheck::{points_equal, ClaimKey};
use crate::field::Field;
use crate::oracle::OracleId;

verus! {

/// A write-once table keyed by oracle and evaluation point.
///
/// Entries are bucketed by oracle id; within a bucket each point occurs at
/// most once. An entry, once made, is never replaced.
pub struct EvalPointOracleIdMap<T, F> {
    data: Vec<Vec<(Vec<F>, T)>>,
}

/// Whether some entry of the bucket is filed under `point`.
pub open spec fn bucket_contains<T, F>(bucket: Seq<(Vec<F>, T)>, point: Seq<F>) -> bool {
    exists|i: int| 0 <= i < bucket.len() && (#[trigger] bucket[i]).0@ == point
}

/// The position in the bucket of the entry filed under `point`.
pub open spec fn bucket_index<T, F>(bucket: Seq<(Vec<F>, T)>, point: Seq<F>) -> int {
    choose|i: int| 0 <= i < bucket.len() && (#[trigger] bucket[i]).0@ == point
}

/// Whether no two entries of the bucket are filed under the same point.
pub open spec fn bucket_distinct<T, F>(bucket: Seq<(Vec<F>, T)>) -> bool {
    forall|i: int, j: int|
        0 <= i < bucket.len() && 0 <= j < bucket.len() && (#[trigger] bucket[i]).0@ == (
        #[trigger] bucket[j]).0@ ==> i == j
}

impl<T, F: Field> EvalPointOracleIdMap<T, F> {
    /// The invariant of the representation: every bucket holds each point
    /// at most once.
    pub closed spec fn wf(&self) -> bool {
        forall|id: int| 0 <= id < self.data@.len() ==> bucket_distinct((#[trigger] self.data@[id])@)
    }

    /// The table as a map from keys to values.
    pub closed spec fn view(&self) -> Map<ClaimKey<F>, T> {
        Map::new(
            |k: ClaimKey<F>| k.0 < self.data@.len() && bucket_contains(self.data@[k.0 as int]@, k.1),
            |k: ClaimKey<F>|
                self.data@[k.0 as int]@[bucket_index(self.data@[k.0 as int]@, k.1)].1,
        )
    }

    /// An empty table.
    pub fn new() -> (m: Self)
        ensures
            m.wf(),
            m@ == Map::<ClaimKey<F>, T>::empty(),
    {
        let m = EvalPointOracleIdMap { data: Vec::new() };
        assert(m@ =~= Map::<ClaimKey<F>, T>::empty());
        m
    }

    /// The value filed under `(id, eval_point)`, if there is one.
    pub fn get(&self, id: OracleId, eval_point: &Vec<F>) -> (r: Option<&T>)
        requires
            self.wf(),
        ensures
            match r {
                Some(v) => self@.contains_key((id, eval_point@)) && *v == self@[(id, eval_point@)],
                None => !self@.contains_key((id, eval_point@)),
            },
    {
        if id >= self.data.len() {
            return None;
        }
        let bucket = &self.data[id];
        let mut i: usize = 0;
        while i < bucket.len()
            invariant
                i <= bucket@.len(),
                id < self.data@.len(),
                *bucket == self.data@[id as int],
                bucket_distinct(bucket@),
                forall|j: int| 0 <= j < i ==> (#[trigger] bucket@[j]).0@ != eval_point@,
            decreases bucket@.len() - i,
        {
            if points_equal(&bucket[i].0, eval_point) {
                proof {
                    let k: ClaimKey<F> = (id, eval_point@);
                    assert(bucket@[i as int].0@ == k.1);
                    assert(bucket_contains(bucket@, k.1));
                    assert(bucket_index(bucket@, k.1) == i);
                }
                return Some(&bucket[i].1);
            }
            i += 1;
        }
        None
    }

    /// Whether a value is filed under `(id, eval_point)`.
    pub fn contains(&self, id: OracleId, eval_point: &Vec<F>) -> (b: bool)
        requires
            self.wf(),
        ensures
            b == self@.contains_key((id, eval_point@)),
    {
        self.get(id, eval_point).is_some()
    }

    /// Files `val` under `(id, eval_point)` unless the key is taken: an
    /// existing entry is never overwritten.
    pub fn insert(&mut self, id: OracleId, eval_point: Vec<F>, val: T)
        requires
            old(self).wf(),
        ensures
            final(self).wf(),
            old(self)@.contains_key((id, eval_point@)) ==> final(self)@ == old(self)@,
            !old(self)@.contains_key((id, eval_point@)) ==> final(self)@ == old(self)@.insert(
                (id, eval_point@),
                val,
            ),
    {
        if self.contains(id, &eval_point) {
            return ;
        }
        while self.data.len() <= id
            invariant
                self.wf(),
                self@ == old(self)@,
            decreases id + 1 - self.data@.len(),
        {
            let ghost before = *self;
            self.data.push(Vec::new());
            proof {
                assert(self.data@[self.data@.len() - 1]@.len() == 0);
                assert forall|k: int| 0 <= k < self.data@.len() implies bucket_distinct(
                    (#[trigger] self.data@[k])@,
                ) by {
                    if k < before.data@.len() {
                        assert(self.data@[k] == before.data@[k]);
                    }
                }
                assert forall|k: ClaimKey<F>| self@.contains_key(k) == before@.contains_key(k) by {
                    if k.0 < before.data@.len() {
                        assert(self.data@[k.0 as int] == before.data@[k.0 as int]);
                    }
                }
                assert forall|k: ClaimKey<F>| self@.contains_key(k) implies self@[k] == before@[k] by {
                    assert(self.data@[k.0 as int] == before.data@[k.0 as int]);
                }
                assert(self@ =~= before@);
            }
        }
        let ghost before = *self;
        let ghost key: ClaimKey<F> = (id, eval_point@);
        let ghost old_bucket = self.data@[id as int]@;
        let ghost entry = (eval_point, val);
        self.data[id].push((eval_point, val));
        proof {
            let new_bucket = self.data@[id as int]@;
            assert(new_bucket == old_bucket.push(entry));
            assert(!bucket_contains(old_bucket, key.1));
            assert(bucket_distinct(old_bucket));
            assert(bucket_distinct(new_bucket)) by {
                assert forall|i: int, j: int|
                    0 <= i < new_bucket.len() && 0 <= j < new_bucket.len() && (
                    #[trigger] new_bucket[i]).0@ == (#[trigger] new_bucket[j]).0@ implies i
                    == j by {
                    if i < old_bucket.len() && j < old_bucket.len() {
                        assert(old_bucket[i].0@ == old_bucket[j].0@);
                    } else if i < old_bucket.len() {
                        assert(old_bucket[i].0@ == key.1);
                    } else if j < old_bucket.len() {
                        assert(old_bucket[j].0@ == key.1);
                    }
                }
            }
            assert forall|k: int| 0 <= k < self.data@.len() implies bucket_distinct(
                (#[trigger] self.data@[k])@,
            ) by {
                if k != id {
                    assert(self.data@[k] == before.data@[k]);
                }
            }
            let target = before@.insert(key, val);
            assert forall|k: ClaimKey<F>| self@.contains_key(k) == target.contains_key(k) by {
                if k.0 == id {
                    if bucket_contains(new_bucket, k.1) {
                        let i = bucket_index(new_bucket, k.1);
                        if i < old_bucket.len() {
                            assert(old_bucket[i].0@ == k.1);
                        }
                    }
                    if bucket_contains(old_bucket, k.1) {
                        let i = bucket_index(old_bucket, k.1);
                        assert(new_bucket[i].0@ == k.1);
                    }
                    if k.1 == key.1 {
                        assert(new_bucket[old_bucket.len() as int].0@ == k.1);
                    }
                } else if k.0 < self.data@.len() {
                    assert(self.data@[k.0 as int] == before.data@[k.0 as int]);
                }
            }
            assert forall|k: ClaimKey<F>| self@.contains_key(k) implies self@[k] == target[k] by {
                if k.0 == id {
                    let i = bucket_index(new_bucket, k.1);
                    if k.1 == key.1 {
                        assert(new_bucket[old_bucket.len() as int].0@ == k.1);
                        assert(i == old_bucket.len());
                    } else {
                        assert(i < old_bucket.len());
                        assert(old_bucket[i].0@ == k.1);
                        assert(bucket_index(old_bucket, k.1) == i);
                    }
                } else {
                    assert(self.data@[k.0 as int] == before.data@[k.0 as int]);
                }
            }
            assert(self@ =~= target);
        }
    }
}

} // verus!
