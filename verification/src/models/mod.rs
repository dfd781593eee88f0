//! The rows of the relational store, and how rows are grouped into the
//! statements that write them.

use vstd::prelude::*;
use std::collections::HashSet;

pub mod cell;
pub mod file;
pub mod game;
pub mod game_mod;
pub mod plugin;
pub mod plugin_cell;
pub mod plugin_world;
pub mod world;

verus! {

/// The number of rows that one statement writes at most.
pub const BATCH_SIZE: usize = 50;

/// The number of statements that `len` rows take.
pub open spec fn batch_count(len: int) -> int {
    (len + BATCH_SIZE - 1) / (BATCH_SIZE as int)
}

/// The position of the first row of batch `k`.
pub open spec fn batch_start(k: int) -> int {
    k * BATCH_SIZE
}

/// The position after the last row of batch `k` of `len` rows.
pub open spec fn batch_end(len: int, k: int) -> int {
    if (k + 1) * BATCH_SIZE <= len {
        (k + 1) * BATCH_SIZE
    } else {
        len
    }
}

/// Whether `batches` are the rows cut into runs of `BATCH_SIZE`, in order,
/// the last run holding what is left.
pub open spec fn is_batching<T>(rows: Seq<T>, batches: Seq<Seq<T>>) -> bool {
    &&& batches.len() == batch_count(rows.len() as int)
    &&& forall|k: int|
        0 <= k < batches.len() ==> #[trigger] batches[k] == rows.subrange(
            batch_start(k),
            batch_end(rows.len() as int, k),
        )
}

/// The views of a vector of slices.
pub open spec fn slices_view<T>(slices: Seq<&[T]>) -> Seq<Seq<T>> {
    Seq::new(slices.len(), |k: int| slices[k]@)
}

/// Cuts rows into the batches in which they are written: runs of
/// `BATCH_SIZE` rows in the order given, the last run shorter where the
/// count is no multiple. No rows give no batch.
pub fn batches<'a, T>(rows: &'a [T]) -> (r: Vec<&'a [T]>)
    ensures
        is_batching(rows@, slices_view(r@)),
{
    let mut out: Vec<&'a [T]> = Vec::new();
    let len: usize = rows.len();
    let mut start: usize = 0;
    while start < len
        invariant
            len == rows@.len(),
            start <= len,
            start == out@.len() * BATCH_SIZE || start == len,
            start == len ==> out@.len() == batch_count(len as int),
            start < len ==> out@.len() < batch_count(len as int),
            forall|k: int|
                0 <= k < out@.len() ==> (#[trigger] out@[k])@ == rows@.subrange(
                    batch_start(k),
                    batch_end(len as int, k),
                ),
        decreases len - start,
    {
        let end: usize = if len - start > BATCH_SIZE {
            start + BATCH_SIZE
        } else {
            len
        };
        proof {
            let k = out@.len() as int;
            assert(start == batch_start(k));
            assert(end == batch_end(len as int, k));
        }
        out.push(&rows[start..end]);
        start = end;
    }
    assert(slices_view(out@).len() == out@.len());
    assert forall|k: int| 0 <= k < slices_view(out@).len() implies #[trigger] slices_view(out@)[k]
        == rows@.subrange(batch_start(k), batch_end(rows@.len() as int, k)) by {
        assert(slices_view(out@)[k] == out@[k]@);
    }
    out
}

/// Every batch holds at least one row and at most `BATCH_SIZE`, and the
/// batches cover the rows without gap or overlap: batch `k` starts where
/// batch `k - 1` ends, the first at the first row and the last at the last.
pub proof fn lemma_batches_cover(len: int, k: int)
    requires
        0 <= k < batch_count(len),
        0 <= len,
    ensures
        0 <= batch_start(k) < batch_end(len, k) <= len,
        batch_end(len, k) - batch_start(k) <= BATCH_SIZE,
        k + 1 < batch_count(len) ==> batch_end(len, k) == batch_start(k + 1),
        k + 1 == batch_count(len) ==> batch_end(len, k) == len,
        batch_start(0) == 0,
{
}

/// The set of the given ids.
pub fn id_set(ids: &Vec<i32>) -> (r: HashSet<i32>)
    ensures
        r@ == ids@.to_set(),
{
    let mut set: HashSet<i32> = HashSet::new();
    let mut i: usize = 0;
    while i < ids.len()
        invariant
            i <= ids.len(),
            set@ =~= ids@.subrange(0, i as int).to_set(),
        decreases ids.len() - i,
    {
        let ghost before = ids@.subrange(0, i as int);
        let ghost longer = ids@.subrange(0, i + 1);
        set.insert(ids[i]);
        proof {
            assert(longer =~= before.push(ids@[i as int]));
            assert forall|id: i32| longer.to_set().contains(id) <==> before.to_set().insert(
                ids@[i as int],
            ).contains(id) by {
                if before.contains(id) {
                    let k = choose|k: int| 0 <= k < before.len() && before[k] == id;
                    assert(longer[k] == id);
                }
                if longer.contains(id) {
                    let k = choose|k: int| 0 <= k < longer.len() && longer[k] == id;
                    if k < before.len() {
                        assert(before[k] == id);
                    }
                }
                assert(longer[i as int] == ids@[i as int]);
            }
        }
        i += 1;
    }
    assert(ids@.subrange(0, ids.len() as int) =~= ids@);
    set
}

/// The first position at which a key stands among the keys of the rows of
/// a table.
pub open spec fn first_at<K>(keys: Seq<K>, key: K) -> Option<int>
    decreases keys.len(),
{
    if keys.len() == 0 {
        None
    } else if keys.last() == key && first_at(keys.drop_last(), key) is None {
        Some(keys.len() - 1)
    } else {
        first_at(keys.drop_last(), key)
    }
}

/// A key that is found stands where it is found, and nowhere before; a
/// key that is not found stands nowhere.
pub proof fn lemma_first_at<K>(keys: Seq<K>, key: K)
    ensures
        match first_at(keys, key) {
            Some(i) => 0 <= i < keys.len() && keys[i] == key && forall|j: int|
                0 <= j < i ==> #[trigger] keys[j] != key,
            None => forall|j: int| 0 <= j < keys.len() ==> #[trigger] keys[j] != key,
        },
    decreases keys.len(),
{
    if keys.len() > 0 {
        let front = keys.drop_last();
        lemma_first_at(front, key);
        match first_at(front, key) {
            Some(i) => {
                assert(front[i] == keys[i]);
                assert forall|j: int| 0 <= j < i implies #[trigger] keys[j] != key by {
                    assert(front[j] == keys[j]);
                }
            },
            None => {
                assert forall|j: int| 0 <= j < keys.len() - 1 implies #[trigger] keys[j]
                    != key by {
                    assert(front[j] == keys[j]);
                }
            },
        }
    }
}

/// A key that stands among keys stands somewhere for the last time.
pub proof fn lemma_last_at<K>(keys: Seq<K>, key: K)
    requires
        exists|k: int| 0 <= k < keys.len() && #[trigger] keys[k] == key,
    ensures
        exists|k: int|
            0 <= k < keys.len() && #[trigger] keys[k] == key && forall|j: int|
                k < j < keys.len() ==> #[trigger] keys[j] != key,
    decreases keys.len(),
{
    let last = keys.len() - 1;
    if keys[last] != key {
        let front = keys.drop_last();
        let some = choose|k: int| 0 <= k < keys.len() && #[trigger] keys[k] == key;
        assert(front[some] == key);
        lemma_last_at(front, key);
        let k = choose|k: int|
            0 <= k < front.len() && #[trigger] front[k] == key && forall|j: int|
                k < j < front.len() ==> #[trigger] front[j] != key;
        assert(keys[k] == key);
        assert forall|j: int| k < j < keys.len() implies #[trigger] keys[j] != key by {
            if j < last {
                assert(front[j] == keys[j]);
            }
        }
    }
}

} // verus!
