//! Laws of the store's map model.
//!
//! The store's operations state their effect on a `Map<Seq<u8>, Seq<u8>>`:
//! `set` turns the map `m` into `m.insert(k, v)` and `get` reads `m[k]`.
//! The laws here relate several such operations; each is stated over that
//! model, so it covers every store and every key and value.

use vstd::prelude::*;

verus! {

/// A write followed by a read of the same key returns exactly the value
/// written: after `set(k, v)`, `get(k)` finds `v`.
pub proof fn lemma_get_after_set(m: Map<Seq<u8>, Seq<u8>>, k: Seq<u8>, v: Seq<u8>)
    ensures
        m.insert(k, v).contains_key(k),
        m.insert(k, v)[k] == v,
{
}

/// A write leaves every other key as it was.
pub proof fn lemma_set_preserves_others(m: Map<Seq<u8>, Seq<u8>>, k: Seq<u8>, v: Seq<u8>, k2: Seq<
    u8>)
    requires
        k2 != k,
    ensures
        m.insert(k, v).contains_key(k2) == m.contains_key(k2),
        m.contains_key(k2) ==> m.insert(k, v)[k2] == m[k2],
{
}

/// The last write for a key wins: after `set(k, v1)` then `set(k, v2)`, a
/// read of `k` finds `v2`, and the earlier value is gone without trace.
pub proof fn lemma_overwrite(m: Map<Seq<u8>, Seq<u8>>, k: Seq<u8>, v1: Seq<u8>, v2: Seq<u8>)
    ensures
        m.insert(k, v1).insert(k, v2) == m.insert(k, v2),
        m.insert(k, v1).insert(k, v2)[k] == v2,
{
    assert(m.insert(k, v1).insert(k, v2) =~= m.insert(k, v2));
}

/// Repeating a write changes nothing: `set(k, v)` done twice leaves the
/// same store as doing it once, so any number of repetitions does.
pub proof fn lemma_set_idempotent(m: Map<Seq<u8>, Seq<u8>>, k: Seq<u8>, v: Seq<u8>)
    ensures
        m.insert(k, v).insert(k, v) == m.insert(k, v),
{
    assert(m.insert(k, v).insert(k, v) =~= m.insert(k, v));
}

/// Repeating one write any number of times yields the same final store as
/// doing it once.
pub proof fn lemma_repeat_set(m: Map<Seq<u8>, Seq<u8>>, ops: Seq<(Seq<u8>, Seq<u8>)>, k: Seq<u8>, v: Seq<u8>)
    requires
        ops.len() > 0,
        forall|i: int| 0 <= i < ops.len() ==> #[trigger] ops[i] == (k, v),
    ensures
        apply_writes(m, ops) == m.insert(k, v),
    decreases ops.len(),
{
    assert(ops.last() == (k, v));
    if ops.len() == 1 {
        assert(apply_writes(m, ops.drop_last()) == m);
    } else {
        assert(forall|i: int|
            0 <= i < ops.drop_last().len() ==> #[trigger] ops.drop_last()[i] == ops[i]);
        lemma_repeat_set(m, ops.drop_last(), k, v);
        lemma_overwrite(m, k, v, v);
    }
}

/// The store after a sequence of writes, applied one at a time in order.
/// Concurrent writes serialize under the store's lock into some such order.
pub open spec fn apply_writes(m: Map<Seq<u8>, Seq<u8>>, ops: Seq<(Seq<u8>, Seq<u8>)>) -> Map<
    Seq<u8>,
    Seq<u8>,
>
    decreases ops.len(),
{
    if ops.len() == 0 {
        m
    } else {
        apply_writes(m, ops.drop_last()).insert(ops.last().0, ops.last().1)
    }
}

/// Writes to one key, serialized in whatever order the lock admitted them,
/// leave exactly the value of the write that acquired the lock last — in
/// particular one of the written values in full, never a mixture.
pub proof fn lemma_last_writer_wins(
    m: Map<Seq<u8>, Seq<u8>>,
    ops: Seq<(Seq<u8>, Seq<u8>)>,
    k: Seq<u8>,
)
    requires
        ops.len() > 0,
        forall|i: int| 0 <= i < ops.len() ==> (#[trigger] ops[i]).0 == k,
    ensures
        apply_writes(m, ops).contains_key(k),
        apply_writes(m, ops)[k] == ops.last().1,
        exists|i: int| 0 <= i < ops.len() && apply_writes(m, ops)[k] == (#[trigger] ops[i]).1,
{
    assert(ops[ops.len() - 1].0 == k);
    assert(apply_writes(m, ops)[k] == ops[ops.len() - 1].1);
}

/// A write for one key does not disturb concurrent writes for others:
/// whatever order the lock serializes them in, a key not among the writes
/// keeps its value.
pub proof fn lemma_writes_leave_other_keys(
    m: Map<Seq<u8>, Seq<u8>>,
    ops: Seq<(Seq<u8>, Seq<u8>)>,
    k2: Seq<u8>,
)
    requires
        forall|i: int| 0 <= i < ops.len() ==> (#[trigger] ops[i]).0 != k2,
    ensures
        apply_writes(m, ops).contains_key(k2) == m.contains_key(k2),
        m.contains_key(k2) ==> apply_writes(m, ops)[k2] == m[k2],
    decreases ops.len(),
{
    if ops.len() > 0 {
        lemma_writes_leave_other_keys(m, ops.drop_last(), k2);
    }
}

} // verus!
