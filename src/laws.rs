use vstd::prelude::*;

use crate::certificate::{key_selects, same_key, Certificate, Key, KeyMode};
use crate::registry::{
    after_write, capacity, evict, has_key, insert, key_index, lemma_after_write_well_formed,
    lemma_oldest_index, oldest_index, well_formed, MAX_CAPACITY,
};

verus! {

/// The resident certificates after writing each of `cs` in turn, starting from `s`.
pub open spec fn write_all(mode: KeyMode, s: Seq<Certificate>, cs: Seq<Certificate>) -> Seq<
    Certificate,
>
    decreases cs.len(),
{
    if cs.len() == 0 {
        s
    } else {
        after_write(mode, write_all(mode, s, cs.drop_last()), cs.last())
    }
}

/// A write of `c` that eviction undoes at once: the registry is full, holds nothing under
/// the key of `c`, and every resident certificate is newer than `c`.
pub open spec fn evicted_on_arrival(mode: KeyMode, s: Seq<Certificate>, c: Certificate) -> bool {
    s.len() >= MAX_CAPACITY && !has_key(mode, s, c) && forall|j: int|
        0 <= j < s.len() ==> c.timestamp < #[trigger] s[j].timestamp
}

/// Capacity invariant: whatever certificates are written, one after another, into a
/// well-formed registry, after each write its keys are distinct and its size is within the
/// mode's capacity (`MAX_CAPACITY`, or one in a single slot).
pub proof fn lemma_capacity_invariant(mode: KeyMode, s: Seq<Certificate>, cs: Seq<Certificate>)
    requires
        well_formed(mode, s),
    ensures
        forall|n: int|
            0 <= n <= cs.len() ==> #[trigger] write_all(mode, s, cs.take(n)).len() <= capacity(
                mode,
            ) && well_formed(mode, write_all(mode, s, cs.take(n))),
    decreases cs.len(),
{
    assert forall|n: int| 0 <= n <= cs.len() implies #[trigger] write_all(
        mode,
        s,
        cs.take(n),
    ).len() <= capacity(mode) && well_formed(mode, write_all(mode, s, cs.take(n))) by {
        lemma_write_all_well_formed(mode, s, cs.take(n));
    }
}

proof fn lemma_write_all_well_formed(mode: KeyMode, s: Seq<Certificate>, cs: Seq<Certificate>)
    requires
        well_formed(mode, s),
    ensures
        well_formed(mode, write_all(mode, s, cs)),
    decreases cs.len(),
{
    if cs.len() > 0 {
        lemma_write_all_well_formed(mode, s, cs.drop_last());
        lemma_after_write_well_formed(mode, write_all(mode, s, cs.drop_last()), cs.last());
    }
}

/// Oldest-first eviction: writing 21 certificates with strictly increasing timestamps into
/// an empty timestamp-keyed registry leaves exactly the last 20, in order, and not the first.
pub proof fn lemma_oldest_first_eviction(cs: Seq<Certificate>)
    requires
        cs.len() == MAX_CAPACITY + 1,
        forall|i: int, j: int|
            0 <= i < j < cs.len() ==> (#[trigger] cs[i]).timestamp < (#[trigger] cs[j]).timestamp,
    ensures
        write_all(KeyMode::ByTimestamp, Seq::empty(), cs) == cs.subrange(1, cs.len() as int),
        forall|i: int|
            0 <= i < write_all(KeyMode::ByTimestamp, Seq::empty(), cs).len() ==> (
            #[trigger] write_all(KeyMode::ByTimestamp, Seq::empty(), cs)[i]).timestamp
                != cs[0].timestamp,
{
    let mode = KeyMode::ByTimestamp;
    lemma_increasing_prefix(cs, MAX_CAPACITY as int);
    let s = cs.take(MAX_CAPACITY as int);
    assert(cs.drop_last() =~= s);
    assert(!has_key(mode, s, cs.last()));
    let t = insert(mode, s, cs.last());
    assert(t =~= cs);
    lemma_oldest_index(t);
    assert(oldest_index(t) == 0);
    assert(t.remove(0) =~= cs.subrange(1, cs.len() as int));
}

/// With strictly increasing timestamps, the first `n <= MAX_CAPACITY` writes into an empty
/// timestamp-keyed registry keep every certificate, in order.
proof fn lemma_increasing_prefix(cs: Seq<Certificate>, n: int)
    requires
        0 <= n <= MAX_CAPACITY,
        n <= cs.len(),
        forall|i: int, j: int|
            0 <= i < j < cs.len() ==> (#[trigger] cs[i]).timestamp < (#[trigger] cs[j]).timestamp,
    ensures
        write_all(KeyMode::ByTimestamp, Seq::empty(), cs.take(n)) == cs.take(n),
    decreases n,
{
    let mode = KeyMode::ByTimestamp;
    if n > 0 {
        lemma_increasing_prefix(cs, n - 1);
        let p = cs.take(n);
        assert(p.drop_last() =~= cs.take(n - 1));
        let s = cs.take(n - 1);
        assert(!has_key(mode, s, cs[n - 1]));
        assert(insert(mode, s, cs[n - 1]) =~= p);
    } else {
        assert(cs.take(0) =~= Seq::<Certificate>::empty());
    }
}

/// A write that is not undone by eviction leaves the written certificate resident.
pub proof fn lemma_write_resident(mode: KeyMode, s: Seq<Certificate>, c: Certificate)
    requires
        well_formed(mode, s),
        !evicted_on_arrival(mode, s, c),
    ensures
        exists|i: int|
            0 <= i < after_write(mode, s, c).len() && #[trigger] after_write(mode, s, c)[i] == c,
{
    if mode == KeyMode::Singleton {
        assert(after_write(mode, s, c)[0] == c);
    } else {
        let t = insert(mode, s, c);
        if has_key(mode, s, c) {
            let k = key_index(mode, s, c);
            assert(t[k] == c);
            assert(evict(t) == t);
            assert(after_write(mode, s, c)[k] == c);
        } else {
            let n = s.len() as int;
            assert(t[n] == c);
            if t.len() > MAX_CAPACITY {
                lemma_oldest_index(t);
                let o = oldest_index(t);
                let j = choose|j: int| 0 <= j < s.len() && !(c.timestamp < #[trigger] s[j].timestamp);
                assert(t[j] == s[j]);
                assert(o != n);
                assert(t.remove(o)[n - 1] == c);
            } else {
                assert(after_write(mode, s, c)[n] == c);
            }
        }
    }
}

/// Read after write: once `c` has been written and not evicted on arrival, a key that
/// designates `c` designates exactly one resident certificate, and that one is `c`.
pub proof fn lemma_write_then_read(mode: KeyMode, s: Seq<Certificate>, c: Certificate, k: Key)
    requires
        well_formed(mode, s),
        !evicted_on_arrival(mode, s, c),
        key_selects(mode, k, c),
    ensures
        exists|i: int|
            0 <= i < after_write(mode, s, c).len() && key_selects(
                mode,
                k,
                #[trigger] after_write(mode, s, c)[i],
            ),
        forall|i: int|
            0 <= i < after_write(mode, s, c).len() && key_selects(
                mode,
                k,
                #[trigger] after_write(mode, s, c)[i],
            ) ==> after_write(mode, s, c)[i] == c,
{
    let r = after_write(mode, s, c);
    lemma_write_resident(mode, s, c);
    lemma_after_write_well_formed(mode, s, c);
    let i = choose|i: int| 0 <= i < r.len() && #[trigger] r[i] == c;
    assert forall|j: int| 0 <= j < r.len() && key_selects(mode, k, #[trigger] r[j]) implies r[j]
        == c by {
        assert(same_key(mode, r[j], r[i]));
    }
}

/// A write that eviction undoes at once leaves the registry as it was.
pub proof fn lemma_write_evicted(mode: KeyMode, s: Seq<Certificate>, c: Certificate)
    requires
        mode != KeyMode::Singleton,
        well_formed(mode, s),
        evicted_on_arrival(mode, s, c),
    ensures
        after_write(mode, s, c) == s,
{
    let t = insert(mode, s, c);
    let n = s.len() as int;
    assert(t == s.push(c));
    lemma_oldest_index(t);
    let o = oldest_index(t);
    if o != n {
        assert(t[o] == s[o]);
        assert(t[n] == c);
    }
    assert(t.remove(n) =~= s);
}

/// Overwrite in a hash-keyed registry: after writing `c1` and then `c2` with the same hash,
/// exactly one resident certificate has that hash, and it is `c2`. This fails only where
/// eviction would undo both writes at once (see `evicted_on_arrival`).
pub proof fn lemma_overwrite_by_hash(s: Seq<Certificate>, c1: Certificate, c2: Certificate)
    requires
        well_formed(KeyMode::ByHash, s),
        c1.hash@ == c2.hash@,
        !(evicted_on_arrival(KeyMode::ByHash, s, c1) && evicted_on_arrival(KeyMode::ByHash, s, c2)),
    ensures
        exists|i: int|
            0 <= i < after_write(KeyMode::ByHash, after_write(KeyMode::ByHash, s, c1), c2).len()
                && #[trigger] after_write(KeyMode::ByHash, after_write(KeyMode::ByHash, s, c1), c2)[i]
                == c2,
        forall|i: int, j: int|
            0 <= i < after_write(KeyMode::ByHash, after_write(KeyMode::ByHash, s, c1), c2).len()
                && 0 <= j < after_write(KeyMode::ByHash, after_write(KeyMode::ByHash, s, c1), c2).len()
                && (#[trigger] after_write(KeyMode::ByHash, after_write(KeyMode::ByHash, s, c1), c2)[i]).hash@
                == c2.hash@
                && (#[trigger] after_write(KeyMode::ByHash, after_write(KeyMode::ByHash, s, c1), c2)[j]).hash@
                == c2.hash@ ==> i == j,
{
    let mode = KeyMode::ByHash;
    let s1 = after_write(mode, s, c1);
    lemma_after_write_well_formed(mode, s, c1);
    lemma_after_write_well_formed(mode, s1, c2);
    if evicted_on_arrival(mode, s, c1) {
        lemma_write_evicted(mode, s, c1);
        lemma_write_resident(mode, s1, c2);
    } else {
        lemma_write_resident(mode, s, c1);
        let i = choose|i: int| 0 <= i < s1.len() && #[trigger] s1[i] == c1;
        assert(same_key(mode, s1[i], c2));
        assert(has_key(mode, s1, c2));
        lemma_write_resident(mode, s1, c2);
    }
}

/// Single slot: after two writes exactly one certificate is resident, the second one.
pub proof fn lemma_singleton_keeps_last(s: Seq<Certificate>, c1: Certificate, c2: Certificate)
    ensures
        after_write(KeyMode::Singleton, after_write(KeyMode::Singleton, s, c1), c2) == seq![c2],
        after_write(KeyMode::Singleton, after_write(KeyMode::Singleton, s, c1), c2).len() == 1,
{
}

} // verus!
