//! Sequence helpers shared by every registry: lookup of a record by its
//! numeric id inside a sequence with pairwise-distinct ids, ordered
//! projections of such sequences onto id lists, and removal of a value
//! from an id list.

use vstd::prelude::*;

verus! {

// ---------------------------------------------------------------------------
// Removing every occurrence of a value from an id list, keeping order.
// ---------------------------------------------------------------------------
pub open spec fn seq_without(s: Seq<u64>, v: u64) -> Seq<u64>
    decreases s.len(),
{
    if s.len() == 0 {
        s
    } else if s.last() == v {
        seq_without(s.drop_last(), v)
    } else {
        seq_without(s.drop_last(), v).push(s.last())
    }
}

pub proof fn lemma_contains_last_split(s: Seq<u64>, x: u64)
    requires
        s.len() > 0,
    ensures
        s.contains(x) <==> (s.drop_last().contains(x) || s.last() == x),
{
    if s.contains(x) {
        let i = choose|i: int| 0 <= i < s.len() && s[i] == x;
        if i < s.len() - 1 {
            assert(s.drop_last()[i] == x);
        }
    }
    if s.drop_last().contains(x) {
        let i = choose|i: int| 0 <= i < s.drop_last().len() && s.drop_last()[i] == x;
        assert(s[i] == x);
    }
    if s.last() == x {
        assert(s[s.len() - 1] == x);
    }
}

pub proof fn lemma_contains_push(s: Seq<u64>, x: u64, v: u64)
    ensures
        s.push(x).contains(v) <==> (s.contains(v) || v == x),
{
    lemma_contains_last_split(s.push(x), v);
    assert(s.push(x).drop_last() =~= s);
}

pub proof fn lemma_seq_without_membership(s: Seq<u64>, v: u64, x: u64)
    ensures
        seq_without(s, v).contains(x) <==> (s.contains(x) && x != v),
    decreases s.len(),
{
    if s.len() == 0 {
    } else {
        lemma_seq_without_membership(s.drop_last(), v, x);
        lemma_contains_last_split(s, x);
        if s.last() != v {
            lemma_contains_push(seq_without(s.drop_last(), v), s.last(), x);
        }
    }
}

pub proof fn lemma_seq_without_absent(s: Seq<u64>, v: u64)
    requires
        !s.contains(v),
    ensures
        seq_without(s, v) == s,
    decreases s.len(),
{
    if s.len() == 0 {
        assert(seq_without(s, v) =~= s);
    } else {
        lemma_contains_last_split(s, v);
        lemma_seq_without_absent(s.drop_last(), v);
        assert(seq_without(s, v) =~= s.drop_last().push(s.last()));
        assert(s.drop_last().push(s.last()) =~= s);
    }
}

// ---------------------------------------------------------------------------
// Records addressed by a numeric id.
// ---------------------------------------------------------------------------

/// The ids produced by `id_of` are pairwise distinct across `s`.
pub open spec fn uniq_ids<T>(s: Seq<T>, id_of: spec_fn(T) -> u64) -> bool {
    forall|p: int, q: int|
        0 <= p < q < s.len() ==> id_of(#[trigger] s[p]) != id_of(#[trigger] s[q])
}

/// Some record in `s` carries the id `id`.
pub open spec fn has_id<T>(s: Seq<T>, id_of: spec_fn(T) -> u64, id: u64) -> bool {
    exists|i: int| 0 <= i < s.len() && id_of(#[trigger] s[i]) == id
}

/// The position of the record carrying `id` (meaningful when ids are unique).
pub open spec fn index_of_id<T>(s: Seq<T>, id_of: spec_fn(T) -> u64, id: u64) -> int {
    choose|i: int| 0 <= i < s.len() && id_of(#[trigger] s[i]) == id
}

pub proof fn lemma_index_of_id_is<T>(s: Seq<T>, id_of: spec_fn(T) -> u64, id: u64, i: int)
    requires
        uniq_ids(s, id_of),
        0 <= i < s.len(),
        id_of(s[i]) == id,
    ensures
        has_id(s, id_of, id),
        index_of_id(s, id_of, id) == i,
{
    assert(has_id(s, id_of, id)) by {
        assert(0 <= i < s.len() && id_of(s[i]) == id);
    }
    let j = index_of_id(s, id_of, id);
    assert(0 <= j < s.len() && id_of(s[j]) == id);
    if i < j {
        assert(id_of(s[i]) != id_of(s[j]));
    } else if j < i {
        assert(id_of(s[j]) != id_of(s[i]));
    }
}

/// Replacing records without touching their ids keeps every lookup intact.
pub proof fn lemma_id_maps_preserved<T>(s1: Seq<T>, s2: Seq<T>, id_of: spec_fn(T) -> u64)
    requires
        s1.len() == s2.len(),
        uniq_ids(s1, id_of),
        forall|i: int| 0 <= i < s1.len() ==> id_of(#[trigger] s2[i]) == id_of(#[trigger] s1[i]),
    ensures
        uniq_ids(s2, id_of),
        forall|id: u64| #[trigger] has_id(s2, id_of, id) == has_id(s1, id_of, id),
        forall|id: u64|
            #[trigger] has_id(s1, id_of, id) ==> index_of_id(s2, id_of, id) == index_of_id(
                s1,
                id_of,
                id,
            ),
{
    assert forall|p: int, q: int| 0 <= p < q < s2.len() implies id_of(#[trigger] s2[p]) != id_of(
        #[trigger] s2[q],
    ) by {
        assert(id_of(s2[p]) == id_of(s1[p]));
        assert(id_of(s2[q]) == id_of(s1[q]));
        assert(id_of(s1[p]) != id_of(s1[q]));
    }
    assert forall|id: u64| #[trigger] has_id(s2, id_of, id) == has_id(s1, id_of, id) by {
        if has_id(s1, id_of, id) {
            let i = choose|i: int| 0 <= i < s1.len() && id_of(#[trigger] s1[i]) == id;
            assert(id_of(s2[i]) == id);
        }
        if has_id(s2, id_of, id) {
            let i = choose|i: int| 0 <= i < s2.len() && id_of(#[trigger] s2[i]) == id;
            assert(id_of(s1[i]) == id);
        }
    }
    assert forall|id: u64| #[trigger] has_id(s1, id_of, id) implies index_of_id(s2, id_of, id)
        == index_of_id(s1, id_of, id) by {
        let i = index_of_id(s1, id_of, id);
        assert(0 <= i < s1.len() && id_of(s1[i]) == id);
        assert(id_of(s2[i]) == id);
        lemma_index_of_id_is(s2, id_of, id, i);
    }
}

/// Appending a record with a fresh id adds one lookup and keeps the others.
pub proof fn lemma_id_maps_push<T>(s: Seq<T>, id_of: spec_fn(T) -> u64, x: T)
    requires
        uniq_ids(s, id_of),
        !has_id(s, id_of, id_of(x)),
    ensures
        uniq_ids(s.push(x), id_of),
        has_id(s.push(x), id_of, id_of(x)),
        index_of_id(s.push(x), id_of, id_of(x)) == s.len(),
        forall|id: u64|
            id != id_of(x) ==> #[trigger] has_id(s.push(x), id_of, id) == has_id(s, id_of, id),
        forall|id: u64|
            id != id_of(x) && #[trigger] has_id(s, id_of, id) ==> index_of_id(s.push(x), id_of, id)
                == index_of_id(s, id_of, id),
{
    let t = s.push(x);
    assert forall|p: int, q: int| 0 <= p < q < t.len() implies id_of(#[trigger] t[p]) != id_of(
        #[trigger] t[q],
    ) by {
        if q < s.len() {
        } else {
            assert(t[q] == x);
            assert(t[p] == s[p]);
            if id_of(s[p]) == id_of(x) {
                assert(has_id(s, id_of, id_of(x))) by {
                    assert(0 <= p < s.len() && id_of(s[p]) == id_of(x));
                }
            }
        }
    }
    assert(id_of(t[s.len() as int]) == id_of(x));
    lemma_index_of_id_is(t, id_of, id_of(x), s.len() as int);
    assert forall|id: u64| id != id_of(x) implies #[trigger] has_id(t, id_of, id) == has_id(
        s,
        id_of,
        id,
    ) by {
        if has_id(t, id_of, id) {
            let i = choose|i: int| 0 <= i < t.len() && id_of(#[trigger] t[i]) == id;
            assert(i < s.len());
            assert(id_of(s[i]) == id);
        }
        if has_id(s, id_of, id) {
            let i = choose|i: int| 0 <= i < s.len() && id_of(#[trigger] s[i]) == id;
            assert(id_of(t[i]) == id);
        }
    }
    assert forall|id: u64| id != id_of(x) && #[trigger] has_id(s, id_of, id) implies index_of_id(
        t,
        id_of,
        id,
    ) == index_of_id(s, id_of, id) by {
        let i = index_of_id(s, id_of, id);
        assert(0 <= i < s.len() && id_of(s[i]) == id);
        assert(id_of(t[i]) == id);
        lemma_index_of_id_is(t, id_of, id, i);
    }
}

/// Removing the record at position `i` drops exactly its id from the lookups.
pub proof fn lemma_id_maps_remove<T>(s: Seq<T>, id_of: spec_fn(T) -> u64, i: int)
    requires
        uniq_ids(s, id_of),
        0 <= i < s.len(),
    ensures
        uniq_ids(s.remove(i), id_of),
        !has_id(s.remove(i), id_of, id_of(s[i])),
        forall|id: u64|
            id != id_of(s[i]) ==> #[trigger] has_id(s.remove(i), id_of, id) == has_id(
                s,
                id_of,
                id,
            ),
        forall|id: u64|
            id != id_of(s[i]) && #[trigger] has_id(s, id_of, id) ==> s.remove(i)[index_of_id(
                s.remove(i),
                id_of,
                id,
            )] == s[index_of_id(s, id_of, id)],
{
    let t = s.remove(i);
    assert(forall|j: int| 0 <= j < i ==> #[trigger] t[j] == s[j]);
    assert(forall|j: int| i <= j < t.len() ==> #[trigger] t[j] == s[j + 1]);
    assert forall|p: int, q: int| 0 <= p < q < t.len() implies id_of(#[trigger] t[p]) != id_of(
        #[trigger] t[q],
    ) by {
        let p2: int = if p < i {
            p
        } else {
            p + 1
        };
        let q2: int = if q < i {
            q
        } else {
            q + 1
        };
        assert(t[p] == s[p2]);
        assert(t[q] == s[q2]);
        assert(id_of(s[p2]) != id_of(s[q2]));
    }
    if has_id(t, id_of, id_of(s[i])) {
        let j = choose|j: int| 0 <= j < t.len() && id_of(#[trigger] t[j]) == id_of(s[i]);
        let j2: int = if j < i {
            j
        } else {
            j + 1
        };
        assert(t[j] == s[j2]);
        assert(j2 != i);
        if j2 < i {
            assert(id_of(s[j2]) != id_of(s[i]));
        } else {
            assert(id_of(s[i]) != id_of(s[j2]));
        }
    }
    assert forall|id: u64| id != id_of(s[i]) implies #[trigger] has_id(t, id_of, id) == has_id(
        s,
        id_of,
        id,
    ) by {
        if has_id(t, id_of, id) {
            let j = choose|j: int| 0 <= j < t.len() && id_of(#[trigger] t[j]) == id;
            let j2: int = if j < i {
                j
            } else {
                j + 1
            };
            assert(id_of(s[j2]) == id);
        }
        if has_id(s, id_of, id) {
            let j = choose|j: int| 0 <= j < s.len() && id_of(#[trigger] s[j]) == id;
            assert(j != i);
            let j2: int = if j < i {
                j
            } else {
                j - 1
            };
            assert(t[j2] == s[j]);
            assert(id_of(t[j2]) == id);
        }
    }
    assert forall|id: u64| id != id_of(s[i]) && #[trigger] has_id(s, id_of, id) implies t[
        index_of_id(t, id_of, id)] == s[index_of_id(s, id_of, id)] by {
        let j = index_of_id(s, id_of, id);
        assert(0 <= j < s.len() && id_of(s[j]) == id);
        assert(j != i);
        let j2: int = if j < i {
            j
        } else {
            j - 1
        };
        assert(t[j2] == s[j]);
        lemma_index_of_id_is(t, id_of, id, j2);
    }
}

// ---------------------------------------------------------------------------
// Ordered projection of a record sequence onto the ids of kept records.
// ---------------------------------------------------------------------------

/// Ids (under `id_of`) of the records of `s` satisfying `keep`, in order.
pub open spec fn chosen_ids<T>(
    s: Seq<T>,
    keep: spec_fn(T) -> bool,
    id_of: spec_fn(T) -> u64,
) -> Seq<u64>
    decreases s.len(),
{
    if s.len() == 0 {
        Seq::empty()
    } else {
        let rest = chosen_ids(s.drop_last(), keep, id_of);
        if keep(s.last()) {
            rest.push(id_of(s.last()))
        } else {
            rest
        }
    }
}

/// Some kept record of `s` carries the id `v`.
pub open spec fn some_kept_with_id<T>(
    s: Seq<T>,
    keep: spec_fn(T) -> bool,
    id_of: spec_fn(T) -> u64,
    v: u64,
) -> bool {
    exists|i: int| 0 <= i < s.len() && keep(#[trigger] s[i]) && id_of(s[i]) == v
}

pub proof fn lemma_chosen_ids_push<T>(
    s: Seq<T>,
    keep: spec_fn(T) -> bool,
    id_of: spec_fn(T) -> u64,
    x: T,
)
    ensures
        chosen_ids(s.push(x), keep, id_of) == if keep(x) {
            chosen_ids(s, keep, id_of).push(id_of(x))
        } else {
            chosen_ids(s, keep, id_of)
        },
{
    assert(s.push(x).len() == s.len() + 1);
    assert(s.push(x).drop_last() =~= s);
    assert(s.push(x).last() == x);
}

pub proof fn lemma_chosen_ids_membership<T>(
    s: Seq<T>,
    keep: spec_fn(T) -> bool,
    id_of: spec_fn(T) -> u64,
    v: u64,
)
    ensures
        chosen_ids(s, keep, id_of).contains(v) <==> some_kept_with_id(s, keep, id_of, v),
    decreases s.len(),
{
    if s.len() == 0 {
    } else {
        let d = s.drop_last();
        lemma_chosen_ids_membership(d, keep, id_of, v);
        if keep(s.last()) {
            lemma_contains_push(chosen_ids(d, keep, id_of), id_of(s.last()), v);
        }
        if some_kept_with_id(s, keep, id_of, v) {
            let i = choose|i: int| 0 <= i < s.len() && keep(#[trigger] s[i]) && id_of(s[i]) == v;
            if i < s.len() - 1 {
                assert(d[i] == s[i]);
                assert(some_kept_with_id(d, keep, id_of, v)) by {
                    assert(0 <= i < d.len() && keep(d[i]) && id_of(d[i]) == v);
                }
            } else {
                assert(s[i] == s.last());
            }
        }
        if some_kept_with_id(d, keep, id_of, v) {
            let i = choose|i: int| 0 <= i < d.len() && keep(#[trigger] d[i]) && id_of(d[i]) == v;
            assert(s[i] == d[i]);
            assert(some_kept_with_id(s, keep, id_of, v)) by {
                assert(0 <= i < s.len() && keep(s[i]) && id_of(s[i]) == v);
            }
        }
        if keep(s.last()) && id_of(s.last()) == v {
            let i = s.len() - 1;
            assert(some_kept_with_id(s, keep, id_of, v)) by {
                assert(0 <= i < s.len() && keep(s[i]) && id_of(s[i]) == v);
            }
        }
    }
}

/// Replacing a record by one with the same id and the same keep-status
/// leaves the projection unchanged.
pub proof fn lemma_chosen_ids_update_same<T>(
    s: Seq<T>,
    keep: spec_fn(T) -> bool,
    id_of: spec_fn(T) -> u64,
    i: int,
    x: T,
)
    requires
        0 <= i < s.len(),
        keep(x) == keep(s[i]),
        id_of(x) == id_of(s[i]),
    ensures
        chosen_ids(s.update(i, x), keep, id_of) == chosen_ids(s, keep, id_of),
    decreases s.len(),
{
    let t = s.update(i, x);
    if i == s.len() - 1 {
        assert(t.drop_last() =~= s.drop_last());
        assert(t.last() == x);
    } else {
        assert(t.drop_last() =~= s.drop_last().update(i, x));
        lemma_chosen_ids_update_same(s.drop_last(), keep, id_of, i, x);
        assert(t.last() == s.last());
    }
}

/// Replacing a kept record by a dropped one with ids unique removes exactly
/// its id from the projection.
pub proof fn lemma_chosen_ids_update_drop<T>(
    s: Seq<T>,
    keep: spec_fn(T) -> bool,
    id_of: spec_fn(T) -> u64,
    i: int,
    x: T,
)
    requires
        uniq_ids(s, id_of),
        0 <= i < s.len(),
        keep(s[i]),
        !keep(x),
    ensures
        chosen_ids(s.update(i, x), keep, id_of) == seq_without(
            chosen_ids(s, keep, id_of),
            id_of(s[i]),
        ),
    decreases s.len(),
{
    let t = s.update(i, x);
    let d = s.drop_last();
    let v = id_of(s[i]);
    if i == s.len() - 1 {
        assert(t.drop_last() =~= d);
        assert(t.last() == x);
        // chosen(t) == chosen(d); the right side strips the pushed v and the
        // rest of the projection cannot contain v because ids are unique.
        assert(chosen_ids(s, keep, id_of) == chosen_ids(d, keep, id_of).push(v));
        assert(chosen_ids(d, keep, id_of).push(v).drop_last() =~= chosen_ids(d, keep, id_of));
        lemma_chosen_ids_membership(d, keep, id_of, v);
        if chosen_ids(d, keep, id_of).contains(v) {
            let j = choose|j: int| 0 <= j < d.len() && keep(#[trigger] d[j]) && id_of(d[j]) == v;
            assert(d[j] == s[j]);
            assert(id_of(s[j]) != id_of(s[i]));
        }
        lemma_seq_without_absent(chosen_ids(d, keep, id_of), v);
    } else {
        assert(t.drop_last() =~= d.update(i, x));
        assert(t.last() == s.last());
        assert(d[i] == s[i]);
        assert(uniq_ids(d, id_of)) by {
            assert(forall|p: int| 0 <= p < d.len() ==> #[trigger] d[p] == s[p]);
        }
        lemma_chosen_ids_update_drop(d, keep, id_of, i, x);
        let cd = chosen_ids(d, keep, id_of);
        if keep(s.last()) {
            let w = id_of(s.last());
            assert(w != v) by {
                assert(id_of(s[i]) != id_of(s[s.len() - 1]));
            }
            assert(chosen_ids(s, keep, id_of) == cd.push(w));
            assert(cd.push(w).last() == w);
            assert(cd.push(w).drop_last() =~= cd);
            assert(seq_without(cd.push(w), v) == seq_without(cd, v).push(w));
        }
    }
}

/// Removing a record removes exactly its id from the projection (when kept).
pub proof fn lemma_chosen_ids_remove<T>(
    s: Seq<T>,
    keep: spec_fn(T) -> bool,
    id_of: spec_fn(T) -> u64,
    i: int,
)
    requires
        uniq_ids(s, id_of),
        0 <= i < s.len(),
    ensures
        chosen_ids(s.remove(i), keep, id_of) == if keep(s[i]) {
            seq_without(chosen_ids(s, keep, id_of), id_of(s[i]))
        } else {
            chosen_ids(s, keep, id_of)
        },
    decreases s.len(),
{
    let t = s.remove(i);
    let d = s.drop_last();
    let v = id_of(s[i]);
    if i == s.len() - 1 {
        assert(t =~= d);
        if keep(s[i]) {
            assert(s.last() == s[i]);
            assert(chosen_ids(s, keep, id_of) == chosen_ids(d, keep, id_of).push(v));
            assert(chosen_ids(d, keep, id_of).push(v).drop_last() =~= chosen_ids(d, keep, id_of));
            lemma_chosen_ids_membership(d, keep, id_of, v);
            if chosen_ids(d, keep, id_of).contains(v) {
                let j = choose|j: int|
                    0 <= j < d.len() && keep(#[trigger] d[j]) && id_of(d[j]) == v;
                assert(d[j] == s[j]);
                assert(id_of(s[j]) != id_of(s[i]));
            }
            lemma_seq_without_absent(chosen_ids(d, keep, id_of), v);
        } else {
            assert(s.last() == s[i]);
        }
    } else {
        assert(t.len() == s.len() - 1);
        assert(t.drop_last() =~= d.remove(i));
        assert(t.last() == s.last());
        assert(d[i] == s[i]);
        assert(uniq_ids(d, id_of)) by {
            assert(forall|p: int| 0 <= p < d.len() ==> #[trigger] d[p] == s[p]);
        }
        lemma_chosen_ids_remove(d, keep, id_of, i);
        let cd = chosen_ids(d, keep, id_of);
        if keep(s.last()) {
            let w = id_of(s.last());
            assert(chosen_ids(s, keep, id_of) == cd.push(w));
            if keep(s[i]) {
                assert(w != v) by {
                    assert(id_of(s[i]) != id_of(s[s.len() - 1]));
                }
                assert(cd.push(w).last() == w);
                assert(cd.push(w).drop_last() =~= cd);
                assert(seq_without(cd.push(w), v) == seq_without(cd, v).push(w));
            }
        }
    }
}

// ---------------------------------------------------------------------------
// Executable helpers on id vectors.
// ---------------------------------------------------------------------------

/// Linear membership scan.
pub fn vec_contains(v: &Vec<u64>, x: u64) -> (r: bool)
    ensures
        r == v@.contains(x),
{
    let mut i: usize = 0;
    while i < v.len()
        invariant
            i <= v.len(),
            forall|j: int| 0 <= j < i ==> v@[j] != x,
        decreases v.len() - i,
    {
        if v[i] == x {
            return true;
        }
        i += 1;
    }
    false
}

/// A copy of `v` with every occurrence of `x` removed, in order.
pub fn vec_without(v: &Vec<u64>, x: u64) -> (r: Vec<u64>)
    ensures
        r@ == seq_without(v@, x),
{
    let mut r: Vec<u64> = Vec::new();
    let mut i: usize = 0;
    while i < v.len()
        invariant
            i <= v.len(),
            r@ == seq_without(v@.subrange(0, i as int), x),
        decreases v.len() - i,
    {
        let prefix = Ghost(v@.subrange(0, i as int));
        if v[i] != x {
            r.push(v[i]);
        }
        proof {
            assert(v@.subrange(0, i as int + 1).drop_last() =~= prefix@);
            assert(v@.subrange(0, i as int + 1).last() == v@[i as int]);
        }
        i += 1;
    }
    proof {
        assert(v@.subrange(0, v@.len() as int) =~= v@);
    }
    r
}

} // verus!
