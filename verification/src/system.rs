//! Update passes: a transform is computed for every row of a join against
//! the state before the pass, and the results are then written back to the
//! primary container.

use vstd::prelude::*;
use crate::component::CContainer;
use crate::entity::EntityID;
use crate::model::{none_joined, ContainerView};

verus! {

/// Position `l` holds the last row of `rows` that belongs to `e`.
pub open spec fn last_row<T>(rows: Seq<(EntityID, T)>, e: EntityID, l: int) -> bool {
    &&& 0 <= l < rows.len()
    &&& rows[l].0 == e
    &&& forall|j: int| l < j < rows.len() ==> (#[trigger] rows[j]).0 != e
}

/// The value that the last update of `updates` for `e` carries, if there is
/// one.
pub open spec fn last_update<T>(updates: Seq<(EntityID, T)>, e: EntityID) -> Option<T>
    decreases updates.len(),
{
    if updates.len() == 0 {
        None
    } else if updates.last().0 == e {
        Some(updates.last().1)
    } else {
        last_update(updates.drop_last(), e)
    }
}

/// What one pass does to the primary container. `joined` holds the entities
/// that every secondary container has; `computes(e, v, r)` says that the
/// transform may return `r` for entity `e` with primary value `v`.
///
/// The index, the number of rows and the entity of each row stay. The row
/// that a lookup of a joined entity finds gets a value that the transform
/// computed from the state before the pass, namely from the last stored row
/// of that entity. Every other row keeps its value.
pub open spec fn pass<T>(
    before: ContainerView<T>,
    after: ContainerView<T>,
    joined: Set<EntityID>,
    computes: spec_fn(EntityID, T, T) -> bool,
) -> bool {
    &&& after.index == before.index
    &&& after.dense.len() == before.dense.len()
    &&& forall|i: int|
        0 <= i < before.dense.len() ==> (#[trigger] after.dense[i]).0 == before.dense[i].0
    &&& forall|i: int|
        0 <= i < before.dense.len() && !(before.reachable(i) && joined.contains(before.dense[i].0))
            ==> #[trigger] after.dense[i] == before.dense[i]
    &&& forall|i: int, l: int|
        before.reachable(i) && joined.contains(before.dense[i].0) && #[trigger] last_row(
            before.dense,
            before.dense[i].0,
            l,
        ) ==> computes(before.dense[i].0, before.dense[l].1, after.dense[i].1)
}

/// The commit phase of a pass: writes each buffered value to its entity,
/// first to last, and skips the entities that the container does not index.
pub fn commit<T>(container: &mut CContainer<T>, updates: Vec<(EntityID, T)>)
    requires
        old(container)@.wf(),
    ensures
        final(container)@ == old(container)@.set_all(updates@),
        final(container)@.wf(),
{
    let ghost all = updates@;
    for update in it: updates
        invariant
            it.seq() == all,
            container@.wf(),
            container@ == old(container)@.set_all(all.take(it.index() as int)),
    {
        let (entity_id, value) = update;
        proof {
            let n = it.index() as int;
            assert(all.take(n + 1).drop_last() =~= all.take(n));
        }
        match container.get_mut(entity_id) {
            Some(slot) => {
                *slot = value;
            },
            None => {},
        }
    }
    proof {
        assert(all.take(all.len() as int) =~= all);
    }
}

/// What the read phase has buffered after the first `upto` rows: one update
/// for each row of a joined entity, in the rows' order, `picked` naming the
/// row that each update was computed from.
spec fn buffered<T>(
    rows: Seq<(EntityID, T)>,
    upto: int,
    joined: Set<EntityID>,
    computes: spec_fn(EntityID, T, T) -> bool,
    updates: Seq<(EntityID, T)>,
    picked: Seq<int>,
) -> bool {
    &&& picked.len() == updates.len()
    &&& upto <= rows.len()
    &&& forall|k: int|
        0 <= k < picked.len() ==> {
            &&& 0 <= #[trigger] picked[k] < upto
            &&& joined.contains(rows[picked[k]].0)
            &&& updates[k].0 == rows[picked[k]].0
            &&& computes(updates[k].0, rows[picked[k]].1, updates[k].1)
        }
    &&& forall|k1: int, k2: int|
        0 <= k1 < k2 < picked.len() ==> #[trigger] picked[k1] < #[trigger] picked[k2]
    &&& forall|j: int|
        0 <= j < upto && joined.contains((#[trigger] rows[j]).0) ==> exists|k: int|
            0 <= k < picked.len() && #[trigger] picked[k] == j
}

/// The read phase takes one more step: the rows from `seen` up to `at` are
/// skipped, and the update computed from row `at` is buffered.
proof fn lemma_buffer_step<T>(
    rows: Seq<(EntityID, T)>,
    seen: int,
    at: int,
    joined: Set<EntityID>,
    computes: spec_fn(EntityID, T, T) -> bool,
    updates: Seq<(EntityID, T)>,
    picked: Seq<int>,
    update: (EntityID, T),
)
    requires
        buffered(rows, seen, joined, computes, updates, picked),
        0 <= seen <= at < rows.len(),
        none_joined(rows, seen, at, joined),
        joined.contains(rows[at].0),
        update.0 == rows[at].0,
        computes(update.0, rows[at].1, update.1),
    ensures
        buffered(rows, at + 1, joined, computes, updates.push(update), picked.push(at)),
{
    let picked2 = picked.push(at);
    assert forall|j: int| 0 <= j < at + 1 && joined.contains((#[trigger] rows[j]).0) implies exists|
        k: int,
    |
        0 <= k < picked2.len() && #[trigger] picked2[k] == j by {
        if j < seen {
            let k = choose|k: int| 0 <= k < picked.len() && #[trigger] picked[k] == j;
            assert(picked2[k] == j);
        } else {
            assert(picked2[picked.len() as int] == j);
        }
    }
}

/// The read phase ends: no row from `seen` on belongs to a joined entity.
proof fn lemma_buffer_done<T>(
    rows: Seq<(EntityID, T)>,
    seen: int,
    joined: Set<EntityID>,
    computes: spec_fn(EntityID, T, T) -> bool,
    updates: Seq<(EntityID, T)>,
    picked: Seq<int>,
)
    requires
        buffered(rows, seen, joined, computes, updates, picked),
        0 <= seen,
        none_joined(rows, seen, rows.len() as int, joined),
    ensures
        buffered(rows, rows.len() as int, joined, computes, updates, picked),
{
}

/// Where the last update for an entity stands in a buffer.
proof fn lemma_last_update<T>(updates: Seq<(EntityID, T)>, e: EntityID)
    ensures
        match last_update(updates, e) {
            Some(v) => exists|k: int|
                {
                    &&& 0 <= k < updates.len()
                    &&& #[trigger] updates[k] == (e, v)
                    &&& forall|j: int| k < j < updates.len() ==> (#[trigger] updates[j]).0 != e
                },
            None => forall|k: int| 0 <= k < updates.len() ==> (#[trigger] updates[k]).0 != e,
        },
    decreases updates.len(),
{
    if updates.len() > 0 {
        let init = updates.drop_last();
        lemma_last_update(init, e);
        if updates.last().0 == e {
            let k = updates.len() - 1;
            assert(updates[k] == (e, updates.last().1));
        } else {
            match last_update(init, e) {
                Some(v) => {
                    let k = choose|k: int|
                        {
                            &&& 0 <= k < init.len()
                            &&& #[trigger] init[k] == (e, v)
                            &&& forall|j: int| k < j < init.len() ==> (#[trigger] init[j]).0 != e
                        };
                    assert(updates[k] == (e, v));
                    assert forall|j: int| k < j < updates.len() implies (#[trigger] updates[j]).0
                        != e by {
                        if j < init.len() {
                            assert(init[j].0 != e);
                        }
                    }
                },
                None => {
                    assert forall|k: int| 0 <= k < updates.len() implies (#[trigger] updates[k]).0
                        != e by {
                        if k < init.len() {
                            assert(init[k].0 != e);
                        }
                    }
                },
            }
        }
    }
}

/// After a buffer was committed, the row that a lookup of an entity finds
/// holds the entity's last update; every other row is as it was.
pub proof fn lemma_set_all<T>(c: ContainerView<T>, updates: Seq<(EntityID, T)>)
    requires
        c.wf(),
    ensures
        c.set_all(updates).wf(),
        c.set_all(updates).index == c.index,
        c.set_all(updates).dense.len() == c.dense.len(),
        forall|i: int|
            0 <= i < c.dense.len() ==> #[trigger] c.set_all(updates).dense[i] == if c.reachable(i)
                && last_update(updates, c.dense[i].0) is Some {
                (c.dense[i].0, last_update(updates, c.dense[i].0).unwrap())
            } else {
                c.dense[i]
            },
    decreases updates.len(),
{
    if updates.len() > 0 {
        let init = updates.drop_last();
        lemma_set_all(c, init);
        crate::model::lemma_set(c.set_all(init), updates.last().0, updates.last().1);
    }
}

/// A buffer that the read phase filled from all rows, once committed, makes
/// a pass.
proof fn lemma_commit_makes_pass<T>(
    c: ContainerView<T>,
    joined: Set<EntityID>,
    computes: spec_fn(EntityID, T, T) -> bool,
    updates: Seq<(EntityID, T)>,
    picked: Seq<int>,
)
    requires
        c.wf(),
        buffered(c.dense, c.dense.len() as int, joined, computes, updates, picked),
    ensures
        pass(c, c.set_all(updates), joined, computes),
{
    let after = c.set_all(updates);
    lemma_set_all(c, updates);
    assert forall|i: int|
        0 <= i < c.dense.len() && !(c.reachable(i) && joined.contains(
            c.dense[i].0,
        )) implies #[trigger] after.dense[i] == c.dense[i] by {
        let e = c.dense[i].0;
        lemma_last_update(updates, e);
        if c.reachable(i) && last_update(updates, e) is Some {
            let v = last_update(updates, e).unwrap();
            let k = choose|k: int| 0 <= k < updates.len() && #[trigger] updates[k] == (e, v);
            assert(joined.contains(c.dense[picked[k]].0));
        }
    }
    assert forall|i: int, l: int|
        c.reachable(i) && joined.contains(c.dense[i].0) && #[trigger] last_row(
            c.dense,
            c.dense[i].0,
            l,
        ) implies computes(c.dense[i].0, c.dense[l].1, after.dense[i].1) by {
        let e = c.dense[i].0;
        lemma_last_update(updates, e);
        assert(joined.contains(c.dense[l].0));
        let at = choose|k: int| 0 <= k < picked.len() && #[trigger] picked[k] == l;
        assert(updates[at].0 == e);
        match last_update(updates, e) {
            Some(v) => {
                let k = choose|k: int|
                    {
                        &&& 0 <= k < updates.len()
                        &&& #[trigger] updates[k] == (e, v)
                        &&& forall|j: int| k < j < updates.len() ==> (#[trigger] updates[j]).0 != e
                    };
                if k < at {
                    assert(updates[at].0 != e);
                }
                if at < k {
                    assert(picked[at] < picked[k]);
                    assert(c.dense[picked[k]].0 == e);
                }
                assert(k == at);
            },
            None => {
                assert(updates[at].0 != e);
            },
        }
    }
}

/// Every entity that has a row has a last one.
pub proof fn lemma_last_row_exists<T>(rows: Seq<(EntityID, T)>, e: EntityID, i: int)
    requires
        0 <= i < rows.len(),
        rows[i].0 == e,
    ensures
        exists|l: int| i <= l && #[trigger] last_row(rows, e, l),
    decreases rows.len() - i,
{
    if exists|j: int| i < j < rows.len() && (#[trigger] rows[j]).0 == e {
        let j = choose|j: int| i < j < rows.len() && (#[trigger] rows[j]).0 == e;
        lemma_last_row_exists(rows, e, j);
    } else {
        assert(last_row(rows, e, i));
    }
}

/// The last stored row of every indexed entity of `joined` holds the value
/// that a lookup of the entity finds.
pub open spec fn settled<T>(c: ContainerView<T>, joined: Set<EntityID>) -> bool {
    forall|i: int, l: int|
        c.reachable(i) && joined.contains(c.dense[i].0) && #[trigger] last_row(
            c.dense,
            c.dense[i].0,
            l,
        ) ==> c.dense[l].1 == c.dense[i].1
}

/// A compact container is settled, whatever is joined.
pub proof fn lemma_compact_settled<T>(c: ContainerView<T>, joined: Set<EntityID>)
    requires
        c.wf(),
        c.compact(),
    ensures
        settled(c, joined),
{
    assert forall|i: int, l: int|
        c.reachable(i) && joined.contains(c.dense[i].0) && #[trigger] last_row(
            c.dense,
            c.dense[i].0,
            l,
        ) implies c.dense[l].1 == c.dense[i].1 by {
        assert(c.reachable(l));
    }
}

/// A pass leaves alone what a lookup finds for an entity that some
/// secondary container lacks, and what it finds is still there.
pub proof fn lemma_pass_keeps_unjoined<T>(
    before: ContainerView<T>,
    after: ContainerView<T>,
    joined: Set<EntityID>,
    computes: spec_fn(EntityID, T, T) -> bool,
    e: EntityID,
)
    requires
        before.wf(),
        pass(before, after, joined, computes),
        !joined.contains(e),
    ensures
        after.get(e) == before.get(e),
{
}

/// A pass keeps the entities, and what a lookup of a joined entity finds
/// after it was computed from the entity's last stored row before it; in a
/// compact container that is the value which a lookup found before.
pub proof fn lemma_pass_lookup<T>(
    before: ContainerView<T>,
    after: ContainerView<T>,
    joined: Set<EntityID>,
    computes: spec_fn(EntityID, T, T) -> bool,
    e: EntityID,
)
    requires
        before.wf(),
        pass(before, after, joined, computes),
        before.contains(e),
        joined.contains(e),
    ensures
        after.wf(),
        after.entities() == before.entities(),
        after.contains(e),
        exists|l: int| #[trigger]
            last_row(before.dense, e, l) && computes(e, before.dense[l].1, after.get(e).unwrap()),
        before.compact() ==> computes(e, before.get(e).unwrap(), after.get(e).unwrap()),
{
    let i = before.index[e];
    lemma_last_row_exists(before.dense, e, i);
    crate::model::lemma_rewritten_wf(before, after);
}

/// A pass whose transform returns the primary value it was given leaves a
/// settled container as it was: the same rows in the same order and the same
/// index.
pub proof fn lemma_identity_pass<T>(
    before: ContainerView<T>,
    after: ContainerView<T>,
    joined: Set<EntityID>,
    computes: spec_fn(EntityID, T, T) -> bool,
)
    requires
        before.wf(),
        settled(before, joined),
        pass(before, after, joined, computes),
        forall|e: EntityID, v: T, r: T| #[trigger] computes(e, v, r) ==> r == v,
    ensures
        after == before,
{
    assert forall|i: int| 0 <= i < before.dense.len() implies after.dense[i] == before.dense[i] by {
        let e = before.dense[i].0;
        if before.reachable(i) && joined.contains(e) {
            lemma_last_row_exists(before.dense, e, i);
        }
    }
    assert(after.dense =~= before.dense);
}

/// Two passes in a row whose transforms return the primary value they were
/// given leave a settled container as it was before the first.
pub proof fn lemma_identity_pass_twice<T>(
    before: ContainerView<T>,
    between: ContainerView<T>,
    after: ContainerView<T>,
    joined: Set<EntityID>,
    computes: spec_fn(EntityID, T, T) -> bool,
)
    requires
        before.wf(),
        settled(before, joined),
        pass(before, between, joined, computes),
        pass(between, after, joined, computes),
        forall|e: EntityID, v: T, r: T| #[trigger] computes(e, v, r) ==> r == v,
    ensures
        between == before,
        after == before,
{
    lemma_identity_pass(before, between, joined, computes);
    lemma_identity_pass(before, after, joined, computes);
}

/// What a transform of a pass without secondary containers may return.
pub open spec fn computes0<T, F: Fn(EntityID, &T) -> T>(transform: F) -> spec_fn(
    EntityID,
    T,
    T,
) -> bool {
    |e: EntityID, v: T, r: T| call_ensures(transform, (e, &v), r)
}

/// What a transform may return in a pass joined with the container `s`.
pub open spec fn computes1<T1, T2, F: Fn(EntityID, &T1, &T2) -> T1>(
    transform: F,
    s: ContainerView<T2>,
) -> spec_fn(EntityID, T1, T1) -> bool {
    |e: EntityID, v: T1, r: T1|
        s.contains(e) && call_ensures(transform, (e, &v, &s.get(e).unwrap()), r)
}

/// What a transform may return in a pass joined with the containers `s2`
/// and `s3`.
pub open spec fn computes2<T1, T2, T3, F: Fn(EntityID, &T1, &T2, &T3) -> T1>(
    transform: F,
    s2: ContainerView<T2>,
    s3: ContainerView<T3>,
) -> spec_fn(EntityID, T1, T1) -> bool {
    |e: EntityID, v: T1, r: T1|
        s2.contains(e) && s3.contains(e) && call_ensures(
            transform,
            (e, &v, &s2.get(e).unwrap(), &s3.get(e).unwrap()),
            r,
        )
}

/// Runs one pass over a single container: `transform` is computed for every
/// stored row from the state before the pass, then the results are
/// committed.
pub fn system0<T, F>(container: &mut CContainer<T>, transform: F) where F: Fn(EntityID, &T) -> T
    requires
        old(container)@.wf(),
        forall|i: int|
            0 <= i < old(container)@.dense.len() ==> call_requires(
                transform,
                ((#[trigger] old(container)@.dense[i]).0, &old(container)@.dense[i].1),
            ),
    ensures
        pass(old(container)@, final(container)@, Set::full(), computes0(transform)),
        final(container)@.wf(),
{
    let ghost before = container@;
    let ghost computes = computes0(transform);
    let ghost mut picked: Seq<int> = Seq::empty();
    let mut output: Vec<(EntityID, T)> = Vec::new();
    let mut rows = container.iter();
    loop
        invariant
            rows.rows() == before.dense,
            computes == computes0(transform),
            buffered(before.dense, rows.position() as int, Set::full(), computes, output@, picked),
            forall|i: int|
                0 <= i < before.dense.len() ==> call_requires(
                    transform,
                    ((#[trigger] before.dense[i]).0, &before.dense[i].1),
                ),
        ensures
            buffered(
                before.dense,
                before.dense.len() as int,
                Set::full(),
                computes,
                output@,
                picked,
            ),
        decreases rows.rows().len() - rows.position(),
    {
        let ghost seen = rows.position() as int;
        match rows.next() {
            None => {
                break ;
            },
            Some((eid, data)) => {
                let new_data = transform(eid, data);
                proof {
                    lemma_buffer_step(
                        before.dense,
                        seen,
                        seen,
                        Set::full(),
                        computes,
                        output@,
                        picked,
                        (eid, new_data),
                    );
                    picked = picked.push(seen);
                }
                output.push((eid, new_data));
            },
        }
    }
    proof {
        lemma_commit_makes_pass(before, Set::full(), computes, output@, picked);
    }
    commit(container, output);
}

/// Runs one pass over the primary container `container.0` joined with
/// `container.1`: `transform` is computed for every primary row whose entity
/// the secondary container holds, from the state before the pass, then the
/// results are committed to the primary container.
pub fn system1<T1, T2, F>(container: (&mut CContainer<T1>, &CContainer<T2>), transform: F) where
    F: Fn(EntityID, &T1, &T2) -> T1,

    requires
        old(container.0)@.wf(),
        container.1@.wf(),
        forall|i: int|
            0 <= i < old(container.0)@.dense.len() && container.1@.contains(
                (#[trigger] old(container.0)@.dense[i]).0,
            ) ==> call_requires(
                transform,
                (
                    old(container.0)@.dense[i].0,
                    &old(container.0)@.dense[i].1,
                    &container.1@.get(old(container.0)@.dense[i].0).unwrap(),
                ),
            ),
    ensures
        pass(
            old(container.0)@,
            final(container.0)@,
            container.1@.entities(),
            computes1(transform, container.1@),
        ),
        final(container.0)@.wf(),
{
    let ghost before = container.0@;
    let ghost joined = container.1@.entities();
    let ghost computes = computes1(transform, container.1@);
    let ghost mut picked: Seq<int> = Seq::empty();
    let mut output: Vec<(EntityID, T1)> = Vec::new();
    let mut rows = container.0.iter().zip_entity(container.1);
    loop
        invariant
            rows.wf(),
            rows.rows() == before.dense,
            rows.other() == container.1@,
            joined == container.1@.entities(),
            computes == computes1(transform, container.1@),
            buffered(before.dense, rows.position() as int, joined, computes, output@, picked),
            forall|i: int|
                0 <= i < before.dense.len() && container.1@.contains((#[trigger] before.dense[i]).0)
                    ==> call_requires(
                    transform,
                    (
                        before.dense[i].0,
                        &before.dense[i].1,
                        &container.1@.get(before.dense[i].0).unwrap(),
                    ),
                ),
        ensures
            buffered(before.dense, before.dense.len() as int, joined, computes, output@, picked),
        decreases rows.rows().len() - rows.position(),
    {
        let ghost seen = rows.position() as int;
        match rows.next() {
            None => {
                proof {
                    lemma_buffer_done(before.dense, seen, joined, computes, output@, picked);
                }
                break ;
            },
            Some((eid, data1, data2)) => {
                let ghost at = rows.position() - 1;
                let new_data = transform(eid, data1, data2);
                proof {
                    lemma_buffer_step(
                        before.dense,
                        seen,
                        at,
                        joined,
                        computes,
                        output@,
                        picked,
                        (eid, new_data),
                    );
                    picked = picked.push(at);
                }
                output.push((eid, new_data));
            },
        }
    }
    proof {
        lemma_commit_makes_pass(before, joined, computes, output@, picked);
    }
    commit(container.0, output);
}

/// Runs one pass over the primary container `container.0` joined with
/// `container.1` and `container.2`: `transform` is computed for every primary
/// row whose entity both secondary containers hold, from the state before the
/// pass, then the results are committed to the primary container.
pub fn system2<T1, T2, T3, F>(
    container: (&mut CContainer<T1>, &CContainer<T2>, &CContainer<T3>),
    transform: F,
) where F: Fn(EntityID, &T1, &T2, &T3) -> T1
    requires
        old(container.0)@.wf(),
        container.1@.wf(),
        container.2@.wf(),
        forall|i: int|
            0 <= i < old(container.0)@.dense.len() && container.1@.contains(
                (#[trigger] old(container.0)@.dense[i]).0,
            ) && container.2@.contains(old(container.0)@.dense[i].0) ==> call_requires(
                transform,
                (
                    old(container.0)@.dense[i].0,
                    &old(container.0)@.dense[i].1,
                    &container.1@.get(old(container.0)@.dense[i].0).unwrap(),
                    &container.2@.get(old(container.0)@.dense[i].0).unwrap(),
                ),
            ),
    ensures
        pass(
            old(container.0)@,
            final(container.0)@,
            container.1@.entities().intersect(container.2@.entities()),
            computes2(transform, container.1@, container.2@),
        ),
        final(container.0)@.wf(),
{
    let ghost before = container.0@;
    let ghost joined = container.1@.entities().intersect(container.2@.entities());
    let ghost computes = computes2(transform, container.1@, container.2@);
    let ghost mut picked: Seq<int> = Seq::empty();
    let mut output: Vec<(EntityID, T1)> = Vec::new();
    let mut rows = container.0.iter().zip_entity2(container.1, container.2);
    loop
        invariant
            rows.wf(),
            rows.rows() == before.dense,
            rows.other1() == container.1@,
            rows.other2() == container.2@,
            joined == container.1@.entities().intersect(container.2@.entities()),
            computes == computes2(transform, container.1@, container.2@),
            buffered(before.dense, rows.position() as int, joined, computes, output@, picked),
            forall|i: int|
                0 <= i < before.dense.len() && container.1@.contains((#[trigger] before.dense[i]).0)
                    && container.2@.contains(before.dense[i].0) ==> call_requires(
                    transform,
                    (
                        before.dense[i].0,
                        &before.dense[i].1,
                        &container.1@.get(before.dense[i].0).unwrap(),
                        &container.2@.get(before.dense[i].0).unwrap(),
                    ),
                ),
        ensures
            buffered(before.dense, before.dense.len() as int, joined, computes, output@, picked),
        decreases rows.rows().len() - rows.position(),
    {
        let ghost seen = rows.position() as int;
        match rows.next() {
            None => {
                proof {
                    lemma_buffer_done(before.dense, seen, joined, computes, output@, picked);
                }
                break ;
            },
            Some((eid, data1, data2, data3)) => {
                let ghost at = rows.position() - 1;
                let new_data = transform(eid, data1, data2, data3);
                proof {
                    lemma_buffer_step(
                        before.dense,
                        seen,
                        at,
                        joined,
                        computes,
                        output@,
                        picked,
                        (eid, new_data),
                    );
                    picked = picked.push(at);
                }
                output.push((eid, new_data));
            },
        }
    }
    proof {
        lemma_commit_makes_pass(before, joined, computes, output@, picked);
    }
    commit(container.0, output);
}

} // verus!
