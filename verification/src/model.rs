//! The mathematical model of a sparse-set container, and the laws that hold
//! of it.

use vstd::prelude::*;
use crate::entity::EntityID;

verus! {

/// What a container holds: the rows in the order in which they are stored,
/// and for each indexed entity the position of its row.
pub struct ContainerView<T> {
    /// The stored rows, oldest first.
    pub dense: Seq<(EntityID, T)>,
    /// The position in `dense` of the row that a lookup of an entity finds.
    pub index: Map<EntityID, int>,
}

impl<T> ContainerView<T> {
    /// Every indexed entity points at a row of its own, and only finitely
    /// many entities are indexed.
    pub open spec fn wf(self) -> bool {
        &&& self.index.dom().finite()
        &&& forall|k: EntityID| #[trigger]
            self.index.contains_key(k) ==> 0 <= self.index[k] < self.dense.len()
                && self.dense[self.index[k]].0 == k
    }

    /// The container without rows.
    pub open spec fn empty() -> Self {
        ContainerView { dense: Seq::empty(), index: Map::empty() }
    }

    /// Whether a lookup of `e` finds a row.
    pub open spec fn contains(self, e: EntityID) -> bool {
        self.index.contains_key(e)
    }

    /// The entities that a lookup finds.
    pub open spec fn entities(self) -> Set<EntityID> {
        self.index.dom()
    }

    /// The value that a lookup of `e` finds.
    pub open spec fn get(self, e: EntityID) -> Option<T> {
        if self.contains(e) {
            Some(self.dense[self.index[e]].1)
        } else {
            None
        }
    }

    /// Whether the row at position `i` is the one that a lookup of its
    /// entity finds.
    pub open spec fn reachable(self, i: int) -> bool {
        &&& 0 <= i < self.dense.len()
        &&& self.index.contains_key(self.dense[i].0)
        &&& self.index[self.dense[i].0] == i
    }

    /// Every stored row is the one that a lookup of its entity finds: no
    /// entity was pushed a second time while it had a row.
    pub open spec fn compact(self) -> bool {
        forall|i: int| 0 <= i < self.dense.len() ==> #[trigger] self.reachable(i)
    }

    /// Appends a row for `e` and makes it the one that a lookup finds. A row
    /// that `e` had before stays in `dense`, out of a lookup's reach.
    pub open spec fn push(self, e: EntityID, v: T) -> Self {
        ContainerView {
            dense: self.dense.push((e, v)),
            index: self.index.insert(e, self.dense.len() as int),
        }
    }

    /// Overwrites the value that a lookup of `e` finds; nothing changes when
    /// `e` is not indexed.
    pub open spec fn set(self, e: EntityID, v: T) -> Self {
        if self.contains(e) {
            ContainerView { dense: self.dense.update(self.index[e], (e, v)), index: self.index }
        } else {
            self
        }
    }

    /// Removes the row that a lookup of `e` finds: the last row takes its
    /// place, the index follows that row if it was the one a lookup of its
    /// entity found, and `e` leaves the index. Nothing changes when `e` is
    /// not indexed.
    pub open spec fn remove(self, e: EntityID) -> Self {
        if self.contains(e) {
            let pos = self.index[e];
            let last = self.dense.len() - 1;
            let moved = self.dense[last].0;
            let rest = self.index.remove(e);
            ContainerView {
                dense: self.dense.update(pos, self.dense[last]).drop_last(),
                index: if rest.contains_key(moved) && rest[moved] == last {
                    rest.insert(moved, pos)
                } else {
                    rest
                },
            }
        } else {
            self
        }
    }

    /// The container after the rows of `rows` were pushed, first to last.
    pub open spec fn push_all(self, rows: Seq<(EntityID, T)>) -> Self
        decreases rows.len(),
    {
        if rows.len() == 0 {
            self
        } else {
            self.push_all(rows.drop_last()).push(rows.last().0, rows.last().1)
        }
    }

    /// The container after the values of `updates` were written to their
    /// entities, first to last.
    pub open spec fn set_all(self, updates: Seq<(EntityID, T)>) -> Self
        decreases updates.len(),
    {
        if updates.len() == 0 {
            self
        } else {
            self.set_all(updates.drop_last()).set(updates.last().0, updates.last().1)
        }
    }

    /// The container after the entities of `ids` were removed, first to last.
    pub open spec fn remove_all(self, ids: Seq<EntityID>) -> Self
        decreases ids.len(),
    {
        if ids.len() == 0 {
            self
        } else {
            self.remove_all(ids.drop_last()).remove(ids.last())
        }
    }
}

/// No row of `rows` from position `from` up to, not including, `to` belongs
/// to an entity of `joined`.
pub open spec fn none_joined<T>(
    rows: Seq<(EntityID, T)>,
    from: int,
    to: int,
    joined: Set<EntityID>,
) -> bool {
    forall|j: int|
        from <= j < to && 0 <= j < rows.len() ==> !joined.contains((#[trigger] rows[j]).0)
}

/// Where a pass over `len` rows stands once it has run out of rows, if it
/// stood at `position` before: at the end of the rows, or where it was if
/// that is further on.
pub open spec fn run_out(position: nat, len: nat) -> nat {
    if position <= len {
        len
    } else {
        position
    }
}

/// The empty container is well formed and compact.
pub proof fn lemma_empty_wf<T>()
    ensures
        ContainerView::<T>::empty().wf(),
        ContainerView::<T>::empty().compact(),
        ContainerView::<T>::empty().entities() == Set::<EntityID>::empty(),
{
}

/// A push keeps the container well formed; a lookup of the pushed entity
/// finds the pushed value, and every other lookup finds what it found before.
pub proof fn lemma_push<T>(c: ContainerView<T>, e: EntityID, v: T)
    requires
        c.wf(),
    ensures
        c.push(e, v).wf(),
        c.push(e, v).get(e) == Some(v),
        c.push(e, v).entities() == c.entities().insert(e),
        forall|k: EntityID| k != e ==> #[trigger] c.push(e, v).get(k) == c.get(k),
{
}

/// A push for an entity without a row keeps a compact container compact.
pub proof fn lemma_push_fresh_compact<T>(c: ContainerView<T>, e: EntityID, v: T)
    requires
        c.wf(),
        c.compact(),
        !c.contains(e),
    ensures
        c.push(e, v).compact(),
{
    let d = c.push(e, v);
    assert forall|i: int| 0 <= i < d.dense.len() implies #[trigger] d.reachable(i) by {
        if i < c.dense.len() {
            assert(c.reachable(i));
        }
    }
}

/// A write keeps the container well formed and its entities, and changes
/// only what a lookup of the written entity finds.
pub proof fn lemma_set<T>(c: ContainerView<T>, e: EntityID, v: T)
    requires
        c.wf(),
    ensures
        c.set(e, v).wf(),
        c.set(e, v).index == c.index,
        c.set(e, v).dense.len() == c.dense.len(),
        c.set(e, v).get(e) == if c.contains(e) { Some(v) } else { None },
        forall|k: EntityID| k != e ==> #[trigger] c.set(e, v).get(k) == c.get(k),
{
}

/// A container whose values were rewritten, with the index, the number of
/// rows and the entity of each row as they were, is still well formed, and a
/// compact one is still compact.
pub proof fn lemma_rewritten_wf<T>(before: ContainerView<T>, after: ContainerView<T>)
    requires
        before.wf(),
        after.index == before.index,
        after.dense.len() == before.dense.len(),
        forall|i: int|
            0 <= i < before.dense.len() ==> (#[trigger] after.dense[i]).0 == before.dense[i].0,
    ensures
        after.wf(),
        after.entities() == before.entities(),
        before.compact() ==> after.compact(),
{
    if before.compact() {
        assert forall|i: int| 0 <= i < after.dense.len() implies #[trigger] after.reachable(i) by {
            assert(before.reachable(i));
        }
    }
}

/// A removal keeps the container well formed, takes exactly the removed
/// entity out of a lookup's reach, and leaves what every other lookup finds.
pub proof fn lemma_remove<T>(c: ContainerView<T>, e: EntityID)
    requires
        c.wf(),
    ensures
        c.remove(e).wf(),
        c.remove(e).get(e) is None,
        c.remove(e).entities() == c.entities().remove(e),
        forall|k: EntityID| k != e ==> #[trigger] c.remove(e).get(k) == c.get(k),
        c.contains(e) ==> c.remove(e).dense.len() == c.dense.len() - 1,
        !c.contains(e) ==> c.remove(e) == c,
{
}

/// A removal keeps a compact container compact.
pub proof fn lemma_remove_compact<T>(c: ContainerView<T>, e: EntityID)
    requires
        c.wf(),
        c.compact(),
    ensures
        c.remove(e).compact(),
{
    let d = c.remove(e);
    if c.contains(e) {
        let last = c.dense.len() - 1;
        assert(c.reachable(last));
        assert forall|i: int| 0 <= i < d.dense.len() implies #[trigger] d.reachable(i) by {
            assert(c.reachable(i));
        }
    }
}

/// After a run of pushes, a lookup of an entity finds the value of the
/// entity's most recent push.
pub proof fn lemma_lookup_after_pushes<T>(c: ContainerView<T>, rows: Seq<(EntityID, T)>, k: int)
    requires
        c.wf(),
        0 <= k < rows.len(),
        forall|j: int| k < j < rows.len() ==> (#[trigger] rows[j]).0 != rows[k].0,
    ensures
        c.push_all(rows).wf(),
        c.push_all(rows).get(rows[k].0) == Some(rows[k].1),
    decreases rows.len(),
{
    let init = rows.drop_last();
    lemma_push_all_wf(c, init);
    lemma_push(c.push_all(init), rows.last().0, rows.last().1);
    if k < rows.len() - 1 {
        lemma_lookup_after_pushes(c, init, k);
    }
}

/// After a run of pushes with distinct entities, a lookup of each pushed
/// entity finds the value that was pushed for it.
pub proof fn lemma_lookup_after_distinct_pushes<T>(c: ContainerView<T>, rows: Seq<(EntityID, T)>)
    requires
        c.wf(),
        forall|i: int, j: int|
            0 <= i < j < rows.len() ==> (#[trigger] rows[i]).0 != (#[trigger] rows[j]).0,
    ensures
        c.push_all(rows).wf(),
        forall|k: int|
            0 <= k < rows.len() ==> c.push_all(rows).get((#[trigger] rows[k]).0) == Some(rows[k].1),
{
    lemma_push_all_wf(c, rows);
    assert forall|k: int| 0 <= k < rows.len() implies c.push_all(rows).get((#[trigger] rows[k]).0)
        == Some(rows[k].1) by {
        lemma_lookup_after_pushes(c, rows, k);
    }
}

/// A run of pushes keeps the container well formed.
pub proof fn lemma_push_all_wf<T>(c: ContainerView<T>, rows: Seq<(EntityID, T)>)
    requires
        c.wf(),
    ensures
        c.push_all(rows).wf(),
        c.push_all(rows).dense == c.dense + rows,
    decreases rows.len(),
{
    if rows.len() > 0 {
        let init = rows.drop_last();
        lemma_push_all_wf(c, init);
        lemma_push(c.push_all(init), rows.last().0, rows.last().1);
    }
}

/// A run of pushes with distinct entities, none of which the container
/// indexes, keeps a compact container compact.
pub proof fn lemma_push_all_compact<T>(c: ContainerView<T>, rows: Seq<(EntityID, T)>)
    requires
        c.wf(),
        c.compact(),
        forall|i: int| 0 <= i < rows.len() ==> !c.contains((#[trigger] rows[i]).0),
        forall|i: int, j: int|
            0 <= i < j < rows.len() ==> (#[trigger] rows[i]).0 != (#[trigger] rows[j]).0,
    ensures
        c.push_all(rows).wf(),
        c.push_all(rows).compact(),
        forall|e: EntityID|
            c.push_all(rows).contains(e) <==> c.contains(e) || exists|i: int|
                0 <= i < rows.len() && (#[trigger] rows[i]).0 == e,
    decreases rows.len(),
{
    if rows.len() > 0 {
        let init = rows.drop_last();
        let last = rows.last();
        lemma_push_all_compact(c, init);
        let d = c.push_all(init);
        if d.contains(last.0) {
            let i = choose|i: int| 0 <= i < init.len() && (#[trigger] init[i]).0 == last.0;
            assert(rows[i].0 != rows[rows.len() - 1].0);
        }
        lemma_push(d, last.0, last.1);
        lemma_push_fresh_compact(d, last.0, last.1);
        assert forall|e: EntityID|
            c.push_all(rows).contains(e) <==> c.contains(e) || exists|i: int|
                0 <= i < rows.len() && (#[trigger] rows[i]).0 == e by {
            if c.push_all(rows).contains(e) && e != last.0 && !c.contains(e) {
                let i = choose|i: int| 0 <= i < init.len() && (#[trigger] init[i]).0 == e;
                assert(rows[i].0 == e);
            }
            if exists|i: int| 0 <= i < rows.len() && (#[trigger] rows[i]).0 == e {
                let i = choose|i: int| 0 <= i < rows.len() && (#[trigger] rows[i]).0 == e;
                if i < init.len() {
                    assert(init[i].0 == e);
                }
            }
        }
    }
}

/// In a compact container the stored rows are exactly what the lookups
/// find: each row is found by a lookup of its entity, each indexed entity has
/// a row, and there are as many rows as indexed entities.
pub proof fn lemma_rows_are_lookups<T>(c: ContainerView<T>)
    requires
        c.wf(),
        c.compact(),
    ensures
        forall|i: int|
            0 <= i < c.dense.len() ==> c.get((#[trigger] c.dense[i]).0) == Some(c.dense[i].1),
        forall|e: EntityID| #[trigger]
            c.contains(e) ==> 0 <= c.index[e] < c.dense.len() && c.dense[c.index[e]] == (
                e,
                c.get(e).unwrap(),
            ),
        c.dense.len() == c.entities().len(),
{
    assert forall|i: int| 0 <= i < c.dense.len() implies c.get((#[trigger] c.dense[i]).0) == Some(
        c.dense[i].1,
    ) by {
        assert(c.reachable(i));
    }
    let ids = c.dense.map_values(|r: (EntityID, T)| r.0);
    assert forall|i: int, j: int| 0 <= i < ids.len() && 0 <= j < ids.len() && i != j implies ids[i]
        != ids[j] by {
        assert(c.reachable(i));
        assert(c.reachable(j));
    }
    assert(ids.to_set() =~= c.entities()) by {
        assert forall|e: EntityID| ids.to_set().contains(e) <==> c.entities().contains(e) by {
            if c.entities().contains(e) {
                assert(ids[c.index[e]] == e);
            }
        }
    }
    ids.unique_seq_to_set();
}

/// Removing two entities leaves the same entities and the same lookups,
/// whichever is removed first.
pub proof fn lemma_remove_commutes<T>(c: ContainerView<T>, a: EntityID, b: EntityID)
    requires
        c.wf(),
    ensures
        c.remove(a).remove(b).entities() == c.remove(b).remove(a).entities(),
        forall|k: EntityID| #[trigger] c.remove(a).remove(b).get(k) == c.remove(b).remove(a).get(k),
{
    lemma_remove(c, a);
    lemma_remove(c, b);
    lemma_remove(c.remove(a), b);
    lemma_remove(c.remove(b), a);
}

/// After a run of removals the container indexes the entities it indexed
/// before but for the removed ones, and a lookup of each of them finds what
/// it found before.
pub proof fn lemma_remove_all<T>(c: ContainerView<T>, ids: Seq<EntityID>)
    requires
        c.wf(),
    ensures
        c.remove_all(ids).wf(),
        c.remove_all(ids).entities() == c.entities().difference(ids.to_set()),
        forall|k: EntityID|
            #[trigger] c.remove_all(ids).get(k) == if ids.to_set().contains(k) {
                None
            } else {
                c.get(k)
            },
    decreases ids.len(),
{
    if ids.len() > 0 {
        let init = ids.drop_last();
        let d = c.remove_all(init);
        lemma_remove_all(c, init);
        lemma_remove(d, ids.last());
        assert forall|k: EntityID| ids.to_set().contains(k) <==> init.to_set().contains(k) || k
            == ids.last() by {
            if ids.to_set().contains(k) {
                let i = choose|i: int| 0 <= i < ids.len() && ids[i] == k;
                if i < init.len() {
                    assert(init[i] == k);
                }
            }
        }
    }
}

/// Two runs of removals that name the same entities, in whatever order and
/// however often, leave the same entities and the same lookups.
pub proof fn lemma_removal_order<T>(
    c: ContainerView<T>,
    first: Seq<EntityID>,
    second: Seq<EntityID>,
)
    requires
        c.wf(),
        first.to_set() == second.to_set(),
    ensures
        c.remove_all(first).entities() == c.remove_all(second).entities(),
        forall|k: EntityID| #[trigger] c.remove_all(first).get(k) == c.remove_all(second).get(k),
{
    lemma_remove_all(c, first);
    lemma_remove_all(c, second);
}

} // verus!
