//! Joins: a pass over one container's records that keeps the entities which
//! every secondary container holds too.

use vstd::prelude::*;
use crate::component::{CContainer, ComponentIter};
use crate::entity::EntityID;
use crate::model::{none_joined, run_out, ContainerView};

verus! {

/// A pass over a base container joined with one secondary container: it
/// yields the base rows, in the base's order, whose entity the secondary
/// container has a value for.
pub struct ZipEntity<'a, T, U> {
    base: ComponentIter<'a, T>,
    other: &'a CContainer<U>,
}

/// A pass over a base container joined with two secondary containers.
pub struct ZipEntity2<'a, T, U, V> {
    base: ComponentIter<'a, T>,
    other1: &'a CContainer<U>,
    other2: &'a CContainer<V>,
}

impl<'a, T> ComponentIter<'a, T> {
    /// Joins what is left of the pass with `other`.
    pub fn zip_entity<U>(self, other: &'a CContainer<U>) -> (r: ZipEntity<'a, T, U>)
        requires
            other@.wf(),
        ensures
            r.wf(),
            r.rows() == self.rows(),
            r.position() == self.position(),
            r.other() == other@,
    {
        ZipEntity { base: self, other: other }
    }

    /// Joins what is left of the pass with `other1` and `other2`.
    pub fn zip_entity2<U, V>(self, other1: &'a CContainer<U>, other2: &'a CContainer<V>) -> (r:
        ZipEntity2<'a, T, U, V>)
        requires
            other1@.wf(),
            other2@.wf(),
        ensures
            r.wf(),
            r.rows() == self.rows(),
            r.position() == self.position(),
            r.other1() == other1@,
            r.other2() == other2@,
    {
        ZipEntity2 { base: self, other1: other1, other2: other2 }
    }
}

impl<'a, T, U> ZipEntity<'a, T, U> {
    /// The rows of the base container, all of them.
    pub closed spec fn rows(&self) -> Seq<(EntityID, T)> {
        self.base.rows()
    }

    /// The number of base rows that the pass has left behind.
    pub closed spec fn position(&self) -> nat {
        self.base.position()
    }

    /// What the secondary container holds.
    pub closed spec fn other(&self) -> ContainerView<U> {
        self.other@
    }

    /// The secondary container is well formed.
    pub open spec fn wf(&self) -> bool {
        self.other().wf()
    }

    /// The entities that the join lets through.
    pub open spec fn joined(&self) -> Set<EntityID> {
        self.other().entities()
    }

    /// The next base row whose entity the secondary container holds, with
    /// the secondary value; the rows in between are skipped. `None` once no
    /// such row is left.
    pub fn next(&mut self) -> (r: Option<(EntityID, &'a T, &'a U)>)
        requires
            old(self).wf(),
        ensures
            final(self).rows() == old(self).rows(),
            final(self).other() == old(self).other(),
            old(self).position() <= final(self).position(),
            match r {
                Some((e, b, o)) => {
                    &&& old(self).position() < final(self).position() <= old(self).rows().len()
                    &&& (e, *b) == old(self).rows()[final(self).position() - 1]
                    &&& old(self).other().get(e) == Some(*o)
                    &&& none_joined(
                        old(self).rows(),
                        old(self).position() as int,
                        final(self).position() - 1,
                        old(self).joined(),
                    )
                },
                None => {
                    &&& final(self).position() == run_out(
                        old(self).position(),
                        old(self).rows().len(),
                    )
                    &&& none_joined(
                        old(self).rows(),
                        old(self).position() as int,
                        old(self).rows().len() as int,
                        old(self).joined(),
                    )
                },
            },
    {
        loop
            invariant
                self.rows() == old(self).rows(),
                self.other() == old(self).other(),
                self.wf(),
                old(self).position() <= self.position(),
                self.position() <= old(self).rows().len() || self.position() == old(
                    self,
                ).position(),
                none_joined(
                    old(self).rows(),
                    old(self).position() as int,
                    self.position() as int,
                    old(self).joined(),
                ),
            decreases self.rows().len() - self.position(),
        {
            match self.base.next() {
                None => {
                    return None;
                },
                Some((entity_id, base)) => {
                    if let Some(other_item) = self.other.get(entity_id) {
                        return Some((entity_id, base, other_item));
                    }
                },
            }
        }
    }
}

impl<'a, T, U, V> ZipEntity2<'a, T, U, V> {
    /// The rows of the base container, all of them.
    pub closed spec fn rows(&self) -> Seq<(EntityID, T)> {
        self.base.rows()
    }

    /// The number of base rows that the pass has left behind.
    pub closed spec fn position(&self) -> nat {
        self.base.position()
    }

    /// What the first secondary container holds.
    pub closed spec fn other1(&self) -> ContainerView<U> {
        self.other1@
    }

    /// What the second secondary container holds.
    pub closed spec fn other2(&self) -> ContainerView<V> {
        self.other2@
    }

    /// Both secondary containers are well formed.
    pub open spec fn wf(&self) -> bool {
        self.other1().wf() && self.other2().wf()
    }

    /// The entities that the join lets through.
    pub open spec fn joined(&self) -> Set<EntityID> {
        self.other1().entities().intersect(self.other2().entities())
    }

    /// The next base row whose entity both secondary containers hold, with
    /// the two secondary values; the rows in between are skipped. `None`
    /// once no such row is left.
    pub fn next(&mut self) -> (r: Option<(EntityID, &'a T, &'a U, &'a V)>)
        requires
            old(self).wf(),
        ensures
            final(self).rows() == old(self).rows(),
            final(self).other1() == old(self).other1(),
            final(self).other2() == old(self).other2(),
            old(self).position() <= final(self).position(),
            match r {
                Some((e, b, o1, o2)) => {
                    &&& old(self).position() < final(self).position() <= old(self).rows().len()
                    &&& (e, *b) == old(self).rows()[final(self).position() - 1]
                    &&& old(self).other1().get(e) == Some(*o1)
                    &&& old(self).other2().get(e) == Some(*o2)
                    &&& none_joined(
                        old(self).rows(),
                        old(self).position() as int,
                        final(self).position() - 1,
                        old(self).joined(),
                    )
                },
                None => {
                    &&& final(self).position() == run_out(
                        old(self).position(),
                        old(self).rows().len(),
                    )
                    &&& none_joined(
                        old(self).rows(),
                        old(self).position() as int,
                        old(self).rows().len() as int,
                        old(self).joined(),
                    )
                },
            },
    {
        loop
            invariant
                self.rows() == old(self).rows(),
                self.other1() == old(self).other1(),
                self.other2() == old(self).other2(),
                self.wf(),
                old(self).position() <= self.position(),
                self.position() <= old(self).rows().len() || self.position() == old(
                    self,
                ).position(),
                none_joined(
                    old(self).rows(),
                    old(self).position() as int,
                    self.position() as int,
                    old(self).joined(),
                ),
            decreases self.rows().len() - self.position(),
        {
            match self.base.next() {
                None => {
                    return None;
                },
                Some((entity_id, base)) => {
                    let other1_item = self.other1.get(entity_id);
                    let other2_item = self.other2.get(entity_id);
                    if other1_item.is_some() && other2_item.is_some() {
                        return Some((entity_id, base, other1_item.unwrap(), other2_item.unwrap()));
                    }
                },
            }
        }
    }
}

} // verus!
