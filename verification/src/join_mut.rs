//! Joins whose base values are handed out to be changed in place, while the
//! secondary containers are only read.
//!
//! The fields of these joins are public, as those of the pass they hold, so
//! that a contract can speak of the base records as they are once the borrow
//! has ended.

use vstd::prelude::*;
use crate::component::{CContainer, ComponentIterMut};
use crate::entity::EntityID;
use crate::model::{none_joined, run_out};

verus! {

/// A pass over a base container joined with one secondary container, the
/// base values handed out to be changed in place.
pub struct ZipEntityMut<'a, T, U> {
    /// The pass over the base container.
    pub base: ComponentIterMut<'a, T>,
    /// The secondary container.
    pub other: &'a CContainer<U>,
}

/// A pass over a base container joined with two secondary containers, the
/// base values handed out to be changed in place.
pub struct ZipEntity2Mut<'a, T, U, V> {
    /// The pass over the base container.
    pub base: ComponentIterMut<'a, T>,
    /// The first secondary container.
    pub other1: &'a CContainer<U>,
    /// The second secondary container.
    pub other2: &'a CContainer<V>,
}

/// A pass over a base container joined with three secondary containers, the
/// base values handed out to be changed in place.
pub struct ZipEntity3Mut<'a, T, U, V, W> {
    /// The pass over the base container.
    pub base: ComponentIterMut<'a, T>,
    /// The first secondary container.
    pub other1: &'a CContainer<U>,
    /// The second secondary container.
    pub other2: &'a CContainer<V>,
    /// The third secondary container.
    pub other3: &'a CContainer<W>,
}

impl<'a, T> ComponentIterMut<'a, T> {
    /// Joins what is left of the pass with `other`.
    pub fn zip_entity<U>(self, other: &'a CContainer<U>) -> (r: ZipEntityMut<'a, T, U>)
        requires
            other@.wf(),
        ensures
            r.wf(),
            r.base == self,
            r.other == other,
    {
        ZipEntityMut { base: self, other: other }
    }

    /// Joins what is left of the pass with `other1` and `other2`.
    pub fn zip_entity2<U, V>(self, other1: &'a CContainer<U>, other2: &'a CContainer<V>) -> (r:
        ZipEntity2Mut<'a, T, U, V>)
        requires
            other1@.wf(),
            other2@.wf(),
        ensures
            r.wf(),
            r.base == self,
            r.other1 == other1,
            r.other2 == other2,
    {
        ZipEntity2Mut { base: self, other1: other1, other2: other2 }
    }

    /// Joins what is left of the pass with `other1`, `other2` and `other3`.
    pub fn zip_entity3<U, V, W>(
        self,
        other1: &'a CContainer<U>,
        other2: &'a CContainer<V>,
        other3: &'a CContainer<W>,
    ) -> (r: ZipEntity3Mut<'a, T, U, V, W>)
        requires
            other1@.wf(),
            other2@.wf(),
            other3@.wf(),
        ensures
            r.wf(),
            r.base == self,
            r.other1 == other1,
            r.other2 == other2,
            r.other3 == other3,
    {
        ZipEntity3Mut { base: self, other1: other1, other2: other2, other3: other3 }
    }
}

impl<'a, T, U> ZipEntityMut<'a, T, U> {
    /// The rows of the base container as the pass has left them so far.
    pub open spec fn rows(&self) -> Seq<(EntityID, T)> {
        self.base.rows()
    }

    /// The number of base rows that the pass has left behind.
    pub open spec fn position(&self) -> nat {
        self.base.position()
    }

    /// The secondary container is well formed.
    pub open spec fn wf(&self) -> bool {
        self.other@.wf()
    }

    /// The entities that the join lets through.
    pub open spec fn joined(&self) -> Set<EntityID> {
        self.other@.entities()
    }

    /// The next base row whose entity the secondary container holds, with
    /// the secondary value; the rows in between are skipped and stay as they
    /// are. Whatever is written through the handed-out base value is what
    /// the row then holds. `None` once no such row is left.
    pub fn next(&mut self) -> (r: Option<(EntityID, &mut T, &'a U)>)
        requires
            old(self).wf(),
        ensures
            *final(final(self).base.vec) == *final(old(self).base.vec),
            final(self).other == old(self).other,
            old(self).position() <= final(self).position(),
            match r {
                Some((e, b, o)) => {
                    &&& old(self).position() < final(self).position() <= old(self).rows().len()
                    &&& (e, *b) == old(self).rows()[final(self).position() - 1]
                    &&& old(self).other@.get(e) == Some(*o)
                    &&& none_joined(
                        old(self).rows(),
                        old(self).position() as int,
                        final(self).position() - 1,
                        old(self).joined(),
                    )
                    &&& final(self).rows() == old(self).rows().update(
                        final(self).position() - 1,
                        (e, *final(b)),
                    )
                },
                None => {
                    &&& final(self).rows() == old(self).rows()
                    &&& final(self).position() == run_out(
                        old(self).position(),
                        old(self).rows().len(),
                    )
                    &&& none_joined(
                        old(self).rows(),
                        old(self).position() as int,
                        old(self).rows().len() as int,
                        old(self).joined(),
                    )
                },
            },
    {
        loop
            invariant
                *final(self.base.vec) == *final(old(self).base.vec),
                self.rows() == old(self).rows(),
                self.other == old(self).other,
                self.wf(),
                old(self).position() <= self.position(),
                self.position() <= old(self).rows().len() || self.position() == old(
                    self,
                ).position(),
                none_joined(
                    old(self).rows(),
                    old(self).position() as int,
                    self.position() as int,
                    old(self).joined(),
                ),
            decreases self.rows().len() - self.position(),
        {
            let entity_id: EntityID = match self.base.peek() {
                None => {
                    return None;
                },
                Some(e) => e,
            };
            match self.other.get(entity_id) {
                Some(other_item) => {
                    return match self.base.next() {
                        Some((e, base)) => Some((e, base, other_item)),
                        None => None,
                    };
                },
                None => {
                    self.base.skip();
                },
            }
        }
    }
}

impl<'a, T, U, V> ZipEntity2Mut<'a, T, U, V> {
    /// The rows of the base container as the pass has left them so far.
    pub open spec fn rows(&self) -> Seq<(EntityID, T)> {
        self.base.rows()
    }

    /// The number of base rows that the pass has left behind.
    pub open spec fn position(&self) -> nat {
        self.base.position()
    }

    /// Both secondary containers are well formed.
    pub open spec fn wf(&self) -> bool {
        self.other1@.wf() && self.other2@.wf()
    }

    /// The entities that the join lets through.
    pub open spec fn joined(&self) -> Set<EntityID> {
        self.other1@.entities().intersect(self.other2@.entities())
    }

    /// The next base row whose entity both secondary containers hold, with
    /// the two secondary values; the rows in between are skipped and stay as
    /// they are. Whatever is written through the handed-out base value is
    /// what the row then holds. `None` once no such row is left.
    pub fn next(&mut self) -> (r: Option<(EntityID, &mut T, &'a U, &'a V)>)
        requires
            old(self).wf(),
        ensures
            *final(final(self).base.vec) == *final(old(self).base.vec),
            final(self).other1 == old(self).other1,
            final(self).other2 == old(self).other2,
            old(self).position() <= final(self).position(),
            match r {
                Some((e, b, o1, o2)) => {
                    &&& old(self).position() < final(self).position() <= old(self).rows().len()
                    &&& (e, *b) == old(self).rows()[final(self).position() - 1]
                    &&& old(self).other1@.get(e) == Some(*o1)
                    &&& old(self).other2@.get(e) == Some(*o2)
                    &&& none_joined(
                        old(self).rows(),
                        old(self).position() as int,
                        final(self).position() - 1,
                        old(self).joined(),
                    )
                    &&& final(self).rows() == old(self).rows().update(
                        final(self).position() - 1,
                        (e, *final(b)),
                    )
                },
                None => {
                    &&& final(self).rows() == old(self).rows()
                    &&& final(self).position() == run_out(
                        old(self).position(),
                        old(self).rows().len(),
                    )
                    &&& none_joined(
                        old(self).rows(),
                        old(self).position() as int,
                        old(self).rows().len() as int,
                        old(self).joined(),
                    )
                },
            },
    {
        loop
            invariant
                *final(self.base.vec) == *final(old(self).base.vec),
                self.rows() == old(self).rows(),
                self.other1 == old(self).other1,
                self.other2 == old(self).other2,
                self.wf(),
                old(self).position() <= self.position(),
                self.position() <= old(self).rows().len() || self.position() == old(
                    self,
                ).position(),
                none_joined(
                    old(self).rows(),
                    old(self).position() as int,
                    self.position() as int,
                    old(self).joined(),
                ),
            decreases self.rows().len() - self.position(),
        {
            let entity_id: EntityID = match self.base.peek() {
                None => {
                    return None;
                },
                Some(e) => e,
            };
            let other1_item = self.other1.get(entity_id);
            let other2_item = self.other2.get(entity_id);
            if other1_item.is_some() && other2_item.is_some() {
                return match self.base.next() {
                    Some((e, base)) => Some((e, base, other1_item.unwrap(), other2_item.unwrap())),
                    None => None,
                };
            }
            self.base.skip();
        }
    }
}

impl<'a, T, U, V, W> ZipEntity3Mut<'a, T, U, V, W> {
    /// The rows of the base container as the pass has left them so far.
    pub open spec fn rows(&self) -> Seq<(EntityID, T)> {
        self.base.rows()
    }

    /// The number of base rows that the pass has left behind.
    pub open spec fn position(&self) -> nat {
        self.base.position()
    }

    /// The three secondary containers are well formed.
    pub open spec fn wf(&self) -> bool {
        self.other1@.wf() && self.other2@.wf() && self.other3@.wf()
    }

    /// The entities that the join lets through.
    pub open spec fn joined(&self) -> Set<EntityID> {
        self.other1@.entities().intersect(self.other2@.entities()).intersect(
            self.other3@.entities(),
        )
    }

    /// The value of the next base row whose entity all three secondary
    /// containers hold, with the three secondary values; the rows in between
    /// are skipped and stay as they are. Whatever is written through the
    /// handed-out base value is what the row then holds. `None` once no such
    /// row is left.
    pub fn next(&mut self) -> (r: Option<(&mut T, &'a U, &'a V, &'a W)>)
        requires
            old(self).wf(),
        ensures
            *final(final(self).base.vec) == *final(old(self).base.vec),
            final(self).other1 == old(self).other1,
            final(self).other2 == old(self).other2,
            final(self).other3 == old(self).other3,
            old(self).position() <= final(self).position(),
            match r {
                Some((b, o1, o2, o3)) => {
                    let e = old(self).rows()[final(self).position() - 1].0;
                    &&& old(self).position() < final(self).position() <= old(self).rows().len()
                    &&& *b == old(self).rows()[final(self).position() - 1].1
                    &&& old(self).other1@.get(e) == Some(*o1)
                    &&& old(self).other2@.get(e) == Some(*o2)
                    &&& old(self).other3@.get(e) == Some(*o3)
                    &&& none_joined(
                        old(self).rows(),
                        old(self).position() as int,
                        final(self).position() - 1,
                        old(self).joined(),
                    )
                    &&& final(self).rows() == old(self).rows().update(
                        final(self).position() - 1,
                        (e, *final(b)),
                    )
                },
                None => {
                    &&& final(self).rows() == old(self).rows()
                    &&& final(self).position() == run_out(
                        old(self).position(),
                        old(self).rows().len(),
                    )
                    &&& none_joined(
                        old(self).rows(),
                        old(self).position() as int,
                        old(self).rows().len() as int,
                        old(self).joined(),
                    )
                },
            },
    {
        loop
            invariant
                *final(self.base.vec) == *final(old(self).base.vec),
                self.rows() == old(self).rows(),
                self.other1 == old(self).other1,
                self.other2 == old(self).other2,
                self.other3 == old(self).other3,
                self.wf(),
                old(self).position() <= self.position(),
                self.position() <= old(self).rows().len() || self.position() == old(
                    self,
                ).position(),
                none_joined(
                    old(self).rows(),
                    old(self).position() as int,
                    self.position() as int,
                    old(self).joined(),
                ),
            decreases self.rows().len() - self.position(),
        {
            let entity_id: EntityID = match self.base.peek() {
                None => {
                    return None;
                },
                Some(e) => e,
            };
            let other1_item = self.other1.get(entity_id);
            let other2_item = self.other2.get(entity_id);
            let other3_item = self.other3.get(entity_id);
            if other1_item.is_some() && other2_item.is_some() && other3_item.is_some() {
                return match self.base.next() {
                    Some((_, base)) => Some(
                        (base, other1_item.unwrap(), other2_item.unwrap(), other3_item.unwrap()),
                    ),
                    None => None,
                };
            }
            self.base.skip();
        }
    }
}

} // verus!
