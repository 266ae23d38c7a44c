//! Component records and the sparse-set container that stores them.

use vstd::prelude::*;
use std::collections::HashMap;
use crate::entity::EntityID;
use crate::model::ContainerView;

verus! {

/// A value of type `T` attached to an entity.
pub struct Component<T> {
    entity_id: EntityID,
    inner: T,
}

impl<T> View for Component<T> {
    type V = (EntityID, T);

    closed spec fn view(&self) -> (EntityID, T) {
        (self.entity_id, self.inner)
    }
}

impl<T> Component<T> {
    /// The entity that the value belongs to.
    pub fn entity_id(&self) -> (r: EntityID)
        ensures
            r == self@.0,
    {
        self.entity_id
    }

    /// Attaches `inner` to `entity_id`.
    pub fn new(entity_id: EntityID, inner: T) -> (r: Self)
        ensures
            r@ == (entity_id, inner),
    {
        Self { entity_id: entity_id, inner: inner }
    }

    /// The attached value.
    pub fn inner(&self) -> (r: &T)
        ensures
            *r == self@.1,
    {
        &self.inner
    }

    /// The attached value, to be changed in place; the entity stays.
    pub fn inner_mut(&mut self) -> (r: &mut T)
        ensures
            *r == old(self)@.1,
            final(self)@ == (old(self)@.0, *final(r)),
    {
        &mut self.inner
    }
}

/// Short name of [`ComponentContainer`].
pub type CContainer<T> = ComponentContainer<T>;

/// Sparse-set storage for the components of one type: the records in append
/// order, and an index from entity to the position of its record.
pub struct ComponentContainer<T> {
    map: HashMap<EntityID, usize>,
    vec: Vec<Component<T>>,
}

impl<T> View for ComponentContainer<T> {
    type V = ContainerView<T>;

    closed spec fn view(&self) -> ContainerView<T> {
        ContainerView {
            dense: self.vec@.map_values(|c: Component<T>| c@),
            index: Map::new(
                |k: EntityID| self.map@.contains_key(k),
                |k: EntityID| self.map@[k] as int,
            ),
        }
    }
}

impl<T> Default for ComponentContainer<T> {
    /// The container without records.
    fn default() -> (r: Self)
        ensures
            r@ == ContainerView::<T>::empty(),
            r@.wf(),
    {
        let r = Self { map: HashMap::new(), vec: Vec::new() };
        proof {
            assert(r@.dense =~= Seq::empty());
            assert(r@.index =~= Map::empty());
        }
        r
    }
}

impl<T> ComponentContainer<T> {
    /// Appends a record for `entity_id` and points the index at it. An
    /// earlier record of the same entity stays stored but is no longer found
    /// by a lookup.
    pub fn push(&mut self, entity_id: EntityID, item: T)
        requires
            old(self)@.wf(),
        ensures
            final(self)@ == old(self)@.push(entity_id, item),
            final(self)@.wf(),
    {
        self.vec.push(Component::<T>::new(entity_id, item));
        self.map.insert(entity_id, self.vec.len() - 1);
        proof {
            assert(self@.dense =~= old(self)@.push(entity_id, item).dense);
            assert(self@.index =~= old(self)@.push(entity_id, item).index);
        }
    }

    /// The value stored for `entity_id`, if the entity is indexed.
    pub fn get(&self, entity_id: EntityID) -> (r: Option<&T>)
        requires
            self@.wf(),
        ensures
            match r {
                Some(v) => self@.get(entity_id) == Some(*v),
                None => self@.get(entity_id) is None,
            },
    {
        let index: usize = match self.map.get(&entity_id) {
            Some(i) => *i,
            None => {
                return None;
            },
        };
        Some(self.vec[index].inner())
    }

    /// The value stored for `entity_id`, to be changed in place. Whatever is
    /// written through the result is what the container then holds for the
    /// entity; nothing else changes.
    pub fn get_mut(&mut self, entity_id: EntityID) -> (r: Option<&mut T>)
        requires
            old(self)@.wf(),
        ensures
            match r {
                Some(v) => old(self)@.get(entity_id) == Some(*v) && final(self)@ == old(self)@.set(
                    entity_id,
                    *final(v),
                ),
                None => old(self)@.get(entity_id) is None && final(self)@ == old(self)@,
            },
            final(self)@.wf(),
    {
        let index: usize = match self.map.get(&entity_id) {
            Some(i) => *i,
            None => {
                return None;
            },
        };
        let ghost before = self@;
        let ghost records = self.vec@;
        let r = self.vec[index].inner_mut();
        proof {
            let record = Component { entity_id: entity_id, inner: *final(r) };
            assert(before.set(entity_id, *final(r)).dense =~= records.update(
                index as int,
                record,
            ).map_values(|c: Component<T>| c@));
            crate::model::lemma_set(before, entity_id, *final(r));
        }
        Some(r)
    }

    /// Removes the record that a lookup of `entity_id` finds, in constant
    /// time: the last record takes its place and the index follows it. An
    /// entity that is not indexed is left alone.
    pub fn remove(&mut self, entity_id: EntityID)
        requires
            old(self)@.wf(),
        ensures
            final(self)@ == old(self)@.remove(entity_id),
            final(self)@.wf(),
    {
        let pos: usize = match self.map.get(&entity_id) {
            Some(i) => *i,
            None => {
                return ;
            },
        };
        proof {
            crate::model::lemma_remove(self@, entity_id);
        }
        let last: usize = self.vec.len() - 1;
        let moved: EntityID = self.vec[last].entity_id();
        self.map.remove(&entity_id);
        let follows: bool = match self.map.get(&moved) {
            Some(i) => *i == last,
            None => false,
        };
        if follows {
            self.map.insert(moved, pos);
        }
        self.vec.swap_remove(pos);
        proof {
            let want = old(self)@.remove(entity_id);
            assert(self@.dense =~= want.dense);
            assert(self@.index =~= want.index);
        }
    }

    /// A pass over the stored records in append order, those out of a
    /// lookup's reach included. Each call starts a pass of its own.
    pub fn iter(&self) -> (r: ComponentIter<'_, T>)
        ensures
            r.rows() == self@.dense,
            r.position() == 0,
    {
        ComponentIter { vec: &self.vec, pos: 0 }
    }

    /// A pass over the stored records in append order that hands each value
    /// out to be changed in place. The entities and the index stay; the
    /// container ends with the rows that the pass ends with.
    pub fn iter_mut(&mut self) -> (r: ComponentIterMut<'_, T>)
        ensures
            r.rows() == old(self)@.dense,
            r.position() == 0,
            final(self)@.index == old(self)@.index,
            final(self)@.dense == final(r.vec)@.map_values(|c: Component<T>| c@),
    {
        ComponentIterMut { vec: &mut self.vec, pos: 0 }
    }

    /// The number of stored records, those out of a lookup's reach included.
    pub fn len(&self) -> (r: usize)
        ensures
            r == self@.dense.len(),
    {
        self.vec.len()
    }
}

/// A pass over the records of a container, in append order.
pub struct ComponentIter<'a, T> {
    vec: &'a Vec<Component<T>>,
    pos: usize,
}

impl<'a, T> ComponentIter<'a, T> {
    /// The rows of the container that the pass runs over, all of them.
    pub closed spec fn rows(&self) -> Seq<(EntityID, T)> {
        self.vec@.map_values(|c: Component<T>| c@)
    }

    /// The number of rows that the pass has left behind.
    pub closed spec fn position(&self) -> nat {
        self.pos as nat
    }

    /// The next row, or `None` once every row was handed out.
    pub fn next(&mut self) -> (r: Option<(EntityID, &'a T)>)
        ensures
            final(self).rows() == old(self).rows(),
            match r {
                Some((e, v)) => {
                    &&& old(self).position() < old(self).rows().len()
                    &&& (e, *v) == old(self).rows()[old(self).position() as int]
                    &&& final(self).position() == old(self).position() + 1
                },
                None => {
                    &&& old(self).position() >= old(self).rows().len()
                    &&& final(self).position() == old(self).position()
                },
            },
    {
        if self.pos < self.vec.len() {
            let record = &self.vec[self.pos];
            self.pos = self.pos + 1;
            Some((record.entity_id(), record.inner()))
        } else {
            None
        }
    }
}

/// A pass over the records of a container, in append order, that hands each
/// value out to be changed in place.
///
/// The fields are public so that a contract can speak of the records behind
/// `vec` as they are once the borrow has ended.
pub struct ComponentIterMut<'a, T> {
    /// The records of the container, borrowed for the pass.
    pub vec: &'a mut Vec<Component<T>>,
    /// The number of records that the pass has left behind.
    pub pos: usize,
}

impl<'a, T> ComponentIterMut<'a, T> {
    /// The rows of the container as the pass has left them so far.
    pub open spec fn rows(&self) -> Seq<(EntityID, T)> {
        self.vec@.map_values(|c: Component<T>| c@)
    }

    /// The number of rows that the pass has left behind.
    pub open spec fn position(&self) -> nat {
        self.pos as nat
    }

    /// The entity of the next row, or `None` once every row was handed out.
    /// The pass stays where it is.
    pub fn peek(&self) -> (r: Option<EntityID>)
        ensures
            match r {
                Some(e) => self.position() < self.rows().len() && e == self.rows()[
                    self.position() as int
                ].0,
                None => self.position() >= self.rows().len(),
            },
    {
        if self.pos < self.vec.len() {
            Some(self.vec[self.pos].entity_id())
        } else {
            None
        }
    }

    /// Leaves the next row behind, unchanged. Nothing happens once every row
    /// was handed out.
    pub fn skip(&mut self)
        ensures
            *final(final(self).vec) == *final(old(self).vec),
            final(self).rows() == old(self).rows(),
            final(self).position() == if old(self).position() < old(self).rows().len() {
                old(self).position() + 1
            } else {
                old(self).position()
            },
    {
        if self.pos < self.vec.len() {
            self.pos = self.pos + 1;
        }
    }

    /// The next row, or `None` once every row was handed out. Whatever is
    /// written through the handed-out value is what the row then holds.
    pub fn next(&mut self) -> (r: Option<(EntityID, &mut T)>)
        ensures
            *final(final(self).vec) == *final(old(self).vec),
            match r {
                Some((e, v)) => {
                    &&& old(self).position() < old(self).rows().len()
                    &&& (e, *v) == old(self).rows()[old(self).position() as int]
                    &&& final(self).position() == old(self).position() + 1
                    &&& final(self).rows() == old(self).rows().update(
                        old(self).position() as int,
                        (e, *final(v)),
                    )
                },
                None => {
                    &&& old(self).position() >= old(self).rows().len()
                    &&& final(self).position() == old(self).position()
                    &&& final(self).rows() == old(self).rows()
                },
            },
    {
        if self.pos < self.vec.len() {
            let at: usize = self.pos;
            self.pos = at + 1;
            let e: EntityID = self.vec[at].entity_id();
            let ghost rows = self.rows();
            let ghost records = self.vec@;
            let v = self.vec[at].inner_mut();
            proof {
                let record = Component { entity_id: e, inner: *final(v) };
                assert(rows.update(at as int, (e, *final(v))) =~= records.update(
                    at as int,
                    record,
                ).map_values(|c: Component<T>| c@));
            }
            Some((e, v))
        } else {
            None
        }
    }
}

} // verus!
