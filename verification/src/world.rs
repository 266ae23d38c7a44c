//! A world: the counter that hands out entity ids, together with the
//! containers of a schema.

use vstd::prelude::*;
use crate::component::CContainer;
use crate::entity::{EntityID, ID};
use crate::model::{
    lemma_push_fresh_compact, lemma_remove, lemma_remove_compact, ContainerView,
};
use crate::registry::{GetComponent, GetComponentMut};

verus! {

/// A schema: the containers of a world, one per component type, written as
/// nested pairs that end in `()`, as in `(CContainer<A>, (CContainer<B>, ()))`.
pub trait Components: Sized {
    /// One value for each container of the schema, nested in the same way.
    type Values;

    /// Every container is well formed.
    spec fn wf(self) -> bool;

    /// No container stores a record.
    spec fn is_empty(self) -> bool;

    /// Every entity that some container indexes is smaller than `bound`.
    spec fn below(self, bound: EntityID) -> bool;

    /// No container indexes `id`.
    spec fn lacks(self, id: EntityID) -> bool;

    /// Every container is compact: each stored record is found by a lookup
    /// of its entity.
    spec fn compact(self) -> bool;

    /// Every container is what it was in `before` with the value for it in
    /// `values` pushed under `id`.
    spec fn pushed(self, before: Self, id: EntityID, values: Self::Values) -> bool;

    /// Every container is what it was in `before` with `id` removed.
    spec fn removed(self, before: Self, id: EntityID) -> bool;

    /// The schema with every container empty.
    fn empty() -> (r: Self)
        ensures
            r.wf(),
            r.is_empty(),
    ;

    /// Pushes each value of `values` into its container under `id`.
    fn push(&mut self, id: EntityID, values: Self::Values)
        requires
            old(self).wf(),
        ensures
            final(self).wf(),
            final(self).pushed(*old(self), id, values),
    ;

    /// Removes `id` from every container; a container that does not index it
    /// is left alone.
    fn remove(&mut self, id: EntityID)
        requires
            old(self).wf(),
        ensures
            final(self).wf(),
            final(self).removed(*old(self), id),
    ;

    /// An empty schema indexes no entity and is compact.
    proof fn lemma_empty(self, bound: EntityID)
        requires
            self.wf(),
            self.is_empty(),
        ensures
            self.below(bound),
            self.compact(),
    ;

    /// A push under an id that no container indexes keeps a compact schema
    /// compact.
    proof fn lemma_pushed_compact(self, before: Self, id: EntityID, values: Self::Values)
        requires
            before.wf(),
            before.compact(),
            before.lacks(id),
            self.pushed(before, id, values),
        ensures
            self.compact(),
    ;

    /// A removal keeps a compact schema compact.
    proof fn lemma_removed_compact(self, before: Self, id: EntityID)
        requires
            before.wf(),
            before.compact(),
            self.removed(before, id),
        ensures
            self.compact(),
    ;

    /// After a push under an id that bounds the indexed entities, the id's
    /// successor bounds them.
    proof fn lemma_pushed_below(self, before: Self, id: EntityID, values: Self::Values)
        requires
            before.wf(),
            self.pushed(before, id, values),
            before.below(id),
            id < u32::MAX,
        ensures
            self.below((id + 1) as u32),
    ;

    /// After the removal of `id` no container indexes it, and none indexes
    /// an entity that it did not index before.
    proof fn lemma_removed_lacks(self, before: Self, id: EntityID, bound: EntityID)
        requires
            before.wf(),
            self.removed(before, id),
            before.below(bound),
        ensures
            self.lacks(id),
            self.below(bound),
    ;

    /// A schema indexes no entity from its bound on.
    proof fn lemma_below_lacks(self, bound: EntityID, id: EntityID)
        requires
            self.below(bound),
            id >= bound,
        ensures
            self.lacks(id),
    ;
}

impl Components for () {
    type Values = ();

    open spec fn wf(self) -> bool {
        true
    }

    open spec fn is_empty(self) -> bool {
        true
    }

    open spec fn below(self, bound: EntityID) -> bool {
        true
    }

    open spec fn lacks(self, id: EntityID) -> bool {
        true
    }

    open spec fn compact(self) -> bool {
        true
    }

    open spec fn pushed(self, before: Self, id: EntityID, values: ()) -> bool {
        true
    }

    open spec fn removed(self, before: Self, id: EntityID) -> bool {
        true
    }

    fn empty() -> (r: Self) {
        ()
    }

    fn push(&mut self, id: EntityID, values: ()) {
    }

    fn remove(&mut self, id: EntityID) {
    }

    proof fn lemma_empty(self, bound: EntityID) {
    }

    proof fn lemma_pushed_compact(self, before: Self, id: EntityID, values: ()) {
    }

    proof fn lemma_removed_compact(self, before: Self, id: EntityID) {
    }

    proof fn lemma_pushed_below(self, before: Self, id: EntityID, values: ()) {
    }

    proof fn lemma_removed_lacks(self, before: Self, id: EntityID, bound: EntityID) {
    }

    proof fn lemma_below_lacks(self, bound: EntityID, id: EntityID) {
    }
}

impl<T, R: Components> Components for (CContainer<T>, R) {
    type Values = (T, R::Values);

    open spec fn wf(self) -> bool {
        self.0@.wf() && self.1.wf()
    }

    open spec fn is_empty(self) -> bool {
        self.0@ == ContainerView::<T>::empty() && self.1.is_empty()
    }

    open spec fn below(self, bound: EntityID) -> bool {
        (forall|e: EntityID| #[trigger] self.0@.contains(e) ==> e < bound) && self.1.below(bound)
    }

    open spec fn lacks(self, id: EntityID) -> bool {
        !self.0@.contains(id) && self.1.lacks(id)
    }

    open spec fn compact(self) -> bool {
        self.0@.compact() && self.1.compact()
    }

    open spec fn pushed(self, before: Self, id: EntityID, values: (T, R::Values)) -> bool {
        self.0@ == before.0@.push(id, values.0) && self.1.pushed(before.1, id, values.1)
    }

    open spec fn removed(self, before: Self, id: EntityID) -> bool {
        self.0@ == before.0@.remove(id) && self.1.removed(before.1, id)
    }

    fn empty() -> (r: Self) {
        (CContainer::default(), R::empty())
    }

    fn push(&mut self, id: EntityID, values: (T, R::Values)) {
        self.0.push(id, values.0);
        self.1.push(id, values.1);
    }

    fn remove(&mut self, id: EntityID) {
        self.0.remove(id);
        self.1.remove(id);
    }

    proof fn lemma_empty(self, bound: EntityID) {
        self.1.lemma_empty(bound);
    }

    proof fn lemma_pushed_compact(self, before: Self, id: EntityID, values: (T, R::Values)) {
        self.1.lemma_pushed_compact(before.1, id, values.1);
        lemma_push_fresh_compact(before.0@, id, values.0);
    }

    proof fn lemma_removed_compact(self, before: Self, id: EntityID) {
        self.1.lemma_removed_compact(before.1, id);
        lemma_remove_compact(before.0@, id);
    }

    proof fn lemma_pushed_below(self, before: Self, id: EntityID, values: (T, R::Values)) {
        self.1.lemma_pushed_below(before.1, id, values.1);
        assert forall|e: EntityID| #[trigger] self.0@.contains(e) implies e < id + 1 by {
            if e != id {
                assert(before.0@.contains(e));
            }
        }
    }

    proof fn lemma_removed_lacks(self, before: Self, id: EntityID, bound: EntityID) {
        self.1.lemma_removed_lacks(before.1, id, bound);
        lemma_remove(before.0@, id);
    }

    proof fn lemma_below_lacks(self, bound: EntityID, id: EntityID) {
        self.1.lemma_below_lacks(bound, id);
    }
}

/// A world: the next entity id to hand out, and the containers of a schema.
/// Ids are handed out in increasing order and never a second time.
pub struct World<C: Components> {
    next: EntityID,
    components: C,
}

impl<C: Components> World<C> {
    /// The id that the next entity gets.
    pub closed spec fn counter(&self) -> EntityID {
        self.next
    }

    /// The containers of the world.
    pub closed spec fn schema(&self) -> C {
        self.components
    }

    /// The containers are well formed, and every entity that one of them
    /// indexes was handed out by this world's counter.
    pub open spec fn wf(&self) -> bool {
        self.schema().wf() && self.schema().below(self.counter())
    }

    /// The id that the next entity gets.
    pub fn next_id(&self) -> (r: EntityID)
        ensures
            r == self.counter(),
    {
        self.next
    }

    /// The containers, to be read.
    pub fn components(&self) -> (r: &C)
        ensures
            *r == self.schema(),
    {
        &self.components
    }

    /// The containers, to be written; the counter stays.
    pub fn components_mut(&mut self) -> (r: &mut C)
        ensures
            *r == old(self).schema(),
            final(self).schema() == *final(r),
            final(self).counter() == old(self).counter(),
    {
        &mut self.components
    }

    /// Adds an entity: pushes each value of `values` into its container
    /// under the counter's id, then advances the counter. Returns the id.
    pub fn add_entity(&mut self, values: C::Values) -> (id: EntityID)
        requires
            old(self).wf(),
            old(self).counter() < u32::MAX,
        ensures
            id == old(self).counter(),
            final(self).counter() == id + 1,
            old(self).schema().lacks(id),
            final(self).schema().pushed(old(self).schema(), id, values),
            final(self).wf(),
            old(self).schema().compact() ==> final(self).schema().compact(),
    {
        let id: EntityID = self.next;
        let ghost before = self.components;
        self.components.push(id, values);
        self.next = id.next();
        proof {
            before.lemma_below_lacks(id, id);
            self.components.lemma_pushed_below(before, id, values);
            if before.compact() {
                self.components.lemma_pushed_compact(before, id, values);
            }
        }
        id
    }

    /// Removes an entity from every container; a container that does not
    /// index it is left alone. The counter stays, so the id is not handed
    /// out again.
    pub fn remove_entity(&mut self, id: EntityID)
        requires
            old(self).wf(),
        ensures
            final(self).schema().removed(old(self).schema(), id),
            final(self).schema().lacks(id),
            final(self).counter() == old(self).counter(),
            final(self).wf(),
            old(self).schema().compact() ==> final(self).schema().compact(),
    {
        let ghost before = self.components;
        self.components.remove(id);
        proof {
            self.components.lemma_removed_lacks(before, id, self.next);
            if before.compact() {
                self.components.lemma_removed_compact(before, id);
            }
        }
    }
}

impl<C: Components> Default for World<C> {
    /// The world without entities: every container empty, the counter at 0.
    fn default() -> (r: Self)
        ensures
            r.counter() == 0,
            r.schema().is_empty(),
            r.schema().compact(),
            r.wf(),
    {
        let r = World { next: 0, components: C::empty() };
        proof {
            r.components.lemma_empty(0);
        }
        r
    }
}

impl<'a, C: Components> GetComponent<'a, &'a C> for World<C> {
    fn get_component(&'a self) -> (r: &'a C)
        ensures
            *r == self.schema(),
    {
        &self.components
    }
}

impl<'a, C: Components> GetComponentMut<'a, &'a mut C> for World<C> {
    fn get_component_mut(&'a mut self) -> (r: &'a mut C)
        ensures
            *r == old(self).schema(),
            final(self).schema() == *final(r),
            final(self).counter() == old(self).counter(),
    {
        &mut self.components
    }
}

} // verus!
