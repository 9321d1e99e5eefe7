//! Which entity owns each collider, so that a ray hit can be resolved to
//! the entity that was hit.
use crate::components::{ColliderKey, EntityId};
use vstd::prelude::*;

verus! {

/// A map from collider handles to the entities that own them.
pub struct ColliderOwners {
    entries: Vec<(ColliderKey, EntityId)>,
}

impl View for ColliderOwners {
    type V = Map<ColliderKey, EntityId>;

    closed spec fn view(&self) -> Map<ColliderKey, EntityId> {
        Map::new(
            |k: ColliderKey| exists|i: int| 0 <= i < self.entries@.len() && self.entries@[i].0 == k,
            |k: ColliderKey|
                self.entries@[choose|i: int| 0 <= i < self.entries@.len() && self.entries@[i].0 == k].1,
        )
    }
}

impl ColliderOwners {
    /// No key appears twice.
    pub closed spec fn wf(&self) -> bool {
        forall|i: int, j: int|
            0 <= i < j < self.entries@.len() ==> self.entries@[i].0 != self.entries@[j].0
    }

    /// A registry with no colliders.
    pub fn new() -> (r: ColliderOwners)
        ensures
            r.wf(),
            r@ == Map::<ColliderKey, EntityId>::empty(),
    {
        let r = ColliderOwners { entries: Vec::new() };
        assert(r@ =~= Map::<ColliderKey, EntityId>::empty());
        r
    }

    fn position(&self, collider: ColliderKey) -> (r: Option<usize>)
        requires
            self.wf(),
        ensures
            match r {
                Some(i) => i < self.entries@.len() && self.entries@[i as int].0 == collider,
                None => !self@.contains_key(collider),
            },
    {
        let mut i: usize = 0;
        while i < self.entries.len()
            invariant
                i <= self.entries@.len(),
                forall|j: int| 0 <= j < i ==> self.entries@[j].0 != collider,
            decreases self.entries@.len() - i,
        {
            if self.entries[i].0 == collider {
                return Some(i);
            }
            i += 1;
        }
        None
    }

    /// The entity that owns `collider`, if it is known.
    pub fn owner(&self, collider: ColliderKey) -> (r: Option<EntityId>)
        requires
            self.wf(),
        ensures
            r == (if self@.contains_key(collider) {
                Some(self@[collider])
            } else {
                None
            }),
    {
        match self.position(collider) {
            Some(i) => {
                let ghost k = choose|j: int|
                    0 <= j < self.entries@.len() && self.entries@[j].0 == collider;
                assert(self@.contains_key(collider));
                assert(k == i);
                Some(self.entries[i].1)
            },
            None => None,
        }
    }

    /// Records that `entity` owns `collider`, replacing any earlier owner.
    pub fn insert(&mut self, collider: ColliderKey, entity: EntityId)
        requires
            old(self).wf(),
        ensures
            final(self).wf(),
            final(self)@ == old(self)@.insert(collider, entity),
    {
        let ghost before = self@;
        match self.position(collider) {
            Some(i) => {
                self.entries.set(i, (collider, entity));
                assert forall|k: ColliderKey| #[trigger] self@.contains_key(k) implies k == collider
                    || before.contains_key(k) by {}
                assert(self@ =~= before.insert(collider, entity)) by {
                    assert forall|k: ColliderKey| #[trigger] self@.contains_key(k) ==
                        before.insert(collider, entity).contains_key(k) by {
                        if before.contains_key(k) {
                            let j = choose|j: int|
                                0 <= j < old(self).entries@.len() && old(self).entries@[j].0 == k;
                            assert(self.entries@[j].0 == k);
                        }
                    }
                    assert forall|k: ColliderKey| #[trigger] self@.contains_key(k) implies
                        self@[k] == before.insert(collider, entity)[k] by {
                        let j = choose|j: int|
                            0 <= j < self.entries@.len() && self.entries@[j].0 == k;
                        if k != collider {
                            assert(j != i);
                            let j0 = choose|j0: int|
                                0 <= j0 < old(self).entries@.len() && old(self).entries@[j0].0 == k;
                            assert(j0 == j);
                        }
                    }
                }
            },
            None => {
                self.entries.push((collider, entity));
                assert(self@ =~= before.insert(collider, entity)) by {
                    let n = old(self).entries@.len();
                    assert forall|k: ColliderKey| #[trigger] self@.contains_key(k) ==
                        before.insert(collider, entity).contains_key(k) by {
                        if k == collider {
                            assert(self.entries@[n as int].0 == k);
                        } else if before.contains_key(k) {
                            let j = choose|j: int|
                                0 <= j < old(self).entries@.len() && old(self).entries@[j].0 == k;
                            assert(self.entries@[j].0 == k);
                        }
                    }
                    assert forall|k: ColliderKey| #[trigger] self@.contains_key(k) implies
                        self@[k] == before.insert(collider, entity)[k] by {
                        let j = choose|j: int|
                            0 <= j < self.entries@.len() && self.entries@[j].0 == k;
                        if k == collider {
                            assert(j == n);
                        } else {
                            let j0 = choose|j0: int|
                                0 <= j0 < old(self).entries@.len() && old(self).entries@[j0].0 == k;
                            assert(j0 == j);
                        }
                    }
                }
            },
        }
    }
}

} // verus!
