//! The objects of a scene, in one table. An object is named by its index in
//! the table, which it keeps for good.

use vstd::prelude::*;
use crate::components::Position;
use crate::hitable::Hitable;
use crate::material::Material;

verus! {

/// An entry of the table: where the object lies, its shape, and its surface,
/// as far as each has been given.
#[derive(Clone, Copy, Debug, PartialEq, Eq, Structural)]
pub struct Entity {
    pub position: Option<Position>,
    pub hitable: Option<Hitable>,
    pub material: Option<Material>,
}

impl Entity {
    /// The object can be rendered: it has a position, a shape and a surface.
    pub open spec fn complete(self) -> bool {
        self.position is Some && self.hitable is Some && self.material is Some
    }

    /// An object with all three parts.
    pub fn new(position: Position, hitable: Hitable, material: Material) -> (e: Entity)
        ensures
            e == (Entity {
                position: Some(position),
                hitable: Some(hitable),
                material: Some(material),
            }),
            e.complete(),
    {
        Entity { position: Some(position), hitable: Some(hitable), material: Some(material) }
    }

    /// Whether the object can be rendered.
    pub fn is_complete(&self) -> (b: bool)
        ensures
            b == self.complete(),
    {
        self.position.is_some() && self.hitable.is_some() && self.material.is_some()
    }
}

/// The table of objects.
#[derive(Debug)]
pub struct Scene {
    pub entities: Vec<Entity>,
}

/// `ids` lists, in ascending order, the objects of the table that can be
/// rendered.
pub open spec fn lists_complete(entities: Seq<Entity>, ids: Seq<u32>) -> bool {
    &&& forall|j: int, k: int| 0 <= j < k < ids.len() ==> ids[j] < ids[k]
    &&& forall|k: int|
        0 <= k < ids.len() ==> (#[trigger] ids[k]) < entities.len() && entities[ids[k] as int].complete()
    &&& forall|i: int|
        0 <= i < entities.len() && (#[trigger] entities[i]).complete() ==> ids.contains(i as u32)
}

/// The objects of a table that an index can name: all of them, unless the
/// table holds more than there are indices.
pub open spec fn nameable(entities: Seq<Entity>) -> Seq<Entity> {
    if entities.len() <= u32::MAX + 1 {
        entities
    } else {
        entities.take(u32::MAX + 1)
    }
}

impl Scene {
    /// A table without objects.
    pub fn new() -> (s: Scene)
        ensures
            s.entities@.len() == 0,
    {
        Scene { entities: Vec::new() }
    }

    /// Enters an object and returns its index; `None`, and nothing entered,
    /// where the table holds as many objects as an index can name.
    pub fn create(&mut self, entity: Entity) -> (id: Option<u32>)
        ensures
            id is Some <==> old(self).entities@.len() <= u32::MAX,
            id matches Some(i) ==> i == old(self).entities@.len() && final(self).entities@ == old(
                self,
            ).entities@.push(entity),
            id is None ==> final(self).entities@ == old(self).entities@,
    {
        let n = self.entities.len();
        if n > u32::MAX as usize {
            return None;
        }
        self.entities.push(entity);
        Some(n as u32)
    }

    /// The object with the given index, if there is one.
    pub fn get(&self, id: u32) -> (e: Option<Entity>)
        ensures
            e == if id < self.entities@.len() {
                Some(self.entities@[id as int])
            } else {
                None
            },
    {
        if (id as usize) < self.entities.len() {
            Some(self.entities[id as usize])
        } else {
            None
        }
    }

    /// The surface of the object with the given index; `None` where there is
    /// no such object, or it has no surface.
    pub fn material(&self, id: u32) -> (m: Option<Material>)
        ensures
            m == if id < self.entities@.len() {
                self.entities@[id as int].material
            } else {
                None
            },
    {
        match self.get(id) {
            Some(e) => e.material,
            None => None,
        }
    }

    /// The objects that can be rendered, in ascending order of their indices.
    /// An object that lacks a position, a shape or a surface is left out.
    pub fn renderable(&self) -> (ids: Vec<u32>)
        ensures
            lists_complete(nameable(self.entities@), ids@),
    {
        let mut ids: Vec<u32> = Vec::new();
        let n = if self.entities.len() > u32::MAX as usize {
            u32::MAX as usize + 1
        } else {
            self.entities.len()
        };
        let mut i: usize = 0;
        while i < n
            invariant
                i <= n <= self.entities@.len(),
                n <= u32::MAX + 1,
                lists_complete(self.entities@.take(i as int), ids@),
            decreases n - i,
        {
            let ghost before = ids@;
            if self.entities[i].is_complete() {
                ids.push(i as u32);
            }
            proof {
                let shorter = self.entities@.take(i as int);
                let longer = self.entities@.take(i + 1);
                assert forall|k: int| 0 <= k < ids@.len() implies (#[trigger] ids@[k]) < longer.len()
                    && longer[ids@[k] as int].complete() by {
                    if k < before.len() {
                        assert(before[k] < shorter.len());
                        assert(shorter[before[k] as int].complete());
                    }
                }
                assert forall|j: int, k: int| 0 <= j < k < ids@.len() implies ids@[j] < ids@[k] by {
                    if k == before.len() {
                        assert(before[j] < shorter.len());
                    }
                }
                assert forall|e: int| 0 <= e < longer.len() && (#[trigger] longer[e]).complete() implies ids@.contains(
                    e as u32,
                ) by {
                    if e < i {
                        assert(shorter[e].complete());
                        assert(before.contains(e as u32));
                        let k = choose|k: int| 0 <= k < before.len() && before[k] == e as u32;
                        assert(ids@[k] == e as u32);
                    } else {
                        assert(ids@[before.len() as int] == e as u32);
                    }
                }
            }
            i = i + 1;
        }
        assert(self.entities@.take(n as int) =~= nameable(self.entities@));
        ids
    }
}

} // verus!
