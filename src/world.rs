use std::any::TypeId;
use std::collections::HashSet;
use vstd::prelude::*;

use crate::entity::Entity;
use crate::registry::{shape, stored, type_key, StoreMap};
use crate::component::Storage;
use crate::tags::EntityTags;

verus! {

broadcast use vstd::std_specs::hash::group_hash_axioms;

/// A type that may be stored in a world: plain data that can be copied and
/// shared between threads.
pub trait Component: Copy + Send + Sync + 'static {

}

/// Which index a new component store uses.
pub enum ComponentStorageKind {
    Sparse,
    HashMap,
}

/// Whether no two of the keys are equal.
fn all_distinct(keys: &[TypeId]) -> (r: bool)
    ensures
        r == keys@.no_duplicates(),
{
    let mut i: usize = 0;
    while i < keys.len()
        invariant
            i <= keys@.len(),
            forall|a: int, b: int| 0 <= a < b < keys@.len() && a < i ==> keys@[a] != keys@[b],
        decreases keys@.len() - i,
    {
        let mut j: usize = i + 1;
        while j < keys.len()
            invariant
                i < keys@.len(),
                i + 1 <= j <= keys@.len(),
                forall|a: int, b: int| 0 <= a < b < keys@.len() && a < i ==> keys@[a] != keys@[b],
                forall|b: int| i < b < j ==> keys@[i as int] != keys@[b],
            decreases keys@.len() - j,
        {
            if keys[i].eq(&keys[j]) {
                return false;
            }
            j = j + 1;
        }
        i = i + 1;
    }
    true
}

/// Component stores, one per component type, with tags and the lifecycle
/// of entity ids.
pub struct World {
    pub tags: EntityTags,
    map: StoreMap,
    entities: HashSet<usize>,
    /// Despawned ids, each once: a stack in place of a hash set, so that a
    /// spawn can take one out.
    dead_entities: Vec<usize>,
    next_entity_id: usize,
    size: usize,
}

impl World {
    /// The tags are well formed; every live or despawned id was issued
    /// before; no despawned id is live or waits twice.
    pub closed spec fn wf(&self) -> bool {
        &&& self.tags.wf()
        &&& self.dead_entities@.no_duplicates()
        &&& forall|x: usize| #[trigger]
            self.entities@.contains(x) ==> x < self.next_entity_id
        &&& forall|i: int|
            0 <= i < self.dead_entities@.len() ==> !self.entities@.contains(
                #[trigger] self.dead_entities@[i],
            ) && self.dead_entities@[i] < self.next_entity_id
    }

    /// The ids of the live entities.
    pub closed spec fn live(&self) -> Set<usize> {
        self.entities@
    }

    /// The ids that were despawned and wait to be issued again.
    pub closed spec fn free(&self) -> Set<usize> {
        self.dead_entities@.to_set()
    }

    /// The id a spawn issues when no despawned id waits.
    pub closed spec fn next_id(&self) -> nat {
        self.next_entity_id as nat
    }

    /// The entity capacity given to array-indexed stores.
    pub closed spec fn entity_capacity(&self) -> nat {
        self.size as nat
    }

    /// For each registered type id, the row entities and the capacity of
    /// its store.
    pub closed spec fn stores(&self) -> Map<TypeId, (Seq<usize>, Option<nat>)> {
        stored(self.map)
    }

    /// The type ids that hold a component store.
    pub open spec fn registered(&self) -> Set<TypeId> {
        self.stores().dom()
    }

    /// The tags and their entities.
    pub closed spec fn tag_view(&self) -> Map<Seq<char>, Set<Entity>> {
        self.tags@
    }

    /// Creates an empty world whose array-indexed stores hold the entities
    /// `0..size`.
    pub fn new(size: usize) -> (r: Self)
        ensures
            r.wf(),
            r.live() == Set::<usize>::empty(),
            r.free() == Set::<usize>::empty(),
            r.next_id() == 0,
            r.entity_capacity() == size,
            r.stores() == crate::registry::no_stores(),
            r.tag_view() == Map::<Seq<char>, Set<Entity>>::empty(),
    {
        let r = World {
            map: StoreMap::new(),
            entities: HashSet::new(),
            dead_entities: Vec::new(),
            next_entity_id: 0,
            tags: EntityTags::new(),
            size,
        };
        assert(r.free() =~= Set::<usize>::empty());
        r
    }
}

/// `w1` is `w0` after a spawn that returned `e`: a despawned id is issued
/// again when one waits, else the next fresh id; the stores and tags stay.
pub open spec fn spawned(w0: &World, w1: &World, e: Entity) -> bool {
    &&& !w0.live().contains(e.0)
    &&& w1.live() == w0.live().insert(e.0)
    &&& if w0.free() != Set::<usize>::empty() {
        &&& w0.free().contains(e.0)
        &&& w1.free() == w0.free().remove(e.0)
        &&& w1.next_id() == w0.next_id()
    } else {
        &&& e.0 == w0.next_id()
        &&& w1.free() == w0.free()
        &&& w1.next_id() == w0.next_id() + 1
    }
    &&& w1.stores() == w0.stores()
    &&& w1.tag_view() == w0.tag_view()
    &&& w1.entity_capacity() == w0.entity_capacity()
}

/// `w1` is `w0` after despawning the live entity `e`: its id waits to be
/// issued again and it has lost every tag; the stores stay.
pub open spec fn despawned(w0: &World, w1: &World, e: Entity) -> bool {
    &&& w1.live() == w0.live().remove(e.0)
    &&& w1.free() == w0.free().insert(e.0)
    &&& w1.next_id() == w0.next_id()
    &&& w1.stores() == w0.stores()
    &&& w1.entity_capacity() == w0.entity_capacity()
    &&& w1.tag_view().dom() == w0.tag_view().dom()
    &&& forall|t: Seq<char>| #[trigger]
        w1.tag_view().contains_key(t) ==> w1.tag_view()[t] == w0.tag_view()[t].remove(e)
}

/// Spawning A and then B, despawning A and spawning C in a world that holds
/// no despawned id gives C == A, and C differs from B, which is still live.
pub proof fn lemma_despawned_id_reused(
    w0: &World,
    w1: &World,
    w2: &World,
    w3: &World,
    w4: &World,
    a: Entity,
    b: Entity,
    c: Entity,
)
    requires
        w0.free() == Set::<usize>::empty(),
        spawned(w0, w1, a),
        spawned(w1, w2, b),
        despawned(w2, w3, a),
        spawned(w3, w4, c),
    ensures
        c == a,
        c != b,
{
    assert(w3.free() =~= Set::<usize>::empty().insert(a.0));
    assert(w3.free().contains(a.0));
    assert(w3.live().contains(b.0));
}

impl World {
    /// Spawns a new entity, reusing a despawned id when one waits.
    pub fn spawn(&mut self) -> (r: Entity)
        requires
            old(self).wf(),
            old(self).free() != Set::<usize>::empty() || old(self).next_id() < usize::MAX,
        ensures
            final(self).wf(),
            spawned(&*old(self), &*final(self), r),
    {
        match self.dead_entities.pop() {
            Some(dead_id) => {
                let ghost d = old(self).dead_entities@;
                proof {
                    assert(d[d.len() - 1] == dead_id);
                    assert(d.to_set().contains(dead_id));
                    assert(self.dead_entities@ =~= d.drop_last());
                }
                self.entities.insert(dead_id);
                proof {
                    assert(self.free() =~= old(self).free().remove(dead_id)) by {
                        assert forall|x: usize| #[trigger] self.free().contains(x) == old(
                            self,
                        ).free().remove(dead_id).contains(x) by {
                            if d.contains(x) && x != dead_id {
                                let k = choose|k: int| 0 <= k < d.len() && d[k] == x;
                                assert(self.dead_entities@[k] == x);
                            }
                            if self.dead_entities@.contains(x) {
                                let k = choose|k: int|
                                    0 <= k < self.dead_entities@.len() && self.dead_entities@[k]
                                        == x;
                                assert(d[k] == x);
                            }
                        }
                    }
                    assert(old(self).free() != Set::<usize>::empty());
                }
                Entity(dead_id)
            },
            None => {
                proof {
                    assert(old(self).dead_entities@ =~= Seq::<usize>::empty());
                    assert(old(self).free() =~= Set::<usize>::empty());
                }
                let id = self.next_entity_id;
                self.entities.insert(id);
                self.next_entity_id = id + 1;
                Entity(id)
            },
        }
    }

    /// Despawns a live entity: its id may be issued again, and it loses every
    /// tag. Its components stay in the stores.
    pub fn despawn(&mut self, entity: Entity)
        requires
            old(self).wf(),
            old(self).live().contains(entity.0),
        ensures
            final(self).wf(),
            despawned(&*old(self), &*final(self), entity),
    {
        vstd::pervasive::runtime_assert(self.entities.contains(&entity.0));
        self.entities.remove(&entity.0);
        self.dead_entities.push(entity.0);
        self.tags.remove_all_tags(&entity);
        proof {
            let d = old(self).dead_entities@;
            assert(!d.contains(entity.0));
            assert(self.dead_entities@ == d.push(entity.0));
            assert forall|x: usize| #[trigger] self.free().contains(x) == old(self).free().insert(
                entity.0,
            ).contains(x) by {
                if d.contains(x) {
                    let k = choose|k: int| 0 <= k < d.len() && d[k] == x;
                    assert(self.dead_entities@[k] == x);
                }
                if x == entity.0 {
                    assert(self.dead_entities@[d.len() as int] == x);
                }
                if self.dead_entities@.contains(x) && x != entity.0 {
                    let k = choose|k: int|
                        0 <= k < self.dead_entities@.len() && self.dead_entities@[k] == x;
                    assert(d[k] == x);
                }
            }
            assert(self.free() =~= old(self).free().insert(entity.0));
        }
    }
}

/// The type ids of 2 component types, in order.
pub open spec fn type_keys_two<A: Component, B: Component>() -> Seq<TypeId> {
    seq![type_key::<A>(), type_key::<B>()]
}

/// The type ids of 3 component types, in order.
pub open spec fn type_keys_three<A: Component, B: Component, C: Component>() -> Seq<TypeId> {
    seq![type_key::<A>(), type_key::<B>(), type_key::<C>()]
}

/// The type ids of 4 component types, in order.
pub open spec fn type_keys_four<
    A: Component,
    B: Component,
    C: Component,
    D: Component,
>() -> Seq<TypeId> {
    seq![
        type_key::<A>(),
        type_key::<B>(),
        type_key::<C>(),
        type_key::<D>(),
    ]
}

/// The type ids of 5 component types, in order.
pub open spec fn type_keys_five<
    A: Component,
    B: Component,
    C: Component,
    D: Component,
    E: Component,
>() -> Seq<TypeId> {
    seq![
        type_key::<A>(),
        type_key::<B>(),
        type_key::<C>(),
        type_key::<D>(),
        type_key::<E>(),
    ]
}

/// The type ids of 6 component types, in order.
pub open spec fn type_keys_six<
    A: Component,
    B: Component,
    C: Component,
    D: Component,
    E: Component,
    F: Component,
>() -> Seq<TypeId> {
    seq![
        type_key::<A>(),
        type_key::<B>(),
        type_key::<C>(),
        type_key::<D>(),
        type_key::<E>(),
        type_key::<F>(),
    ]
}

/// `w1` is `w0` with the same entities, tags and capacity.
pub open spec fn same_entities(w0: &World, w1: &World) -> bool {
    &&& w1.live() == w0.live()
    &&& w1.free() == w0.free()
    &&& w1.next_id() == w0.next_id()
    &&& w1.entity_capacity() == w0.entity_capacity()
    &&& w1.tag_view() == w0.tag_view()
    &&& w0.wf() ==> w1.wf()
}

/// The shape of a store just created with the given kind of index.
pub open spec fn fresh_shape(kind: ComponentStorageKind, size: nat) -> (Seq<usize>, Option<nat>) {
    match kind {
        ComponentStorageKind::Sparse => (Seq::empty(), Some(size)),
        ComponentStorageKind::HashMap => (Seq::empty(), None),
    }
}

/// The row entities of a store's shape, as entities.
pub open spec fn row_entities_of(shape: (Seq<usize>, Option<nat>)) -> Seq<Entity> {
    crate::component::as_entities(shape.0)
}

impl World {
    /// The tag index of the world.
    pub fn tag_index(&self) -> (r: &EntityTags)
        ensures
            r@ == self.tag_view(),
            self.wf() ==> r.wf(),
    {
        &self.tags
    }

    /// The tag index of the world, for writing; the world stays well formed
    /// as long as the index does.
    pub fn tag_index_mut(&mut self) -> (r: &mut EntityTags)
        ensures
            r@ == old(self).tag_view(),
            old(self).wf() ==> r.wf(),
            final(self).tag_view() == final(r)@,
            old(self).wf() && final(r).wf() ==> final(self).wf(),
            final(self).live() == old(self).live(),
            final(self).free() == old(self).free(),
            final(self).next_id() == old(self).next_id(),
            final(self).entity_capacity() == old(self).entity_capacity(),
            final(self).stores() == old(self).stores(),
    {
        &mut self.tags
    }

    /// Registers component type `T` with an array-indexed store. Returns
    /// `false`, changing nothing, where `T` was registered already.
    pub fn add<T: Component>(&mut self) -> (r: bool)
        ensures
            same_entities(&*old(self), &*final(self)),
            r == !old(self).registered().contains(type_key::<T>()),
            r ==> final(self).stores() == old(self).stores().insert(
                type_key::<T>(),
                fresh_shape(ComponentStorageKind::Sparse, old(self).entity_capacity()),
            ),
            !r ==> final(self).stores() == old(self).stores(),
    {
        self.add_with_storage::<T>(ComponentStorageKind::Sparse)
    }

    /// Registers component type `T` with a store of the given kind. Returns
    /// `false`, changing nothing, where `T` was registered already.
    pub fn add_with_storage<T: Component>(&mut self, kind: ComponentStorageKind) -> (r: bool)
        ensures
            same_entities(&*old(self), &*final(self)),
            r == !old(self).registered().contains(type_key::<T>()),
            r ==> final(self).stores() == old(self).stores().insert(
                type_key::<T>(),
                fresh_shape(kind, old(self).entity_capacity()),
            ),
            !r ==> final(self).stores() == old(self).stores(),
    {
        let key = TypeId::of::<T>();
        if self.map.contains(&key) {
            return false;
        }
        match kind {
            ComponentStorageKind::Sparse => {
                self.map.insert(key, Storage::<T>::new_sparse(self.size));
            },
            ComponentStorageKind::HashMap => {
                self.map.insert(key, Storage::<T>::new_hashmap());
            },
        }
        true
    }

    /// The store of component type `T`, if registered.
    pub fn get<T: Component>(&self) -> (r: Option<&Storage<T>>)
        ensures
            r is Some <==> self.registered().contains(type_key::<T>()),
            r matches Some(s) ==> shape(*s) == self.stores()[type_key::<T>()] && s.consistent(),
    {
        match self.map.get::<T>(&TypeId::of::<T>()) {
            Some(s) => {
                s.is_sparse();
                Some(s)
            },
            None => None,
        }
    }

    /// The store of component type `T`, if registered, for writing.
    pub fn get_mut<T: Component>(&mut self) -> (r: Option<&mut Storage<T>>)
        ensures
            same_entities(&*old(self), &*final(self)),
            r is Some <==> old(self).registered().contains(type_key::<T>()),
            r is None ==> final(self).stores() == old(self).stores(),
            r is Some ==> {
                &&& shape(*r.unwrap()) == old(self).stores()[type_key::<T>()]
                &&& r.unwrap().consistent()
                &&& final(self).stores() == old(self).stores().insert(
                    type_key::<T>(),
                    shape(*final(r.unwrap())),
                )
            },
    {
        match self.map.get_mut::<T>(&TypeId::of::<T>()) {
            Some(s) => {
                s.is_sparse();
                Some(s)
            },
            None => None,
        }
    }

    /// The store of component type `T`, if registered with an array index.
    pub fn get_sparse<T: Component>(&self) -> (r: Option<&Storage<T>>)
        ensures
            r is Some <==> self.registered().contains(type_key::<T>()) && self.stores()[type_key::<
                T,
            >()].1 is Some,
            r matches Some(s) ==> shape(*s) == self.stores()[type_key::<T>()] && s.consistent(),
    {
        match self.get::<T>() {
            Some(s) => if s.is_sparse() {
                Some(s)
            } else {
                None
            },
            None => None,
        }
    }

    /// The store of component type `T`, if registered with an array index,
    /// for writing.
    pub fn get_sparse_mut<T: Component>(&mut self) -> (r: Option<&mut Storage<T>>)
        ensures
            same_entities(&*old(self), &*final(self)),
            r is Some <==> old(self).registered().contains(type_key::<T>()) && old(
                self,
            ).stores()[type_key::<T>()].1 is Some,
            r is None ==> final(self).stores() == old(self).stores(),
            r is Some ==> {
                &&& shape(*r.unwrap()) == old(self).stores()[type_key::<T>()]
                &&& r.unwrap().consistent()
                &&& final(self).stores() == old(self).stores().insert(
                    type_key::<T>(),
                    shape(*final(r.unwrap())),
                )
            },
    {
        match self.get_mut::<T>() {
            Some(s) => if s.is_sparse() {
                Some(s)
            } else {
                None
            },
            None => None,
        }
    }

    /// The store of component type `T`, if registered with a hash index.
    pub fn get_hashmap<T: Component>(&self) -> (r: Option<&Storage<T>>)
        ensures
            r is Some <==> self.registered().contains(type_key::<T>()) && self.stores()[type_key::<
                T,
            >()].1 is None,
            r matches Some(s) ==> shape(*s) == self.stores()[type_key::<T>()] && s.consistent(),
    {
        match self.get::<T>() {
            Some(s) => if s.is_sparse() {
                None
            } else {
                Some(s)
            },
            None => None,
        }
    }

    /// The store of component type `T`, if registered with a hash index, for
    /// writing.
    pub fn get_hashmap_mut<T: Component>(&mut self) -> (r: Option<&mut Storage<T>>)
        ensures
            same_entities(&*old(self), &*final(self)),
            r is Some <==> old(self).registered().contains(type_key::<T>()) && old(
                self,
            ).stores()[type_key::<T>()].1 is None,
            r is None ==> final(self).stores() == old(self).stores(),
            r is Some ==> {
                &&& shape(*r.unwrap()) == old(self).stores()[type_key::<T>()]
                &&& r.unwrap().consistent()
                &&& final(self).stores() == old(self).stores().insert(
                    type_key::<T>(),
                    shape(*final(r.unwrap())),
                )
            },
    {
        match self.get_mut::<T>() {
            Some(s) => if s.is_sparse() {
                None
            } else {
                Some(s)
            },
            None => None,
        }
    }

    /// The rows of the store of component type `T`, in row order; none where
    /// `T` is not registered.
    pub fn iter<T: Component>(&self) -> (r: Vec<(Entity, &T)>)
        ensures
            !self.registered().contains(type_key::<T>()) ==> r@.len() == 0,
            self.registered().contains(type_key::<T>()) ==> r@.map_values(|p: (Entity, &T)| p.0)
                == row_entities_of(self.stores()[type_key::<T>()]),
    {
        match self.get::<T>() {
            Some(s) => {
                let r = s.iter();
                assert(r@.map_values(|p: (Entity, &T)| p.0) =~= crate::component::as_entities(
                    s.row_entities(),
                ));
                r
            },
            None => Vec::new(),
        }
    }

    /// The entities of the store of component type `T` and its values, for
    /// writing; both empty where `T` is not registered.
    pub fn iter_mut<T: Component>(&mut self) -> (r: (Vec<Entity>, &mut [T]))
        ensures
            same_entities(&*old(self), &*final(self)),
            final(self).stores() == old(self).stores(),
            !old(self).registered().contains(type_key::<T>()) ==> r.0@.len() == 0 && r.1@.len()
                == 0,
            old(self).registered().contains(type_key::<T>()) ==> {
                &&& r.0@ == row_entities_of(old(self).stores()[type_key::<T>()])
                &&& r.1@.len() == r.0@.len()
            },
    {
        proof {
            let k = type_key::<T>();
            if old(self).registered().contains(k) {
                assert(old(self).stores().insert(k, old(self).stores()[k]) =~= old(self).stores());
            }
        }
        match self.get_mut::<T>() {
            Some(s) => Storage::iter_mut(s),
            None => (Vec::new(), &mut []),
        }
    }

    /// The stores of 2 component types at once, each for writing: a type
    /// that is not registered gives `None` at its position. Where two of the
    /// types are the same type, every position gives `None`: a store is
    /// never handed out twice.
    pub fn get_two_mut<
        A: Component,
        B: Component,
    >(&mut self) -> (r: (
        Option<&mut Storage<A>>,
        Option<&mut Storage<B>>,
    ))
        ensures
            same_entities(&*old(self), &*final(self)),
            final(self).registered() == old(self).registered(),
            !type_keys_two::<A, B>().no_duplicates() ==> {
                &&& r.0 is None
                &&& r.1 is None
                &&& final(self).stores() == old(self).stores()
            },
            forall|k: TypeId|
                !type_keys_two::<A, B>().contains(k) ==> #[trigger] final(self).stores()[k]
                    == old(self).stores()[k],
            type_keys_two::<A, B>().no_duplicates() ==> (
                r.0 is Some <==> old(self).registered().contains(type_key::<A>())
            ),
            r.0 is Some ==> shape(*r.0.unwrap()) == old(self).stores()[type_key::<A>()],
            final(self).stores()[type_key::<A>()] == if r.0 is Some {
                shape(*final(r.0.unwrap()))
            } else {
                old(self).stores()[type_key::<A>()]
            },
            type_keys_two::<A, B>().no_duplicates() ==> (
                r.1 is Some <==> old(self).registered().contains(type_key::<B>())
            ),
            r.1 is Some ==> shape(*r.1.unwrap()) == old(self).stores()[type_key::<B>()],
            final(self).stores()[type_key::<B>()] == if r.1 is Some {
                shape(*final(r.1.unwrap()))
            } else {
                old(self).stores()[type_key::<B>()]
            },
    {
        let keys = [
            TypeId::of::<A>(),
            TypeId::of::<B>(),
        ];
        if all_distinct(&keys) {
            self.map.get_two_mut(keys)
        } else {
            (None, None)
        }
    }

    /// The stores of 3 component types at once, each for writing: a type
    /// that is not registered gives `None` at its position. Where two of the
    /// types are the same type, every position gives `None`: a store is
    /// never handed out twice.
    pub fn get_three_mut<
        A: Component,
        B: Component,
        C: Component,
    >(&mut self) -> (r: (
        Option<&mut Storage<A>>,
        Option<&mut Storage<B>>,
        Option<&mut Storage<C>>,
    ))
        ensures
            same_entities(&*old(self), &*final(self)),
            final(self).registered() == old(self).registered(),
            !type_keys_three::<A, B, C>().no_duplicates() ==> {
                &&& r.0 is None
                &&& r.1 is None
                &&& r.2 is None
                &&& final(self).stores() == old(self).stores()
            },
            forall|k: TypeId|
                !type_keys_three::<A, B, C>().contains(k) ==> #[trigger] final(self).stores()[k]
                    == old(self).stores()[k],
            type_keys_three::<A, B, C>().no_duplicates() ==> (
                r.0 is Some <==> old(self).registered().contains(type_key::<A>())
            ),
            r.0 is Some ==> shape(*r.0.unwrap()) == old(self).stores()[type_key::<A>()],
            final(self).stores()[type_key::<A>()] == if r.0 is Some {
                shape(*final(r.0.unwrap()))
            } else {
                old(self).stores()[type_key::<A>()]
            },
            type_keys_three::<A, B, C>().no_duplicates() ==> (
                r.1 is Some <==> old(self).registered().contains(type_key::<B>())
            ),
            r.1 is Some ==> shape(*r.1.unwrap()) == old(self).stores()[type_key::<B>()],
            final(self).stores()[type_key::<B>()] == if r.1 is Some {
                shape(*final(r.1.unwrap()))
            } else {
                old(self).stores()[type_key::<B>()]
            },
            type_keys_three::<A, B, C>().no_duplicates() ==> (
                r.2 is Some <==> old(self).registered().contains(type_key::<C>())
            ),
            r.2 is Some ==> shape(*r.2.unwrap()) == old(self).stores()[type_key::<C>()],
            final(self).stores()[type_key::<C>()] == if r.2 is Some {
                shape(*final(r.2.unwrap()))
            } else {
                old(self).stores()[type_key::<C>()]
            },
    {
        let keys = [
            TypeId::of::<A>(),
            TypeId::of::<B>(),
            TypeId::of::<C>(),
        ];
        if all_distinct(&keys) {
            self.map.get_three_mut(keys)
        } else {
            (None, None, None)
        }
    }

    /// The stores of 4 component types at once, each for writing: a type
    /// that is not registered gives `None` at its position. Where two of the
    /// types are the same type, every position gives `None`: a store is
    /// never handed out twice.
    pub fn get_four_mut<
        A: Component,
        B: Component,
        C: Component,
        D: Component,
    >(&mut self) -> (r: (
        Option<&mut Storage<A>>,
        Option<&mut Storage<B>>,
        Option<&mut Storage<C>>,
        Option<&mut Storage<D>>,
    ))
        ensures
            same_entities(&*old(self), &*final(self)),
            final(self).registered() == old(self).registered(),
            !type_keys_four::<A, B, C, D>().no_duplicates() ==> {
                &&& r.0 is None
                &&& r.1 is None
                &&& r.2 is None
                &&& r.3 is None
                &&& final(self).stores() == old(self).stores()
            },
            forall|k: TypeId|
                !type_keys_four::<A, B, C, D>().contains(k) ==> #[trigger] final(self).stores()[k]
                    == old(self).stores()[k],
            type_keys_four::<A, B, C, D>().no_duplicates() ==> (
                r.0 is Some <==> old(self).registered().contains(type_key::<A>())
            ),
            r.0 is Some ==> shape(*r.0.unwrap()) == old(self).stores()[type_key::<A>()],
            final(self).stores()[type_key::<A>()] == if r.0 is Some {
                shape(*final(r.0.unwrap()))
            } else {
                old(self).stores()[type_key::<A>()]
            },
            type_keys_four::<A, B, C, D>().no_duplicates() ==> (
                r.1 is Some <==> old(self).registered().contains(type_key::<B>())
            ),
            r.1 is Some ==> shape(*r.1.unwrap()) == old(self).stores()[type_key::<B>()],
            final(self).stores()[type_key::<B>()] == if r.1 is Some {
                shape(*final(r.1.unwrap()))
            } else {
                old(self).stores()[type_key::<B>()]
            },
            type_keys_four::<A, B, C, D>().no_duplicates() ==> (
                r.2 is Some <==> old(self).registered().contains(type_key::<C>())
            ),
            r.2 is Some ==> shape(*r.2.unwrap()) == old(self).stores()[type_key::<C>()],
            final(self).stores()[type_key::<C>()] == if r.2 is Some {
                shape(*final(r.2.unwrap()))
            } else {
                old(self).stores()[type_key::<C>()]
            },
            type_keys_four::<A, B, C, D>().no_duplicates() ==> (
                r.3 is Some <==> old(self).registered().contains(type_key::<D>())
            ),
            r.3 is Some ==> shape(*r.3.unwrap()) == old(self).stores()[type_key::<D>()],
            final(self).stores()[type_key::<D>()] == if r.3 is Some {
                shape(*final(r.3.unwrap()))
            } else {
                old(self).stores()[type_key::<D>()]
            },
    {
        let keys = [
            TypeId::of::<A>(),
            TypeId::of::<B>(),
            TypeId::of::<C>(),
            TypeId::of::<D>(),
        ];
        if all_distinct(&keys) {
            self.map.get_four_mut(keys)
        } else {
            (None, None, None, None)
        }
    }

    /// The stores of 5 component types at once, each for writing: a type
    /// that is not registered gives `None` at its position. Where two of the
    /// types are the same type, every position gives `None`: a store is
    /// never handed out twice.
    pub fn get_five_mut<
        A: Component,
        B: Component,
        C: Component,
        D: Component,
        E: Component,
    >(&mut self) -> (r: (
        Option<&mut Storage<A>>,
        Option<&mut Storage<B>>,
        Option<&mut Storage<C>>,
        Option<&mut Storage<D>>,
        Option<&mut Storage<E>>,
    ))
        ensures
            same_entities(&*old(self), &*final(self)),
            final(self).registered() == old(self).registered(),
            !type_keys_five::<A, B, C, D, E>().no_duplicates() ==> {
                &&& r.0 is None
                &&& r.1 is None
                &&& r.2 is None
                &&& r.3 is None
                &&& r.4 is None
                &&& final(self).stores() == old(self).stores()
            },
            forall|k: TypeId|
                !type_keys_five::<A, B, C, D, E>().contains(k)
                    ==> #[trigger] final(self).stores()[k] == old(self).stores()[k],
            type_keys_five::<A, B, C, D, E>().no_duplicates() ==> (
                r.0 is Some <==> old(self).registered().contains(type_key::<A>())
            ),
            r.0 is Some ==> shape(*r.0.unwrap()) == old(self).stores()[type_key::<A>()],
            final(self).stores()[type_key::<A>()] == if r.0 is Some {
                shape(*final(r.0.unwrap()))
            } else {
                old(self).stores()[type_key::<A>()]
            },
            type_keys_five::<A, B, C, D, E>().no_duplicates() ==> (
                r.1 is Some <==> old(self).registered().contains(type_key::<B>())
            ),
            r.1 is Some ==> shape(*r.1.unwrap()) == old(self).stores()[type_key::<B>()],
            final(self).stores()[type_key::<B>()] == if r.1 is Some {
                shape(*final(r.1.unwrap()))
            } else {
                old(self).stores()[type_key::<B>()]
            },
            type_keys_five::<A, B, C, D, E>().no_duplicates() ==> (
                r.2 is Some <==> old(self).registered().contains(type_key::<C>())
            ),
            r.2 is Some ==> shape(*r.2.unwrap()) == old(self).stores()[type_key::<C>()],
            final(self).stores()[type_key::<C>()] == if r.2 is Some {
                shape(*final(r.2.unwrap()))
            } else {
                old(self).stores()[type_key::<C>()]
            },
            type_keys_five::<A, B, C, D, E>().no_duplicates() ==> (
                r.3 is Some <==> old(self).registered().contains(type_key::<D>())
            ),
            r.3 is Some ==> shape(*r.3.unwrap()) == old(self).stores()[type_key::<D>()],
            final(self).stores()[type_key::<D>()] == if r.3 is Some {
                shape(*final(r.3.unwrap()))
            } else {
                old(self).stores()[type_key::<D>()]
            },
            type_keys_five::<A, B, C, D, E>().no_duplicates() ==> (
                r.4 is Some <==> old(self).registered().contains(type_key::<E>())
            ),
            r.4 is Some ==> shape(*r.4.unwrap()) == old(self).stores()[type_key::<E>()],
            final(self).stores()[type_key::<E>()] == if r.4 is Some {
                shape(*final(r.4.unwrap()))
            } else {
                old(self).stores()[type_key::<E>()]
            },
    {
        let keys = [
            TypeId::of::<A>(),
            TypeId::of::<B>(),
            TypeId::of::<C>(),
            TypeId::of::<D>(),
            TypeId::of::<E>(),
        ];
        if all_distinct(&keys) {
            self.map.get_five_mut(keys)
        } else {
            (None, None, None, None, None)
        }
    }

    /// The stores of 6 component types at once, each for writing: a type
    /// that is not registered gives `None` at its position. Where two of the
    /// types are the same type, every position gives `None`: a store is
    /// never handed out twice.
    pub fn get_six_mut<
        A: Component,
        B: Component,
        C: Component,
        D: Component,
        E: Component,
        F: Component,
    >(&mut self) -> (r: (
        Option<&mut Storage<A>>,
        Option<&mut Storage<B>>,
        Option<&mut Storage<C>>,
        Option<&mut Storage<D>>,
        Option<&mut Storage<E>>,
        Option<&mut Storage<F>>,
    ))
        ensures
            same_entities(&*old(self), &*final(self)),
            final(self).registered() == old(self).registered(),
            !type_keys_six::<A, B, C, D, E, F>().no_duplicates() ==> {
                &&& r.0 is None
                &&& r.1 is None
                &&& r.2 is None
                &&& r.3 is None
                &&& r.4 is None
                &&& r.5 is None
                &&& final(self).stores() == old(self).stores()
            },
            forall|k: TypeId|
                !type_keys_six::<A, B, C, D, E, F>().contains(k)
                    ==> #[trigger] final(self).stores()[k] == old(self).stores()[k],
            type_keys_six::<A, B, C, D, E, F>().no_duplicates() ==> (
                r.0 is Some <==> old(self).registered().contains(type_key::<A>())
            ),
            r.0 is Some ==> shape(*r.0.unwrap()) == old(self).stores()[type_key::<A>()],
            final(self).stores()[type_key::<A>()] == if r.0 is Some {
                shape(*final(r.0.unwrap()))
            } else {
                old(self).stores()[type_key::<A>()]
            },
            type_keys_six::<A, B, C, D, E, F>().no_duplicates() ==> (
                r.1 is Some <==> old(self).registered().contains(type_key::<B>())
            ),
            r.1 is Some ==> shape(*r.1.unwrap()) == old(self).stores()[type_key::<B>()],
            final(self).stores()[type_key::<B>()] == if r.1 is Some {
                shape(*final(r.1.unwrap()))
            } else {
                old(self).stores()[type_key::<B>()]
            },
            type_keys_six::<A, B, C, D, E, F>().no_duplicates() ==> (
                r.2 is Some <==> old(self).registered().contains(type_key::<C>())
            ),
            r.2 is Some ==> shape(*r.2.unwrap()) == old(self).stores()[type_key::<C>()],
            final(self).stores()[type_key::<C>()] == if r.2 is Some {
                shape(*final(r.2.unwrap()))
            } else {
                old(self).stores()[type_key::<C>()]
            },
            type_keys_six::<A, B, C, D, E, F>().no_duplicates() ==> (
                r.3 is Some <==> old(self).registered().contains(type_key::<D>())
            ),
            r.3 is Some ==> shape(*r.3.unwrap()) == old(self).stores()[type_key::<D>()],
            final(self).stores()[type_key::<D>()] == if r.3 is Some {
                shape(*final(r.3.unwrap()))
            } else {
                old(self).stores()[type_key::<D>()]
            },
            type_keys_six::<A, B, C, D, E, F>().no_duplicates() ==> (
                r.4 is Some <==> old(self).registered().contains(type_key::<E>())
            ),
            r.4 is Some ==> shape(*r.4.unwrap()) == old(self).stores()[type_key::<E>()],
            final(self).stores()[type_key::<E>()] == if r.4 is Some {
                shape(*final(r.4.unwrap()))
            } else {
                old(self).stores()[type_key::<E>()]
            },
            type_keys_six::<A, B, C, D, E, F>().no_duplicates() ==> (
                r.5 is Some <==> old(self).registered().contains(type_key::<F>())
            ),
            r.5 is Some ==> shape(*r.5.unwrap()) == old(self).stores()[type_key::<F>()],
            final(self).stores()[type_key::<F>()] == if r.5 is Some {
                shape(*final(r.5.unwrap()))
            } else {
                old(self).stores()[type_key::<F>()]
            },
    {
        let keys = [
            TypeId::of::<A>(),
            TypeId::of::<B>(),
            TypeId::of::<C>(),
            TypeId::of::<D>(),
            TypeId::of::<E>(),
            TypeId::of::<F>(),
        ];
        if all_distinct(&keys) {
            self.map.get_six_mut(keys)
        } else {
            (None, None, None, None, None, None)
        }
    }
}

/// Mutable access to the stores of a tuple of component types at once.
pub trait FetchMut<'a> {
    type Output;

    /// The type ids of the tuple's types, in order.
    spec fn keys() -> Seq<TypeId>;

    /// The row entities and capacity of each returned store, in order.
    spec fn shapes(out: Self::Output) -> Seq<(Seq<usize>, Option<nat>)>;

    /// The stores of all the types, or `None` where any one is missing or
    /// two of the types are the same type. The stores returned are the
    /// world's stores of those types; no other store changes.
    fn fetch(world: &'a mut World) -> (r: Option<Self::Output>)
        ensures
            same_entities(&*old(world), &*final(world)),
            final(world).registered() == old(world).registered(),
            r is Some <==> Self::keys().no_duplicates() && forall|i: int|
                0 <= i < Self::keys().len() ==> old(world).registered().contains(
                    #[trigger] Self::keys()[i],
                ),
            r is None ==> final(world).stores() == old(world).stores(),
            r is Some ==> {
                &&& Self::shapes(r.unwrap()).len() == Self::keys().len()
                &&& forall|i: int|
                    0 <= i < Self::keys().len() ==> #[trigger] Self::shapes(r.unwrap())[i] == old(
                        world,
                    ).stores()[Self::keys()[i]]
                &&& forall|k: TypeId|
                    !Self::keys().contains(k) ==> #[trigger] final(world).stores()[k] == old(
                        world,
                    ).stores()[k]
            },
    ;
}

impl<'a, A: Component> FetchMut<'a> for (A,) {
    type Output = &'a mut Storage<A>;

    open spec fn keys() -> Seq<TypeId> {
        seq![type_key::<A>()]
    }

    open spec fn shapes(out: Self::Output) -> Seq<(Seq<usize>, Option<nat>)> {
        seq![shape(*out)]
    }


    fn fetch(world: &'a mut World) -> (r: Option<Self::Output>) {
        proof {
            let keys = seq![type_key::<A>()];
            assert(keys[0] == type_key::<A>());
            assert(keys.no_duplicates());
        }
        world.get_mut::<A>()
    }
}

impl<
    'a,
    A: Component,
    B: Component,
> FetchMut<'a> for (A, B) {
    type Output = (
        &'a mut Storage<A>,
        &'a mut Storage<B>,
    );

    open spec fn keys() -> Seq<TypeId> {
        type_keys_two::<A, B>()
    }

    open spec fn shapes(out: Self::Output) -> Seq<(Seq<usize>, Option<nat>)> {
        seq![shape(*out.0), shape(*out.1)]
    }


    fn fetch(world: &'a mut World) -> (r: Option<Self::Output>) {
        match world.get_two_mut::<A, B>() {
            (Some(a), Some(b)) => Some((a, b)),
            _ => None,
        }
    }
}

impl<
    'a,
    A: Component,
    B: Component,
    C: Component,
> FetchMut<'a> for (A, B, C) {
    type Output = (
        &'a mut Storage<A>,
        &'a mut Storage<B>,
        &'a mut Storage<C>,
    );

    open spec fn keys() -> Seq<TypeId> {
        type_keys_three::<A, B, C>()
    }

    open spec fn shapes(out: Self::Output) -> Seq<(Seq<usize>, Option<nat>)> {
        seq![shape(*out.0), shape(*out.1), shape(*out.2)]
    }


    fn fetch(world: &'a mut World) -> (r: Option<Self::Output>) {
        match world.get_three_mut::<A, B, C>() {
            (Some(a), Some(b), Some(c)) => Some((a, b, c)),
            _ => None,
        }
    }
}

impl<
    'a,
    A: Component,
    B: Component,
    C: Component,
    D: Component,
> FetchMut<'a> for (A, B, C, D) {
    type Output = (
        &'a mut Storage<A>,
        &'a mut Storage<B>,
        &'a mut Storage<C>,
        &'a mut Storage<D>,
    );

    open spec fn keys() -> Seq<TypeId> {
        type_keys_four::<A, B, C, D>()
    }

    open spec fn shapes(out: Self::Output) -> Seq<(Seq<usize>, Option<nat>)> {
        seq![shape(*out.0), shape(*out.1), shape(*out.2), shape(*out.3)]
    }


    fn fetch(world: &'a mut World) -> (r: Option<Self::Output>) {
        match world.get_four_mut::<A, B, C, D>() {
            (Some(a), Some(b), Some(c), Some(d)) => Some((a, b, c, d)),
            _ => None,
        }
    }
}

impl<
    'a,
    A: Component,
    B: Component,
    C: Component,
    D: Component,
    E: Component,
> FetchMut<'a> for (A, B, C, D, E) {
    type Output = (
        &'a mut Storage<A>,
        &'a mut Storage<B>,
        &'a mut Storage<C>,
        &'a mut Storage<D>,
        &'a mut Storage<E>,
    );

    open spec fn keys() -> Seq<TypeId> {
        type_keys_five::<A, B, C, D, E>()
    }

    open spec fn shapes(out: Self::Output) -> Seq<(Seq<usize>, Option<nat>)> {
        seq![shape(*out.0), shape(*out.1), shape(*out.2), shape(*out.3), shape(*out.4)]
    }


    fn fetch(world: &'a mut World) -> (r: Option<Self::Output>) {
        match world.get_five_mut::<A, B, C, D, E>() {
            (Some(a), Some(b), Some(c), Some(d), Some(e)) => Some((a, b, c, d, e)),
            _ => None,
        }
    }
}

impl<
    'a,
    A: Component,
    B: Component,
    C: Component,
    D: Component,
    E: Component,
    F: Component,
> FetchMut<'a> for (A, B, C, D, E, F) {
    type Output = (
        &'a mut Storage<A>,
        &'a mut Storage<B>,
        &'a mut Storage<C>,
        &'a mut Storage<D>,
        &'a mut Storage<E>,
        &'a mut Storage<F>,
    );

    open spec fn keys() -> Seq<TypeId> {
        type_keys_six::<A, B, C, D, E, F>()
    }

    open spec fn shapes(out: Self::Output) -> Seq<(Seq<usize>, Option<nat>)> {
        seq![shape(*out.0), shape(*out.1), shape(*out.2), shape(*out.3), shape(*out.4), shape(*out.5)]
    }


    fn fetch(world: &'a mut World) -> (r: Option<Self::Output>) {
        match world.get_six_mut::<A, B, C, D, E, F>() {
            (Some(a), Some(b), Some(c), Some(d), Some(e), Some(f)) => Some((a, b, c, d, e, f)),
            _ => None,
        }
    }
}

} // verus!
