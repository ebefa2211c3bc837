use std::any::{Any, TypeId};
use std::collections::HashMap;
use vstd::prelude::*;

use crate::component::Storage;
use crate::world::Component;

verus! {

/// `std::any::TypeId`, held opaque: the identity of a type.
#[verifier::external_type_specification]
#[verifier::external_body]
pub struct ExTypeId(TypeId);

/// The type id of `T`: the one value `TypeId::of::<T>()` returns.
pub closed spec fn type_key<T: ?Sized + 'static>() -> TypeId {
    vstd::pervasive::arbitrary::<(TypeId, std::marker::PhantomData<T>)>().0
}

/// Relies on `TypeId::of`: the same type always gives the same id.
pub assume_specification<T: ?Sized + 'static>[ TypeId::of::<T> ]() -> (r: TypeId)
    ensures
        r == type_key::<T>(),
;

/// Relies on `TypeId`'s `==`: two type ids compare equal exactly when they
/// are the same value.
pub assume_specification[ <TypeId as PartialEq>::eq ](a: &TypeId, b: &TypeId) -> (r: bool)
    ensures
        r == (*a == *b),
;

/// One component store per type id, each held behind `dyn Any` and
/// recovered by downcasting to the store of the type asked for. A store of
/// type `Storage<T>` is only ever held under the key `type_key::<T>()`.
#[verifier::external_body]
pub struct StoreMap {
    map: HashMap<TypeId, Box<dyn Any>>,
}

/// For each type id that holds a store, that store's row entities and
/// capacity.
pub uninterp spec fn stored(m: StoreMap) -> Map<TypeId, (Seq<usize>, Option<nat>)>;

/// No store at all.
pub open spec fn no_stores() -> Map<TypeId, (Seq<usize>, Option<nat>)> {
    Map::empty()
}

/// The row entities and the capacity of a store.
pub open spec fn shape<T>(s: Storage<T>) -> (Seq<usize>, Option<nat>) {
    (s.row_entities(), s.capacity())
}

impl StoreMap {
    /// Relies on `HashMap::new`: the map starts empty.
    #[verifier::external_body]
    pub(crate) fn new() -> (r: StoreMap)
        ensures
            stored(r) == no_stores(),
    {
        StoreMap { map: HashMap::new() }
    }

    /// Relies on `HashMap::contains_key`.
    #[verifier::external_body]
    pub(crate) fn contains(&self, key: &TypeId) -> (r: bool)
        ensures
            r == stored(*self).contains_key(*key),
    {
        self.map.contains_key(key)
    }

    /// Relies on `HashMap::insert`: the store is held under the key, the
    /// others kept.
    #[verifier::external_body]
    pub(crate) fn insert<T: Component>(&mut self, key: TypeId, store: Storage<T>)
        requires
            key == type_key::<T>(),
        ensures
            stored(*final(self)) == stored(*old(self)).insert(key, shape(store)),
    {
        self.map.insert(key, Box::new(store));
    }

    /// Relies on `HashMap::get` and `downcast_ref`: the store under `key`
    /// when it is the key of `T`.
    #[verifier::external_body]
    pub(crate) fn get<T: Component>(&self, key: &TypeId) -> (r: Option<&Storage<T>>)
        ensures
            (r is Some) == (stored(*self).contains_key(*key) && *key == type_key::<T>()),
            r matches Some(s) ==> shape(*s) == stored(*self)[*key],
    {
        match self.map.get(key) {
            Some(b) => b.downcast_ref::<Storage<T>>(),
            None => None,
        }
    }

    /// Relies on `HashMap::get_mut` and `downcast_mut`: the store under
    /// `key` when it is the key of `T`; writes through it change that store
    /// only.
    #[verifier::external_body]
    pub(crate) fn get_mut<T: Component>(&mut self, key: &TypeId) -> (r: Option<&mut Storage<T>>)
        ensures
            (r is Some) == (stored(*old(self)).contains_key(*key) && *key == type_key::<T>()),
            r is None ==> stored(*final(self)) == stored(*old(self)),
            r is Some ==> {
                &&& shape(*r.unwrap()) == stored(*old(self))[*key]
                &&& stored(*final(self)) == stored(*old(self)).insert(
                    *key,
                    shape(*final(r.unwrap())),
                )
            },
    {
        match self.map.get_mut(key) {
            Some(b) => b.downcast_mut::<Storage<T>>(),
            None => None,
        }
    }

    /// Relies on `HashMap::get_disjoint_mut` (which panics on equal keys) and
    /// `downcast_mut`: the store of each type, where registered; writes
    /// through them change those stores only.
    #[verifier::external_body]
    pub(crate) fn get_two_mut<
        A: Component,
        B: Component,
    >(&mut self, keys: [TypeId; 2]) -> (r: (
        Option<&mut Storage<A>>,
        Option<&mut Storage<B>>,
    ))
        requires
            keys@.no_duplicates(),
            keys@[0] == type_key::<A>(),
            keys@[1] == type_key::<B>(),
        ensures
            stored(*final(self)).dom() == stored(*old(self)).dom(),
            forall|k: TypeId|
                !keys@.contains(k) ==> #[trigger] stored(*final(self))[k] == stored(*old(self))[k],
            (r.0 is Some) == stored(*old(self)).contains_key(keys@[0]),
            r.0 is Some ==> shape(*r.0.unwrap()) == stored(*old(self))[keys@[0]],
            stored(*final(self))[keys@[0]] == if r.0 is Some {
                shape(*final(r.0.unwrap()))
            } else {
                stored(*old(self))[keys@[0]]
            },
            (r.1 is Some) == stored(*old(self)).contains_key(keys@[1]),
            r.1 is Some ==> shape(*r.1.unwrap()) == stored(*old(self))[keys@[1]],
            stored(*final(self))[keys@[1]] == if r.1 is Some {
                shape(*final(r.1.unwrap()))
            } else {
                stored(*old(self))[keys@[1]]
            },
    {
        let [a, b] = self.map.get_disjoint_mut(keys.each_ref());
        (
            a.and_then(|s| s.downcast_mut()),
            b.and_then(|s| s.downcast_mut()),
        )
    }

    /// Relies on `HashMap::get_disjoint_mut` (which panics on equal keys) and
    /// `downcast_mut`: the store of each type, where registered; writes
    /// through them change those stores only.
    #[verifier::external_body]
    pub(crate) fn get_three_mut<
        A: Component,
        B: Component,
        C: Component,
    >(&mut self, keys: [TypeId; 3]) -> (r: (
        Option<&mut Storage<A>>,
        Option<&mut Storage<B>>,
        Option<&mut Storage<C>>,
    ))
        requires
            keys@.no_duplicates(),
            keys@[0] == type_key::<A>(),
            keys@[1] == type_key::<B>(),
            keys@[2] == type_key::<C>(),
        ensures
            stored(*final(self)).dom() == stored(*old(self)).dom(),
            forall|k: TypeId|
                !keys@.contains(k) ==> #[trigger] stored(*final(self))[k] == stored(*old(self))[k],
            (r.0 is Some) == stored(*old(self)).contains_key(keys@[0]),
            r.0 is Some ==> shape(*r.0.unwrap()) == stored(*old(self))[keys@[0]],
            stored(*final(self))[keys@[0]] == if r.0 is Some {
                shape(*final(r.0.unwrap()))
            } else {
                stored(*old(self))[keys@[0]]
            },
            (r.1 is Some) == stored(*old(self)).contains_key(keys@[1]),
            r.1 is Some ==> shape(*r.1.unwrap()) == stored(*old(self))[keys@[1]],
            stored(*final(self))[keys@[1]] == if r.1 is Some {
                shape(*final(r.1.unwrap()))
            } else {
                stored(*old(self))[keys@[1]]
            },
            (r.2 is Some) == stored(*old(self)).contains_key(keys@[2]),
            r.2 is Some ==> shape(*r.2.unwrap()) == stored(*old(self))[keys@[2]],
            stored(*final(self))[keys@[2]] == if r.2 is Some {
                shape(*final(r.2.unwrap()))
            } else {
                stored(*old(self))[keys@[2]]
            },
    {
        let [a, b, c] = self.map.get_disjoint_mut(keys.each_ref());
        (
            a.and_then(|s| s.downcast_mut()),
            b.and_then(|s| s.downcast_mut()),
            c.and_then(|s| s.downcast_mut()),
        )
    }

    /// Relies on `HashMap::get_disjoint_mut` (which panics on equal keys) and
    /// `downcast_mut`: the store of each type, where registered; writes
    /// through them change those stores only.
    #[verifier::external_body]
    pub(crate) fn get_four_mut<
        A: Component,
        B: Component,
        C: Component,
        D: Component,
    >(&mut self, keys: [TypeId; 4]) -> (r: (
        Option<&mut Storage<A>>,
        Option<&mut Storage<B>>,
        Option<&mut Storage<C>>,
        Option<&mut Storage<D>>,
    ))
        requires
            keys@.no_duplicates(),
            keys@[0] == type_key::<A>(),
            keys@[1] == type_key::<B>(),
            keys@[2] == type_key::<C>(),
            keys@[3] == type_key::<D>(),
        ensures
            stored(*final(self)).dom() == stored(*old(self)).dom(),
            forall|k: TypeId|
                !keys@.contains(k) ==> #[trigger] stored(*final(self))[k] == stored(*old(self))[k],
            (r.0 is Some) == stored(*old(self)).contains_key(keys@[0]),
            r.0 is Some ==> shape(*r.0.unwrap()) == stored(*old(self))[keys@[0]],
            stored(*final(self))[keys@[0]] == if r.0 is Some {
                shape(*final(r.0.unwrap()))
            } else {
                stored(*old(self))[keys@[0]]
            },
            (r.1 is Some) == stored(*old(self)).contains_key(keys@[1]),
            r.1 is Some ==> shape(*r.1.unwrap()) == stored(*old(self))[keys@[1]],
            stored(*final(self))[keys@[1]] == if r.1 is Some {
                shape(*final(r.1.unwrap()))
            } else {
                stored(*old(self))[keys@[1]]
            },
            (r.2 is Some) == stored(*old(self)).contains_key(keys@[2]),
            r.2 is Some ==> shape(*r.2.unwrap()) == stored(*old(self))[keys@[2]],
            stored(*final(self))[keys@[2]] == if r.2 is Some {
                shape(*final(r.2.unwrap()))
            } else {
                stored(*old(self))[keys@[2]]
            },
            (r.3 is Some) == stored(*old(self)).contains_key(keys@[3]),
            r.3 is Some ==> shape(*r.3.unwrap()) == stored(*old(self))[keys@[3]],
            stored(*final(self))[keys@[3]] == if r.3 is Some {
                shape(*final(r.3.unwrap()))
            } else {
                stored(*old(self))[keys@[3]]
            },
    {
        let [a, b, c, d] = self.map.get_disjoint_mut(keys.each_ref());
        (
            a.and_then(|s| s.downcast_mut()),
            b.and_then(|s| s.downcast_mut()),
            c.and_then(|s| s.downcast_mut()),
            d.and_then(|s| s.downcast_mut()),
        )
    }

    /// Relies on `HashMap::get_disjoint_mut` (which panics on equal keys) and
    /// `downcast_mut`: the store of each type, where registered; writes
    /// through them change those stores only.
    #[verifier::external_body]
    pub(crate) fn get_five_mut<
        A: Component,
        B: Component,
        C: Component,
        D: Component,
        E: Component,
    >(&mut self, keys: [TypeId; 5]) -> (r: (
        Option<&mut Storage<A>>,
        Option<&mut Storage<B>>,
        Option<&mut Storage<C>>,
        Option<&mut Storage<D>>,
        Option<&mut Storage<E>>,
    ))
        requires
            keys@.no_duplicates(),
            keys@[0] == type_key::<A>(),
            keys@[1] == type_key::<B>(),
            keys@[2] == type_key::<C>(),
            keys@[3] == type_key::<D>(),
            keys@[4] == type_key::<E>(),
        ensures
            stored(*final(self)).dom() == stored(*old(self)).dom(),
            forall|k: TypeId|
                !keys@.contains(k) ==> #[trigger] stored(*final(self))[k] == stored(*old(self))[k],
            (r.0 is Some) == stored(*old(self)).contains_key(keys@[0]),
            r.0 is Some ==> shape(*r.0.unwrap()) == stored(*old(self))[keys@[0]],
            stored(*final(self))[keys@[0]] == if r.0 is Some {
                shape(*final(r.0.unwrap()))
            } else {
                stored(*old(self))[keys@[0]]
            },
            (r.1 is Some) == stored(*old(self)).contains_key(keys@[1]),
            r.1 is Some ==> shape(*r.1.unwrap()) == stored(*old(self))[keys@[1]],
            stored(*final(self))[keys@[1]] == if r.1 is Some {
                shape(*final(r.1.unwrap()))
            } else {
                stored(*old(self))[keys@[1]]
            },
            (r.2 is Some) == stored(*old(self)).contains_key(keys@[2]),
            r.2 is Some ==> shape(*r.2.unwrap()) == stored(*old(self))[keys@[2]],
            stored(*final(self))[keys@[2]] == if r.2 is Some {
                shape(*final(r.2.unwrap()))
            } else {
                stored(*old(self))[keys@[2]]
            },
            (r.3 is Some) == stored(*old(self)).contains_key(keys@[3]),
            r.3 is Some ==> shape(*r.3.unwrap()) == stored(*old(self))[keys@[3]],
            stored(*final(self))[keys@[3]] == if r.3 is Some {
                shape(*final(r.3.unwrap()))
            } else {
                stored(*old(self))[keys@[3]]
            },
            (r.4 is Some) == stored(*old(self)).contains_key(keys@[4]),
            r.4 is Some ==> shape(*r.4.unwrap()) == stored(*old(self))[keys@[4]],
            stored(*final(self))[keys@[4]] == if r.4 is Some {
                shape(*final(r.4.unwrap()))
            } else {
                stored(*old(self))[keys@[4]]
            },
    {
        let [a, b, c, d, e] = self.map.get_disjoint_mut(keys.each_ref());
        (
            a.and_then(|s| s.downcast_mut()),
            b.and_then(|s| s.downcast_mut()),
            c.and_then(|s| s.downcast_mut()),
            d.and_then(|s| s.downcast_mut()),
            e.and_then(|s| s.downcast_mut()),
        )
    }

    /// Relies on `HashMap::get_disjoint_mut` (which panics on equal keys) and
    /// `downcast_mut`: the store of each type, where registered; writes
    /// through them change those stores only.
    #[verifier::external_body]
    pub(crate) fn get_six_mut<
        A: Component,
        B: Component,
        C: Component,
        D: Component,
        E: Component,
        F: Component,
    >(&mut self, keys: [TypeId; 6]) -> (r: (
        Option<&mut Storage<A>>,
        Option<&mut Storage<B>>,
        Option<&mut Storage<C>>,
        Option<&mut Storage<D>>,
        Option<&mut Storage<E>>,
        Option<&mut Storage<F>>,
    ))
        requires
            keys@.no_duplicates(),
            keys@[0] == type_key::<A>(),
            keys@[1] == type_key::<B>(),
            keys@[2] == type_key::<C>(),
            keys@[3] == type_key::<D>(),
            keys@[4] == type_key::<E>(),
            keys@[5] == type_key::<F>(),
        ensures
            stored(*final(self)).dom() == stored(*old(self)).dom(),
            forall|k: TypeId|
                !keys@.contains(k) ==> #[trigger] stored(*final(self))[k] == stored(*old(self))[k],
            (r.0 is Some) == stored(*old(self)).contains_key(keys@[0]),
            r.0 is Some ==> shape(*r.0.unwrap()) == stored(*old(self))[keys@[0]],
            stored(*final(self))[keys@[0]] == if r.0 is Some {
                shape(*final(r.0.unwrap()))
            } else {
                stored(*old(self))[keys@[0]]
            },
            (r.1 is Some) == stored(*old(self)).contains_key(keys@[1]),
            r.1 is Some ==> shape(*r.1.unwrap()) == stored(*old(self))[keys@[1]],
            stored(*final(self))[keys@[1]] == if r.1 is Some {
                shape(*final(r.1.unwrap()))
            } else {
                stored(*old(self))[keys@[1]]
            },
            (r.2 is Some) == stored(*old(self)).contains_key(keys@[2]),
            r.2 is Some ==> shape(*r.2.unwrap()) == stored(*old(self))[keys@[2]],
            stored(*final(self))[keys@[2]] == if r.2 is Some {
                shape(*final(r.2.unwrap()))
            } else {
                stored(*old(self))[keys@[2]]
            },
            (r.3 is Some) == stored(*old(self)).contains_key(keys@[3]),
            r.3 is Some ==> shape(*r.3.unwrap()) == stored(*old(self))[keys@[3]],
            stored(*final(self))[keys@[3]] == if r.3 is Some {
                shape(*final(r.3.unwrap()))
            } else {
                stored(*old(self))[keys@[3]]
            },
            (r.4 is Some) == stored(*old(self)).contains_key(keys@[4]),
            r.4 is Some ==> shape(*r.4.unwrap()) == stored(*old(self))[keys@[4]],
            stored(*final(self))[keys@[4]] == if r.4 is Some {
                shape(*final(r.4.unwrap()))
            } else {
                stored(*old(self))[keys@[4]]
            },
            (r.5 is Some) == stored(*old(self)).contains_key(keys@[5]),
            r.5 is Some ==> shape(*r.5.unwrap()) == stored(*old(self))[keys@[5]],
            stored(*final(self))[keys@[5]] == if r.5 is Some {
                shape(*final(r.5.unwrap()))
            } else {
                stored(*old(self))[keys@[5]]
            },
    {
        let [a, b, c, d, e, f] = self.map.get_disjoint_mut(keys.each_ref());
        (
            a.and_then(|s| s.downcast_mut()),
            b.and_then(|s| s.downcast_mut()),
            c.and_then(|s| s.downcast_mut()),
            d.and_then(|s| s.downcast_mut()),
            e.and_then(|s| s.downcast_mut()),
            f.and_then(|s| s.downcast_mut()),
        )
    }
}

} // verus!
