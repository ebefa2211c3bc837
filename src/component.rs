use std::collections::HashMap;
use vstd::prelude::*;

pub use crate::entity::Entity;

verus! {

broadcast use vstd::std_specs::hash::group_hash_axioms;

/// The entity-to-row lookup of a store: either an array indexed directly by
/// the entity's integer, sized up front, or a hash map.
enum SparseIndex {
    Direct(Vec<Option<usize>>),
    Hashed(HashMap<usize, usize>),
}

impl SparseIndex {
    /// The row recorded for `e`, if any.
    spec fn lookup(&self, e: usize) -> Option<usize> {
        match self {
            SparseIndex::Direct(v) => if e < v@.len() {
                v@[e as int]
            } else {
                None
            },
            SparseIndex::Hashed(m) => if m@.contains_key(e) {
                Some(m@[e])
            } else {
                None
            },
        }
    }

    /// The number of entities a direct-indexed array can hold; `None` for a map.
    spec fn bound(&self) -> Option<nat> {
        match self {
            SparseIndex::Direct(v) => Some(v@.len()),
            SparseIndex::Hashed(_) => None,
        }
    }

    spec fn admits(&self, e: usize) -> bool {
        match self.bound() {
            Some(n) => e < n,
            None => true,
        }
    }

    fn find(&self, e: usize) -> (r: Option<usize>)
        requires
            self.admits(e),
        ensures
            r == self.lookup(e),
    {
        match self {
            SparseIndex::Direct(v) => v[e],
            SparseIndex::Hashed(m) => match m.get(&e) {
                Some(i) => Some(*i),
                None => None,
            },
        }
    }

    fn record(&mut self, e: usize, row: usize)
        requires
            old(self).admits(e),
        ensures
            final(self).bound() == old(self).bound(),
            forall|x: usize| #[trigger]
                final(self).lookup(x) == if x == e {
                    Some(row)
                } else {
                    old(self).lookup(x)
                },
    {
        match self {
            SparseIndex::Direct(v) => {
                v.set(e, Some(row));
            },
            SparseIndex::Hashed(m) => {
                m.insert(e, row);
            },
        }
    }

    fn forget(&mut self, e: usize)
        requires
            old(self).admits(e),
        ensures
            final(self).bound() == old(self).bound(),
            forall|x: usize| #[trigger]
                final(self).lookup(x) == if x == e {
                    None
                } else {
                    old(self).lookup(x)
                },
    {
        match self {
            SparseIndex::Direct(v) => {
                v.set(e, None);
            },
            SparseIndex::Hashed(m) => {
                m.remove(&e);
            },
        }
    }
}

/// The rows of a store: component values and their owning entities, kept in
/// two parallel arrays, with the index pointing each entity at its row.
struct Rows<T> {
    index: SparseIndex,
    dense: Vec<T>,
    entities: Vec<usize>,
}

impl<T> Rows<T> {
    spec fn wf(&self) -> bool {
        &&& self.dense@.len() == self.entities@.len()
        &&& forall|i: int|
            0 <= i < self.entities@.len() ==> {
                &&& self.index.admits(#[trigger] self.entities@[i])
                &&& self.index.lookup(self.entities@[i]) == Some(i as usize)
            }
        &&& forall|e: usize| #[trigger]
            self.index.lookup(e) is Some ==> {
                let i = self.index.lookup(e).unwrap() as int;
                0 <= i < self.entities@.len() && self.entities@[i] == e
            }
    }

    fn empty(index: SparseIndex) -> (r: Self)
        requires
            forall|e: usize| #[trigger] index.lookup(e) is None,
        ensures
            r.wf(),
            r.index.bound() == index.bound(),
            r.dense@ == Seq::<T>::empty(),
            r.entities@ == Seq::<usize>::empty(),
    {
        Rows { index, dense: Vec::new(), entities: Vec::new() }
    }
}

/// Component storage for one component type: a sparse set whose index is
/// either a direct-indexed array or a hash map, chosen at construction.
///
/// Values sit in a dense array, in the order of their rows; removing a row
/// moves the last row into its place. `added` and `removed` log every entity
/// that was inserted into or removed from the store, in order.
pub struct Storage<T> {
    pub added: Vec<Entity>,
    pub removed: Vec<Entity>,
    rows: Rows<T>,
}

impl<T> Storage<T> {
    #[verifier::type_invariant]
    spec fn inv(&self) -> bool {
        self.rows.wf()
    }

    /// The entities of the rows, in row order.
    pub closed spec fn row_entities(&self) -> Seq<usize> {
        self.rows.entities@
    }

    /// The component values of the rows, in row order.
    pub closed spec fn row_values(&self) -> Seq<T> {
        self.rows.dense@
    }

    /// Every entity inserted into the store so far, in order.
    pub closed spec fn added_log(&self) -> Seq<Entity> {
        self.added@
    }

    /// Every entity removed from the store so far, in order.
    pub closed spec fn removed_log(&self) -> Seq<Entity> {
        self.removed@
    }

    /// The entity capacity of a store indexed by an array; `None` for one
    /// indexed by a hash map.
    pub closed spec fn capacity(&self) -> Option<nat> {
        self.rows.index.bound()
    }

    /// Whether the store can index entity `e` at all.
    pub open spec fn admits(&self, e: usize) -> bool {
        match self.capacity() {
            Some(n) => e < n,
            None => true,
        }
    }

    /// Which entities carry a value, and which value.
    pub closed spec fn view(&self) -> Map<usize, T> {
        Map::new(
            |e: usize| self.rows.index.lookup(e) is Some,
            |e: usize| self.rows.dense@[self.rows.index.lookup(e).unwrap() as int],
        )
    }

    /// The rows and the map view describe the same data: the two row arrays
    /// have the same length, no entity owns two rows, the entities with a
    /// value are exactly the row entities (finitely many), and each row holds
    /// its entity's value. Every store is consistent.
    pub open spec fn consistent(&self) -> bool {
        &&& self.row_entities().len() == self.row_values().len()
        &&& self.row_entities().no_duplicates()
        &&& self@.dom() == self.row_entities().to_set()
        &&& self@.dom().finite()
        &&& forall|i: int|
            0 <= i < self.row_entities().len() ==> {
                &&& self@[#[trigger] self.row_entities()[i]] == self.row_values()[i]
                &&& self.admits(self.row_entities()[i])
            }
    }

    proof fn lemma_consistent(&self)
        requires
            self.rows.wf(),
        ensures
            self.consistent(),
    {
        self.rows.lemma_distinct();
        let ents = self.rows.entities@;
        assert(self.rows.entities.len() == ents.len());
        assert forall|i: int| 0 <= i < ents.len() implies {
            &&& self@[#[trigger] self.row_entities()[i]] == self.row_values()[i]
            &&& self.admits(self.row_entities()[i])
        } by {
            assert(self.rows.index.lookup(ents[i]) == Some(i as usize));
        }
        assert forall|e: usize| #[trigger] self@.dom().contains(e) == ents.to_set().contains(e) by {
            if self.rows.index.lookup(e) is Some {
                let i = self.rows.index.lookup(e).unwrap() as int;
                assert(ents[i] == e);
            }
            if ents.contains(e) {
                let i = choose|i: int| 0 <= i < ents.len() && ents[i] == e;
                assert(self.rows.index.lookup(ents[i]) == Some(i as usize));
            }
        }
        assert(self@.dom() =~= ents.to_set());
        vstd::seq_lib::seq_to_set_is_finite(ents);
    }
}

impl<T> Rows<T> {
    proof fn lemma_distinct(&self)
        requires
            self.wf(),
        ensures
            self.entities@.no_duplicates(),
    {
        let ents = self.entities@;
        assert(self.entities.len() == ents.len());
        assert forall|a: int, b: int|
            0 <= a < ents.len() && 0 <= b < ents.len() && a != b implies ents[a] != ents[b] by {
            assert(self.index.lookup(ents[a]) == Some(a as usize));
            assert(self.index.lookup(ents[b]) == Some(b as usize));
        }
    }

    fn push_row(&mut self, data: T, e: usize)
        requires
            old(self).wf(),
            old(self).index.admits(e),
            old(self).index.lookup(e) is None,
        ensures
            final(self).wf(),
            final(self).index.bound() == old(self).index.bound(),
            final(self).dense@ == old(self).dense@.push(data),
            final(self).entities@ == old(self).entities@.push(e),
            forall|x: usize| #[trigger]
                final(self).index.lookup(x) == if x == e {
                    Some(old(self).entities@.len() as usize)
                } else {
                    old(self).index.lookup(x)
                },
    {
        let row = self.dense.len();
        self.index.record(e, row);
        self.dense.push(data);
        self.entities.push(e);
        proof {
            let n = old(self).entities@.len();
            assert forall|i: int| 0 <= i < self.entities@.len() implies {
                &&& self.index.admits(#[trigger] self.entities@[i])
                &&& self.index.lookup(self.entities@[i]) == Some(i as usize)
            } by {
                if i < n {
                    assert(old(self).index.lookup(old(self).entities@[i]) == Some(i as usize));
                }
            }
        }
    }

    fn swap_remove_row(&mut self, e: usize) -> (r: Option<T>)
        requires
            old(self).wf(),
            old(self).index.admits(e),
        ensures
            final(self).wf(),
            final(self).index.bound() == old(self).index.bound(),
            match old(self).index.lookup(e) {
                None => r is None && *final(self) == *old(self),
                Some(i) => {
                    let last = old(self).entities@.len() - 1;
                    &&& r == Some(old(self).dense@[i as int])
                    &&& final(self).entities@ == old(self).entities@.update(
                        i as int,
                        old(self).entities@[last],
                    ).drop_last()
                    &&& final(self).dense@ == old(self).dense@.update(
                        i as int,
                        old(self).dense@[last],
                    ).drop_last()
                    &&& forall|x: usize| #[trigger]
                        final(self).index.lookup(x) == if x == e {
                            None
                        } else if x == old(self).entities@[last] {
                            Some(i)
                        } else {
                            old(self).index.lookup(x)
                        }
                },
            },
    {
        let found = self.index.find(e);
        let idx = match found {
            None => {
                return None;
            },
            Some(idx) => idx,
        };
        proof {
            self.lemma_distinct();
        }
        let ghost old_rows = *self;
        let last = self.dense.len() - 1;
        let moved = self.entities[last];
        self.index.forget(e);
        self.entities.swap_remove(idx);
        let removed = self.dense.swap_remove(idx);
        if idx != last {
            self.index.record(moved, idx);
        }
        proof {
            let ents = old_rows.entities@;
            assert(ents[idx as int] == e);
            assert(old_rows.index.admits(ents[last as int]));
            assert forall|i: int| 0 <= i < self.entities@.len() implies {
                &&& self.index.admits(#[trigger] self.entities@[i])
                &&& self.index.lookup(self.entities@[i]) == Some(i as usize)
            } by {
                if i != idx {
                    assert(old_rows.index.lookup(ents[i]) == Some(i as usize));
                    assert(ents[i] != e);
                    assert(ents[i] != moved);
                } else {
                    assert(old_rows.index.admits(ents[last as int]));
                }
            }
            assert forall|x: usize| #[trigger] self.index.lookup(x) is Some implies {
                let i = self.index.lookup(x).unwrap() as int;
                0 <= i < self.entities@.len() && self.entities@[i] == x
            } by {
                if x != e && x != moved {
                    let k = old_rows.index.lookup(x).unwrap() as int;
                    assert(ents[k] == x);
                }
            }
        }
        Some(removed)
    }
}

impl<T: Copy + Send + Sync> Storage<T> {
    fn new_with_index(index: SparseIndex) -> (r: Self)
        requires
            forall|e: usize| #[trigger] index.lookup(e) is None,
        ensures
            r.consistent(),
            r@ == Map::<usize, T>::empty(),
            r.row_entities() == Seq::<usize>::empty(),
            r.row_values() == Seq::<T>::empty(),
            r.capacity() == index.bound(),
            r.added_log() == Seq::<Entity>::empty(),
            r.removed_log() == Seq::<Entity>::empty(),
    {
        let r = Storage { added: Vec::new(), removed: Vec::new(), rows: Rows::empty(index) };
        assert(r@ =~= Map::<usize, T>::empty());
        proof {
            r.lemma_consistent();
        }
        r
    }

    /// Creates an empty store whose index is an array for the entities
    /// `0..entity_count`.
    pub fn new_sparse(entity_count: usize) -> (r: Self)
        ensures
            r.consistent(),
            r@ == Map::<usize, T>::empty(),
            r.row_entities() == Seq::<usize>::empty(),
            r.row_values() == Seq::<T>::empty(),
            r.capacity() == Some(entity_count as nat),
            r.added_log() == Seq::<Entity>::empty(),
            r.removed_log() == Seq::<Entity>::empty(),
    {
        let mut slots: Vec<Option<usize>> = Vec::new();
        let mut i: usize = 0;
        while i < entity_count
            invariant
                i <= entity_count,
                slots@.len() == i,
                forall|j: int| 0 <= j < i ==> #[trigger] slots@[j] is None,
            decreases entity_count - i,
        {
            slots.push(None);
            i = i + 1;
        }
        Self::new_with_index(SparseIndex::Direct(slots))
    }

    /// Creates an empty store indexed by a hash map, for any entity.
    pub fn new_hashmap() -> (r: Self)
        ensures
            r.consistent(),
            r@ == Map::<usize, T>::empty(),
            r.row_entities() == Seq::<usize>::empty(),
            r.row_values() == Seq::<T>::empty(),
            r.capacity() == None::<nat>,
            r.added_log() == Seq::<Entity>::empty(),
            r.removed_log() == Seq::<Entity>::empty(),
    {
        Self::new_with_index(SparseIndex::Hashed(HashMap::new()))
    }
}

impl<T: Copy + Send + Sync> Storage<T> {
    /// Moves the rows out, leaving an empty hash-indexed placeholder.
    fn take_rows(&mut self) -> (r: Rows<T>)
        ensures
            r == old(self).rows,
            r.wf(),
            final(self).added == old(self).added,
            final(self).removed == old(self).removed,
    {
        proof {
            use_type_invariant(&*self);
        }
        let mut rows = Rows::empty(SparseIndex::Hashed(HashMap::new()));
        std::mem::swap(&mut rows, &mut self.rows);
        rows
    }

    fn note_added(&mut self, entity: Entity)
        ensures
            final(self).rows == old(self).rows,
            final(self).added@ == old(self).added@.push(entity),
            final(self).removed == old(self).removed,
    {
        proof {
            use_type_invariant(&*self);
        }
        let mut log = Vec::new();
        std::mem::swap(&mut log, &mut self.added);
        log.push(entity);
        self.added = log;
    }

    fn note_removed(&mut self, entity: Entity)
        ensures
            final(self).rows == old(self).rows,
            final(self).removed@ == old(self).removed@.push(entity),
            final(self).added == old(self).added,
    {
        proof {
            use_type_invariant(&*self);
        }
        let mut log = Vec::new();
        std::mem::swap(&mut log, &mut self.removed);
        log.push(entity);
        self.removed = log;
    }

    /// Adds a value for an entity that has none in this store.
    pub fn add_entity(&mut self, data: T, entity: Entity)
        requires
            old(self).admits(entity.0),
            !old(self)@.contains_key(entity.0),
        ensures
            final(self).consistent(),
            final(self)@ == old(self)@.insert(entity.0, data),
            final(self).row_entities() == old(self).row_entities().push(entity.0),
            final(self).row_values() == old(self).row_values().push(data),
            final(self).row_entities().len() == final(self).row_values().len(),
            final(self).added_log() == old(self).added_log().push(entity),
            final(self).removed_log() == old(self).removed_log(),
            final(self).capacity() == old(self).capacity(),
    {
        proof {
            use_type_invariant(&*self);
        }
        vstd::pervasive::runtime_assert(self.rows.index.find(entity.0).is_none());
        let mut rows = self.take_rows();
        rows.push_row(data, entity.0);
        self.rows = rows;
        self.note_added(entity);
        assert(self@ =~= old(self)@.insert(entity.0, data));
        proof {
            use_type_invariant(&*self);
            self.lemma_consistent();
        }
    }
}

impl<T: Copy + Send + Sync> Storage<T> {
    /// Sets the value of an entity: overwrites it in place where the entity
    /// has one (no log entry), and adds it as `add_entity` does otherwise.
    pub fn set(&mut self, data: T, entity: Entity)
        requires
            old(self).admits(entity.0),
        ensures
            final(self).consistent(),
            final(self)@ == old(self)@.insert(entity.0, data),
            final(self).row_entities().len() == final(self).row_values().len(),
            final(self).removed_log() == old(self).removed_log(),
            final(self).capacity() == old(self).capacity(),
            old(self)@.contains_key(entity.0) ==> {
                &&& final(self).row_entities() == old(self).row_entities()
                &&& final(self).added_log() == old(self).added_log()
            },
            !old(self)@.contains_key(entity.0) ==> {
                &&& final(self).row_entities() == old(self).row_entities().push(entity.0)
                &&& final(self).row_values() == old(self).row_values().push(data)
                &&& final(self).added_log() == old(self).added_log().push(entity)
            },
    {
        proof {
            use_type_invariant(&*self);
        }
        match self.rows.index.find(entity.0) {
            Some(idx) => {
                let mut rows = self.take_rows();
                rows.dense.set(idx, data);
                self.rows = rows;
                assert(self@ =~= old(self)@.insert(entity.0, data));
            },
            None => {
                self.add_entity(data, entity);
            },
        }
        proof {
            use_type_invariant(&*self);
            self.lemma_consistent();
        }
    }

    /// Removes the value of an entity and returns it; `None` where the entity
    /// has none. The last row moves into the freed row.
    pub fn remove_entity(&mut self, entity: Entity) -> (r: Option<T>)
        requires
            old(self).admits(entity.0),
        ensures
            final(self).consistent(),
            final(self).row_entities().len() == final(self).row_values().len(),
            final(self).capacity() == old(self).capacity(),
            final(self).added_log() == old(self).added_log(),
            removal(old(self)@, final(self)@, entity.0, r),
            !old(self)@.contains_key(entity.0) ==> {
                &&& final(self).row_entities() == old(self).row_entities()
                &&& final(self).row_values() == old(self).row_values()
                &&& final(self).removed_log() == old(self).removed_log()
            },
            old(self)@.contains_key(entity.0) ==> {
                &&& final(self).removed_log() == old(self).removed_log().push(entity)
                &&& swap_removed(
                    old(self).row_entities(),
                    old(self).row_values(),
                    final(self).row_entities(),
                    final(self).row_values(),
                    entity.0,
                )
            },
    {
        proof {
            use_type_invariant(&*self);
        }
        let mut rows = self.take_rows();
        let r = rows.swap_remove_row(entity.0);
        self.rows = rows;
        match r {
            Some(_) => {
                self.note_removed(entity);
                proof {
                    let o = old(self).rows;
                    let last = o.entities@.len() - 1;
                    let i = o.index.lookup(entity.0).unwrap() as int;
                    assert(o.entities@[i] == entity.0);
                    assert(o.entities.len() == o.entities@.len());
                    assert(o.index.lookup(o.entities@[last]) == Some(last as usize));
                    assert forall|x: usize| #[trigger]
                        self@.contains_key(x) implies self@[x] == old(self)@[x] by {
                        if x == o.entities@[last] {
                            assert(i != last);
                            assert(self.rows.index.lookup(x) == Some(i as usize));
                            assert(self.rows.dense@[i] == o.dense@[last]);
                            assert(old(self)@[x] == o.dense@[last]);
                        } else {
                            let k = o.index.lookup(x).unwrap() as int;
                            assert(o.entities@[k] == x);
                            assert(k != i && k != last);
                            assert(self.rows.index.lookup(x) == Some(k as usize));
                            assert(self.rows.dense@[k] == o.dense@[k]);
                        }
                    }
                }
                assert(self@ =~= old(self)@.remove(entity.0));
            },
            None => {},
        }
        proof {
            use_type_invariant(&*self);
            self.lemma_consistent();
        }
        r
    }
}

/// Entity ids as entities, in the same order.
pub open spec fn as_entities(ids: Seq<usize>) -> Seq<Entity> {
    ids.map_values(|e: usize| Entity(e))
}

/// `m1` is `m0` after removing the value of entity `e`, and `r` what the
/// removal returned: the value, where `e` had one.
pub open spec fn removal<T>(m0: Map<usize, T>, m1: Map<usize, T>, e: usize, r: Option<T>) -> bool {
    if m0.contains_key(e) {
        r == Some(m0[e]) && m1 == m0.remove(e)
    } else {
        r is None && m1 == m0
    }
}

/// Adding a value for an entity and then removing it returns that value and
/// leaves the store's contents as they were; removing it a second time
/// returns nothing.
pub proof fn lemma_add_remove_round_trip<T>(
    m0: Map<usize, T>,
    m1: Map<usize, T>,
    m2: Map<usize, T>,
    m3: Map<usize, T>,
    e: usize,
    v: T,
    r1: Option<T>,
    r2: Option<T>,
)
    requires
        !m0.contains_key(e),
        m1 == m0.insert(e, v),
        removal(m1, m2, e, r1),
        removal(m2, m3, e, r2),
    ensures
        r1 == Some(v),
        r2 is None,
        m2 == m0,
        m3 == m0,
{
    assert(m1.remove(e) =~= m0);
}

/// `m1` is `m0` after one write or removal of the value of an entity other
/// than `e`, as `add_entity`, `set`, `get_mut`, `remove_entity` make it.
pub open spec fn step_elsewhere<T>(m0: Map<usize, T>, m1: Map<usize, T>, e: usize) -> bool {
    exists|k: usize, x: T| k != e && (m1 == m0.insert(k, x) || m1 == m0.remove(k))
}

/// After a value `v` is set for entity `e`, any number of writes and
/// removals of other entities (which may move `e`'s row) leave `e`'s value
/// `v`: reading it gives `v`, and removing it returns `v`.
pub proof fn lemma_value_kept_through_other_writes<T>(
    ms: Seq<Map<usize, T>>,
    e: usize,
    v: T,
    after: Map<usize, T>,
    r: Option<T>,
)
    requires
        ms.len() > 0,
        ms[0].contains_key(e),
        ms[0][e] == v,
        forall|i: int| 0 <= i < ms.len() - 1 ==> step_elsewhere(#[trigger] ms[i], ms[i + 1], e),
        removal(ms.last(), after, e, r),
    ensures
        ms.last().contains_key(e),
        ms.last()[e] == v,
        r == Some(v),
{
    lemma_value_kept(ms, e, v);
}

proof fn lemma_value_kept<T>(ms: Seq<Map<usize, T>>, e: usize, v: T)
    requires
        ms.len() > 0,
        ms[0].contains_key(e),
        ms[0][e] == v,
        forall|i: int| 0 <= i < ms.len() - 1 ==> step_elsewhere(#[trigger] ms[i], ms[i + 1], e),
    ensures
        ms.last().contains_key(e),
        ms.last()[e] == v,
    decreases ms.len(),
{
    if ms.len() > 1 {
        let p = ms.drop_last();
        assert forall|i: int| 0 <= i < p.len() - 1 implies step_elsewhere(
            #[trigger] p[i],
            p[i + 1],
            e,
        ) by {
            assert(p[i] == ms[i] && p[i + 1] == ms[i + 1]);
        }
        lemma_value_kept(p, e, v);
        let j = ms.len() - 2;
        assert(step_elsewhere(ms[j], ms[j + 1], e));
        let (k, x) = choose|k: usize, x: T|
            k != e && (ms[j + 1] == ms[j].insert(k, x) || ms[j + 1] == ms[j].remove(k));
        assert(p.last() == ms[j]);
    }
}

/// Relies on `Vec::as_mut_slice`: the slice is the whole vector, cannot
/// change its length, and the call does not panic.
#[verifier::external_body]
fn values_mut<T>(v: &mut Vec<T>) -> (r: &mut [T])
    ensures
        r@ == old(v)@,
        final(v)@ == final(r)@,
        final(r)@.len() == r@.len(),
    no_unwind
{
    v.as_mut_slice()
}

/// Row `i` held entity `e`; the last row was moved into row `i`, and the
/// arrays shortened by one.
pub open spec fn swap_removed<T>(
    ents: Seq<usize>,
    vals: Seq<T>,
    ents2: Seq<usize>,
    vals2: Seq<T>,
    e: usize,
) -> bool {
    exists|i: int|
        0 <= i < ents.len() && ents[i] == e && ents2 == ents.update(i, ents.last()).drop_last()
            && vals2 == vals.update(i, vals.last()).drop_last()
}

impl<T: Copy + Send + Sync> Storage<T> {
    /// The value of an entity, if it has one.
    pub fn get(&self, entity: Entity) -> (r: Option<&T>)
        requires
            self.admits(entity.0),
        ensures
            self.consistent(),
            match r {
                Some(v) => self@.contains_key(entity.0) && *v == self@[entity.0],
                None => !self@.contains_key(entity.0),
            },
    {
        proof {
            use_type_invariant(self);
            self.lemma_consistent();
        }
        match self.rows.index.find(entity.0) {
            Some(idx) => Some(&self.rows.dense[idx]),
            None => None,
        }
    }

    /// A mutable reference to the value of an entity, if it has one. Writing
    /// through it changes that value and nothing else.
    pub fn get_mut(&mut self, entity: Entity) -> (r: Option<&mut T>)
        requires
            old(self).admits(entity.0),
        ensures
            old(self).consistent(),
            match r {
                Some(v) => {
                    &&& old(self)@.contains_key(entity.0)
                    &&& *v == old(self)@[entity.0]
                    &&& final(self)@ == old(self)@.insert(entity.0, *final(v))
                    &&& final(self).row_entities() == old(self).row_entities()
                    &&& final(self).row_values().len() == old(self).row_values().len()
                    &&& final(self).added_log() == old(self).added_log()
                    &&& final(self).removed_log() == old(self).removed_log()
                    &&& final(self).capacity() == old(self).capacity()
                },
                None => !old(self)@.contains_key(entity.0) && *final(self) == *old(self),
            },
    {
        proof {
            use_type_invariant(&*self);
            self.lemma_consistent();
        }
        match self.rows.index.find(entity.0) {
            Some(idx) => Some(&mut self.rows.dense[idx]),
            None => None,
        }
    }

    /// Whether the entity has a value in this store.
    pub fn has(&self, entity: Entity) -> (r: bool)
        requires
            self.admits(entity.0),
        ensures
            self.consistent(),
            r == self@.contains_key(entity.0),
    {
        proof {
            use_type_invariant(self);
            self.lemma_consistent();
        }
        self.rows.index.find(entity.0).is_some()
    }

    /// The number of rows, that is of entities with a value.
    pub fn len(&self) -> (r: usize)
        ensures
            self.consistent(),
            r == self.row_entities().len(),
            r == self.row_values().len(),
    {
        proof {
            use_type_invariant(self);
            self.lemma_consistent();
        }
        self.rows.dense.len()
    }
}

impl<T: Copy + Send + Sync> Storage<T> {
    /// The rows as (entity, value) pairs, in row order.
    pub fn iter(&self) -> (r: Vec<(Entity, &T)>)
        ensures
            self.consistent(),
            r@.len() == self.row_entities().len(),
            forall|i: int|
                0 <= i < r@.len() ==> (#[trigger] r@[i]).0 == Entity(self.row_entities()[i])
                    && *r@[i].1 == self.row_values()[i],
    {
        proof {
            use_type_invariant(self);
            self.lemma_consistent();
        }
        let mut out: Vec<(Entity, &T)> = Vec::new();
        let mut i: usize = 0;
        while i < self.rows.entities.len()
            invariant
                self.rows.wf(),
                i <= self.rows.entities@.len(),
                out@.len() == i,
                forall|j: int|
                    0 <= j < i ==> (#[trigger] out@[j]).0 == Entity(self.rows.entities@[j])
                        && *out@[j].1 == self.rows.dense@[j],
            decreases self.rows.entities@.len() - i,
        {
            out.push((Entity(self.rows.entities[i]), &self.rows.dense[i]));
            i = i + 1;
        }
        out
    }

    /// The entities of the rows, in row order, and the row values as a
    /// mutable slice: writes through the slice change the values of those
    /// entities and nothing else.
    pub fn iter_mut(&mut self) -> (r: (Vec<Entity>, &mut [T]))
        ensures
            old(self).consistent(),
            r.0@ == as_entities(old(self).row_entities()),
            r.1@ == old(self).row_values(),
            final(self).row_values() == final(r.1)@,
            final(self).row_entities() == old(self).row_entities(),
            final(self).row_values().len() == final(self).row_entities().len(),
            final(self)@.dom() == old(self)@.dom(),
            forall|i: int|
                0 <= i < old(self).row_entities().len() ==> final(self)@[#[trigger] old(
                    self,
                ).row_entities()[i]] == final(r.1)@[i],
            final(self).added_log() == old(self).added_log(),
            final(self).removed_log() == old(self).removed_log(),
            final(self).capacity() == old(self).capacity(),
    {
        proof {
            use_type_invariant(&*self);
            self.lemma_consistent();
        }
        let ents = self.entities();
        proof {
            let o = old(self).rows;
            assert(o.entities.len() == o.entities@.len());
            assert forall|i: int| 0 <= i < o.entities@.len() implies o.index.lookup(
                #[trigger] o.entities@[i],
            ) == Some(i as usize) by {}
        }
        (ents, values_mut(&mut self.rows.dense))
    }

    /// The entities of the rows, in row order.
    pub fn entities(&self) -> (r: Vec<Entity>)
        ensures
            self.consistent(),
            r@ == as_entities(self.row_entities()),
    {
        proof {
            use_type_invariant(self);
            self.lemma_consistent();
        }
        let mut out: Vec<Entity> = Vec::new();
        let mut i: usize = 0;
        while i < self.rows.entities.len()
            invariant
                i <= self.rows.entities@.len(),
                out@ == as_entities(self.rows.entities@.subrange(0, i as int)),
            decreases self.rows.entities@.len() - i,
        {
            out.push(Entity(self.rows.entities[i]));
            i = i + 1;
            let ghost ents = self.rows.entities@;
            assert(ents.subrange(0, i as int).drop_last() =~= ents.subrange(0, i - 1));
        }
        assert(self.rows.entities@.subrange(0, i as int) =~= self.rows.entities@);
        out
    }
}

impl<T: Copy + Send + Sync> Storage<T> {
    /// Whether the store is indexed by an array (rather than a hash map).
    pub fn is_sparse(&self) -> (r: bool)
        ensures
            self.consistent(),
            r == (self.capacity() is Some),
    {
        proof {
            use_type_invariant(self);
            self.lemma_consistent();
        }
        match &self.rows.index {
            SparseIndex::Direct(_) => true,
            SparseIndex::Hashed(_) => false,
        }
    }
}

impl<T: Copy + Send + Sync> Storage<T> {
    /// The public log `added`, as the contracts speak of it.
    pub fn added_entities(&self) -> (r: &Vec<Entity>)
        ensures
            r@ == self.added_log(),
    {
        &self.added
    }

    /// The public log `removed`, as the contracts speak of it.
    pub fn removed_entities(&self) -> (r: &Vec<Entity>)
        ensures
            r@ == self.removed_log(),
    {
        &self.removed
    }
}

} // verus!
