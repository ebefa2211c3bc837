use vstd::prelude::*;

use crate::entity::Entity;

verus! {

broadcast use vstd::seq_lib::group_seq_properties;

/// Two tags are the same tag when their bytes are equal.
fn same_tag(a: &str, b: &str) -> (r: bool)
    ensures
        r == (a@ == b@),
{
    let x = a.as_bytes();
    let y = b.as_bytes();
    let eq = if x.len() != y.len() {
        false
    } else {
        let mut i: usize = 0;
        let mut all = true;
        assert(x@.subrange(0, 0) =~= y@.subrange(0, 0));
        while i < x.len()
            invariant
                x@.len() == y@.len(),
                i <= x@.len(),
                all == (x@.subrange(0, i as int) == y@.subrange(0, i as int)),
            decreases x@.len() - i,
        {
            if x[i] != y[i] {
                all = false;
            }
            proof {
                if all {
                    assert(x@.subrange(0, i + 1) =~= x@.subrange(0, i as int).push(x@[i as int]));
                    assert(y@.subrange(0, i + 1) =~= y@.subrange(0, i as int).push(y@[i as int]));
                } else {
                    if x@.subrange(0, i + 1) == y@.subrange(0, i + 1) {
                        if x[i as int] == y[i as int] {
                            assert(x@.subrange(0, i as int) =~= x@.subrange(0, i + 1).drop_last());
                            assert(y@.subrange(0, i as int) =~= y@.subrange(0, i + 1).drop_last());
                        } else {
                            assert(x@.subrange(0, i + 1)[i as int] == x@[i as int]);
                            assert(y@.subrange(0, i + 1)[i as int] == y@[i as int]);
                        }
                    }
                }
            }
            i = i + 1;
        }
        assert(x@.subrange(0, i as int) =~= x@);
        assert(y@.subrange(0, i as int) =~= y@);
        all
    };
    proof {
        vstd::utf8::encode_utf8_decode_utf8(a@);
        vstd::utf8::encode_utf8_decode_utf8(b@);
    }
    eq
}

/// The entities that carry one tag: a set, kept as a vector without
/// repeated entities (in place of a hash set, whose elements verified code
/// cannot pick out one by one).
#[derive(Debug, Default)]
pub struct TagList {
    set: Vec<Entity>,
}

impl TagList {
    /// No entity is listed twice.
    pub closed spec fn wf(&self) -> bool {
        self.set@.no_duplicates()
    }

    /// The entities of the list.
    pub closed spec fn view(&self) -> Set<Entity> {
        self.set@.to_set()
    }

    /// An empty list.
    pub fn new() -> (r: Self)
        ensures
            r@.finite(),
            r.wf(),
            r@ == Set::<Entity>::empty(),
    {
        proof {
            vstd::seq_lib::seq_to_set_is_finite(Seq::<Entity>::empty());
        }
        let r = TagList { set: Vec::new() };
        assert(r@ =~= Set::<Entity>::empty());
        r
    }

    fn position(&self, entity: &Entity) -> (r: Option<usize>)
        ensures
            match r {
                Some(i) => i < self.set@.len() && self.set@[i as int] == *entity,
                None => !self.set@.contains(*entity),
            },
    {
        let mut i: usize = 0;
        while i < self.set.len()
            invariant
                i <= self.set@.len(),
                forall|j: int| 0 <= j < i ==> self.set@[j] != *entity,
            decreases self.set@.len() - i,
        {
            if self.set[i] == *entity {
                return Some(i);
            }
            i = i + 1;
        }
        None
    }

    pub fn add_entity(&mut self, entity: Entity)
        requires
            old(self).wf(),
        ensures
            final(self)@.finite(),
            final(self).wf(),
            final(self)@ == old(self)@.insert(entity),
    {
        if self.position(&entity).is_none() {
            self.set.push(entity);
            proof {
                assert(final(self).set@.no_duplicates()) by {
                    assert forall|a: int, b: int|
                        0 <= a < b < self.set@.len() implies self.set@[a] != self.set@[b] by {
                        if b == self.set@.len() - 1 {
                            assert(old(self).set@.contains(self.set@[a]));
                        }
                    }
                }
            }
            assert(self@ =~= old(self)@.insert(entity));
        } else {
            assert(self@ =~= old(self)@.insert(entity));
        }
        proof {
            vstd::seq_lib::seq_to_set_is_finite(self.set@);
        }
    }

    pub fn remove_entity(&mut self, entity: &Entity)
        requires
            old(self).wf(),
        ensures
            final(self)@.finite(),
            final(self).wf(),
            final(self)@ == old(self)@.remove(*entity),
    {
        match self.position(entity) {
            Some(i) => {
                let ghost s = self.set@;
                self.set.swap_remove(i);
                proof {
                    let t = self.set@;
                    assert(t =~= s.update(i as int, s.last()).drop_last());
                    assert forall|a: int, b: int|
                        0 <= a < b < t.len() implies t[a] != t[b] by {
                        if a == i {
                            assert(t[a] == s[s.len() - 1]);
                        }
                    }
                    assert forall|x: Entity| #[trigger] t.contains(x) == s.to_set().remove(
                        *entity,
                    ).contains(x) by {
                        if s.contains(x) && x != *entity {
                            let k = choose|k: int| 0 <= k < s.len() && s[k] == x;
                            if k == s.len() - 1 {
                                assert(t[i as int] == x);
                            } else {
                                assert(t[k] == x);
                            }
                        }
                        if t.contains(x) {
                            let k = choose|k: int| 0 <= k < t.len() && t[k] == x;
                            if k == i {
                                assert(s[s.len() - 1] == x);
                            } else {
                                assert(s[k] == x);
                            }
                        }
                    }
                }
                assert(self@ =~= old(self)@.remove(*entity));
            },
            None => {
                assert(self@ =~= old(self)@.remove(*entity));
            },
        }
        proof {
            vstd::seq_lib::seq_to_set_is_finite(self.set@);
        }
    }

    pub fn contains(&self, entity: &Entity) -> (r: bool)
        ensures
            self@.finite(),
            r == self@.contains(*entity),
    {
        proof {
            vstd::seq_lib::seq_to_set_is_finite(self.set@);
        }
        self.position(entity).is_some()
    }

    /// The one entity of the list. There must be exactly one.
    pub fn expect_one(&self) -> (r: Entity)
        requires
            self.wf(),
            self@.len() == 1,
        ensures
            self@ == Set::<Entity>::empty().insert(r),
    {
        proof {
            self.set@.unique_seq_to_set();
        }
        vstd::pervasive::runtime_assert(self.set.len() == 1);
        let r = self.set[0];
        proof {
            assert forall|x: Entity| #[trigger] self@.contains(x) implies x == r by {
                let k = choose|k: int| 0 <= k < self.set@.len() && self.set@[k] == x;
            }
        }
        assert(self@ =~= Set::<Entity>::empty().insert(r));
        r
    }

    /// The number of entities in the list.
    pub fn len(&self) -> (r: usize)
        requires
            self.wf(),
        ensures
            self@.finite(),
            r == self@.len(),
    {
        proof {
            vstd::seq_lib::seq_to_set_is_finite(self.set@);
        }
        proof {
            self.set@.unique_seq_to_set();
        }
        self.set.len()
    }

    /// The entities of the list, each once.
    pub fn to_vec(&self) -> (r: Vec<Entity>)
        requires
            self.wf(),
        ensures
            self@.finite(),
            r@.to_set() == self@,
            r@.no_duplicates(),
    {
        proof {
            vstd::seq_lib::seq_to_set_is_finite(self.set@);
        }
        self.set.clone()
    }
}

/// Tags and the entities that carry them. Each tag ever used has an entry,
/// which may become empty as entities lose the tag. The entries are kept in
/// a vector with no tag twice, in place of a hash map keyed by string.
#[derive(Debug)]
pub struct EntityTags {
    tags: Vec<(&'static str, TagList)>,
}

impl EntityTags {
    /// Every list is well formed and no tag has two entries.
    pub closed spec fn wf(&self) -> bool {
        &&& forall|i: int| 0 <= i < self.tags@.len() ==> (#[trigger] self.tags@[i]).1.wf()
        &&& forall|i: int, j: int|
            0 <= i < j < self.tags@.len() ==> (#[trigger] self.tags@[i]).0@ != (
            #[trigger] self.tags@[j]).0@
    }

    spec fn has_entry(&self, t: Seq<char>) -> bool {
        exists|i: int| 0 <= i < self.tags@.len() && (#[trigger] self.tags@[i]).0@ == t
    }

    spec fn entry_of(&self, t: Seq<char>) -> int {
        choose|i: int| 0 <= i < self.tags@.len() && (#[trigger] self.tags@[i]).0@ == t
    }

    /// Every tag's set of entities is finite.
    pub open spec fn lists_finite(&self) -> bool {
        forall|t: Seq<char>| #[trigger] self@.contains_key(t) ==> self@[t].finite()
    }

    proof fn lemma_lists_finite(&self)
        requires
            self.wf(),
        ensures
            self.lists_finite(),
    {
        assert forall|t: Seq<char>| #[trigger] self@.contains_key(t) implies self@[t].finite() by {
            let j = self.entry_of(t);
            self.lemma_entry(j);
            vstd::seq_lib::seq_to_set_is_finite(self.tags@[j].1.set@);
        }
    }

    /// For each tag used so far, the entities that carry it.
    pub closed spec fn view(&self) -> Map<Seq<char>, Set<Entity>> {
        Map::new(|t: Seq<char>| self.has_entry(t), |t: Seq<char>| self.tags@[self.entry_of(t)].1@)
    }

    /// The entities that carry tag `t`; none for a tag never used.
    pub open spec fn tagged(&self, t: Seq<char>) -> Set<Entity> {
        if self@.contains_key(t) {
            self@[t]
        } else {
            Set::empty()
        }
    }

    proof fn lemma_entry(&self, i: int)
        requires
            self.wf(),
            0 <= i < self.tags@.len(),
        ensures
            self@.contains_key(self.tags@[i].0@),
            self@[self.tags@[i].0@] == self.tags@[i].1@,
    {
        let t = self.tags@[i].0@;
        assert(self.has_entry(t));
        let j = self.entry_of(t);
        if j != i {
            if j < i {
                assert(self.tags@[j].0@ != self.tags@[i].0@);
            } else {
                assert(self.tags@[i].0@ != self.tags@[j].0@);
            }
        }
    }

    pub fn new() -> (r: Self)
        ensures
            r.lists_finite(),
            r.wf(),
            r@ == Map::<Seq<char>, Set<Entity>>::empty(),
    {
        let r = EntityTags { tags: Vec::new() };
        assert(r@ =~= Map::<Seq<char>, Set<Entity>>::empty());
        r
    }

    fn find(&self, tag: &str) -> (r: Option<usize>)
        requires
            self.wf(),
        ensures
            match r {
                Some(i) => i < self.tags@.len() && self.tags@[i as int].0@ == tag@,
                None => !self@.contains_key(tag@),
            },
    {
        let mut i: usize = 0;
        while i < self.tags.len()
            invariant
                i <= self.tags@.len(),
                forall|j: int| 0 <= j < i ==> (#[trigger] self.tags@[j]).0@ != tag@,
            decreases self.tags@.len() - i,
        {
            if same_tag(self.tags[i].0, tag) {
                return Some(i);
            }
            i = i + 1;
        }
        None
    }
}

impl EntityTags {
    proof fn lemma_replaced(&self, other: &Self, i: int)
        requires
            self.wf(),
            0 <= i < self.tags@.len(),
            other.tags@.len() == self.tags@.len(),
            other.tags@[i].0 == self.tags@[i].0,
            other.tags@[i].1.wf(),
            forall|j: int| 0 <= j < self.tags@.len() && j != i ==> other.tags@[j] == self.tags@[j],
        ensures
            other.wf(),
            other@ == self@.insert(self.tags@[i].0@, other.tags@[i].1@),
    {
        assert(other.wf()) by {
            assert forall|a: int, b: int|
                0 <= a < b < other.tags@.len() implies (#[trigger] other.tags@[a]).0@ != (
                #[trigger] other.tags@[b]).0@ by {
                assert(self.tags@[a].0@ != self.tags@[b].0@);
            }
        }
        let t = self.tags@[i].0@;
        assert forall|u: Seq<char>| #[trigger] other@.contains_key(u) == self@.insert(
            t,
            other.tags@[i].1@,
        ).contains_key(u) by {
            if other.has_entry(u) {
                let j = other.entry_of(u);
                assert(self.tags@[j].0@ == u);
            }
            if self.has_entry(u) {
                let j = self.entry_of(u);
                assert(other.tags@[j].0@ == u);
            }
            if u == t {
                assert(other.tags@[i].0@ == u);
            }
        }
        assert forall|u: Seq<char>| #[trigger]
            other@.contains_key(u) implies other@[u] == self@.insert(t, other.tags@[i].1@)[u] by {
            let j = other.entry_of(u);
            other.lemma_entry(j);
            if j != i {
                self.lemma_entry(j);
            }
        }
        assert(other@ =~= self@.insert(t, other.tags@[i].1@));
    }

    /// Adds a tag to the given entity.
    pub fn add_tag(&mut self, tag: &'static str, entity: Entity)
        requires
            old(self).wf(),
        ensures
            final(self).lists_finite(),
            final(self).wf(),
            final(self)@ == old(self)@.insert(tag@, old(self).tagged(tag@).insert(entity)),
    {
        match self.find(tag) {
            Some(i) => {
                proof {
                    old(self).lemma_entry(i as int);
                }
                self.tags[i].1.add_entity(entity);
                proof {
                    old(self).lemma_replaced(self, i as int);
                }
            },
            None => {
                let mut list = TagList::new();
                list.add_entity(entity);
                self.tags.push((tag, list));
                proof {
                    let n = old(self).tags@.len() as int;
                    assert(self.wf()) by {
                        assert forall|a: int, b: int|
                            0 <= a < b < self.tags@.len() implies (#[trigger] self.tags@[a]).0@
                            != (#[trigger] self.tags@[b]).0@ by {
                            if b == n && self.tags@[a].0@ == tag@ {
                                assert(old(self).tags@[a] == self.tags@[a]);
                            }
                        }
                    }
                    assert forall|u: Seq<char>| #[trigger]
                        self@.contains_key(u) == old(self)@.insert(tag@, list@).contains_key(u) by {
                        if self.has_entry(u) {
                            let j = self.entry_of(u);
                            if j < n {
                                assert(old(self).tags@[j].0@ == u);
                            }
                        }
                        if old(self).has_entry(u) {
                            let j = old(self).entry_of(u);
                            assert(self.tags@[j].0@ == u);
                        }
                        if u == tag@ {
                            assert(self.tags@[n].0@ == u);
                        }
                    }
                    assert forall|u: Seq<char>| #[trigger] self@.contains_key(u) implies self@[u]
                        == old(self)@.insert(tag@, list@)[u] by {
                        let j = self.entry_of(u);
                        self.lemma_entry(j);
                        if j < n {
                            old(self).lemma_entry(j);
                        }
                    }
                    assert(self@ =~= old(self)@.insert(tag@, list@));
                    assert(list@ =~= Set::<Entity>::empty().insert(entity));
                }
            },
        }
        proof {
            self.lemma_lists_finite();
        }
    }
}

impl EntityTags {
    /// Adds each of several tags to the given entity.
    pub fn add_tags(&mut self, tags: &[&'static str], entity: Entity)
        requires
            old(self).wf(),
        ensures
            final(self).lists_finite(),
            final(self).wf(),
            forall|t: Seq<char>| #[trigger]
                final(self)@.contains_key(t) == (old(self)@.contains_key(t) || exists|k: int|
                    0 <= k < tags@.len() && (#[trigger] tags@[k])@ == t),
            forall|t: Seq<char>| #[trigger]
                final(self).tagged(t) == if exists|k: int|
                    0 <= k < tags@.len() && (#[trigger] tags@[k])@ == t {
                    old(self).tagged(t).insert(entity)
                } else {
                    old(self).tagged(t)
                },
    {
        let mut i: usize = 0;
        while i < tags.len()
            invariant
                self.wf(),
                i <= tags@.len(),
                forall|t: Seq<char>| #[trigger]
                    self@.contains_key(t) == (old(self)@.contains_key(t) || exists|k: int|
                        0 <= k < i && (#[trigger] tags@[k])@ == t),
                forall|t: Seq<char>| #[trigger]
                    self.tagged(t) == if exists|k: int| 0 <= k < i && (#[trigger] tags@[k])@ == t {
                        old(self).tagged(t).insert(entity)
                    } else {
                        old(self).tagged(t)
                    },
            decreases tags@.len() - i,
        {
            let ghost before = *self;
            self.add_tag(tags[i], entity);
            proof {
                assert forall|t: Seq<char>| #[trigger]
                    self@.contains_key(t) == (old(self)@.contains_key(t) || exists|k: int|
                        0 <= k < i + 1 && (#[trigger] tags@[k])@ == t) by {
                    if t == tags@[i as int]@ {
                        assert(tags@[i as int]@ == t);
                    } else if exists|k: int| 0 <= k < i + 1 && (#[trigger] tags@[k])@ == t {
                        let k = choose|k: int| 0 <= k < i + 1 && (#[trigger] tags@[k])@ == t;
                        assert(k < i);
                    }
                }
                assert forall|t: Seq<char>| #[trigger]
                    self.tagged(t) == if exists|k: int|
                        0 <= k < i + 1 && (#[trigger] tags@[k])@ == t {
                        old(self).tagged(t).insert(entity)
                    } else {
                        old(self).tagged(t)
                    } by {
                    assert(before.tagged(t) == self.tagged(t) || t == tags@[i as int]@);
                    if t == tags@[i as int]@ {
                        assert(tags@[i as int]@ == t);
                        if exists|k: int| 0 <= k < i && (#[trigger] tags@[k])@ == t {
                            assert(before.tagged(t) == old(self).tagged(t).insert(entity));
                            assert(self.tagged(t) =~= old(self).tagged(t).insert(entity));
                        }
                    } else if exists|k: int| 0 <= k < i + 1 && (#[trigger] tags@[k])@ == t {
                        let k = choose|k: int| 0 <= k < i + 1 && (#[trigger] tags@[k])@ == t;
                        assert(k < i);
                    }
                }
            }
            i = i + 1;
        }
        proof {
            self.lemma_lists_finite();
        }
    }

    /// Removes a tag from the given entity.
    pub fn remove_tag(&mut self, tag: &'static str, entity: &Entity)
        requires
            old(self).wf(),
        ensures
            final(self).lists_finite(),
            final(self).wf(),
            final(self)@ == if old(self)@.contains_key(tag@) {
                old(self)@.insert(tag@, old(self)@[tag@].remove(*entity))
            } else {
                old(self)@
            },
    {
        match self.find(tag) {
            Some(i) => {
                proof {
                    old(self).lemma_entry(i as int);
                }
                self.tags[i].1.remove_entity(entity);
                proof {
                    old(self).lemma_replaced(self, i as int);
                }
            },
            None => {},
        }
        proof {
            self.lemma_lists_finite();
        }
    }

    /// Removes every tag from the given entity.
    pub fn remove_all_tags(&mut self, entity: &Entity)
        requires
            old(self).wf(),
        ensures
            final(self).lists_finite(),
            final(self).wf(),
            final(self)@.dom() == old(self)@.dom(),
            forall|t: Seq<char>| #[trigger]
                final(self)@.contains_key(t) ==> final(self)@[t] == old(self)@[t].remove(*entity),
    {
        let mut i: usize = 0;
        while i < self.tags.len()
            invariant
                self.wf(),
                i <= self.tags@.len(),
                self.tags@.len() == old(self).tags@.len(),
                forall|j: int|
                    0 <= j < self.tags@.len() ==> (#[trigger] self.tags@[j]).0 == old(
                        self,
                    ).tags@[j].0,
                forall|j: int|
                    0 <= j < i ==> (#[trigger] self.tags@[j]).1@ == old(self).tags@[j].1@.remove(
                        *entity,
                    ),
                forall|j: int|
                    i <= j < self.tags@.len() ==> #[trigger] self.tags@[j] == old(self).tags@[j],
            decreases self.tags@.len() - i,
        {
            let ghost before = *self;
            self.tags[i].1.remove_entity(entity);
            proof {
                before.lemma_replaced(self, i as int);
            }
            i = i + 1;
        }
        proof {
            assert forall|t: Seq<char>| #[trigger]
                self@.contains_key(t) == old(self)@.contains_key(t) by {
                if self.has_entry(t) {
                    let j = self.entry_of(t);
                    assert(old(self).tags@[j].0@ == t);
                }
                if old(self).has_entry(t) {
                    let j = old(self).entry_of(t);
                    assert(self.tags@[j].0@ == t);
                }
            }
            assert forall|t: Seq<char>| #[trigger]
                self@.contains_key(t) implies self@[t] == old(self)@[t].remove(*entity) by {
                let j = self.entry_of(t);
                self.lemma_entry(j);
                old(self).lemma_entry(j);
            }
            assert(self@.dom() =~= old(self)@.dom());
        }
        proof {
            self.lemma_lists_finite();
        }
    }
}

impl EntityTags {
    /// The entities that carry a tag, each once; `None` for a tag never used.
    pub fn get_entities_with_tag(&self, tag: &'static str) -> (r: Option<Vec<Entity>>)
        requires
            self.wf(),
        ensures
            self.lists_finite(),
            match r {
                Some(v) => self@.contains_key(tag@) && v@.to_set() == self@[tag@]
                    && v@.no_duplicates(),
                None => !self@.contains_key(tag@),
            },
    {
        proof {
            self.lemma_lists_finite();
        }
        match self.find(tag) {
            Some(i) => {
                proof {
                    self.lemma_entry(i as int);
                }
                Some(self.tags[i].1.to_vec())
            },
            None => None,
        }
    }

    /// The number of entities that carry a tag.
    pub fn count(&self, tag: &'static str) -> (r: usize)
        requires
            self.wf(),
        ensures
            self.lists_finite(),
            r == self.tagged(tag@).len(),
    {
        proof {
            self.lemma_lists_finite();
        }
        match self.find(tag) {
            Some(i) => {
                proof {
                    self.lemma_entry(i as int);
                }
                self.tags[i].1.len()
            },
            None => 0,
        }
    }

    /// The one entity that carries a tag. Exactly one entity must carry it.
    pub fn expect_one(&self, tag: &'static str) -> (r: Entity)
        requires
            self.wf(),
            self.tagged(tag@).len() == 1,
        ensures
            self.lists_finite(),
            self.tagged(tag@) == Set::<Entity>::empty().insert(r),
    {
        proof {
            self.lemma_lists_finite();
        }
        match self.find(tag) {
            Some(i) => {
                proof {
                    self.lemma_entry(i as int);
                }
                self.tags[i].1.expect_one()
            },
            None => {
                proof {
                    assert(Set::<Entity>::empty().len() == 0);
                }
                vstd::pervasive::unreached()
            },
        }
    }

    /// The one entity that carries a tag; `None` unless exactly one does.
    pub fn want_one(&self, tag: &'static str) -> (r: Option<Entity>)
        requires
            self.wf(),
        ensures
            self.lists_finite(),
            match r {
                Some(e) => self.tagged(tag@) == Set::<Entity>::empty().insert(e),
                None => self.tagged(tag@).len() != 1,
            },
    {
        proof {
            self.lemma_lists_finite();
        }
        match self.find(tag) {
            Some(i) => {
                proof {
                    self.lemma_entry(i as int);
                }
                if self.tags[i].1.len() == 1 {
                    Some(self.tags[i].1.expect_one())
                } else {
                    None
                }
            },
            None => None,
        }
    }

    /// Whether the entity carries the tag.
    pub fn has_tag(&self, tag: &'static str, entity: &Entity) -> (r: bool)
        requires
            self.wf(),
        ensures
            self.lists_finite(),
            r == self.tagged(tag@).contains(*entity),
    {
        proof {
            self.lemma_lists_finite();
        }
        match self.find(tag) {
            Some(i) => {
                proof {
                    self.lemma_entry(i as int);
                }
                self.tags[i].1.contains(entity)
            },
            None => false,
        }
    }
}

} // verus!
