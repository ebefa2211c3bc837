use sparse_ecs::component::{Entity, Storage};
use sparse_ecs::tags::{EntityTags, TagList};
use sparse_ecs::world::{Component, ComponentStorageKind, FetchMut, World};

#[derive(Copy, Clone, Debug, PartialEq)]
struct Position {
    x: i32,
    y: i32,
}
impl Component for Position {}

#[derive(Copy, Clone, Debug, PartialEq)]
struct Velocity {
    x: i32,
    y: i32,
}
impl Component for Velocity {}

#[derive(Copy, Clone, Debug, PartialEq)]
struct Health(u32);
impl Component for Health {}

#[test]
fn combine_key_exact_values() {
    assert_eq!(Entity(1).combine_key(Entity(2)), 5);
    assert_eq!(Entity(2).combine_key(Entity(1)), 7);
    assert_eq!(Entity(3).combine_key(Entity(3)), 15);
    assert_eq!(Entity(0).combine_key(Entity(0)), 0);
    assert_eq!(Entity(5).combine_key(Entity(1)), 31);
}

#[test]
fn swap_remove_moves_last_row() {
    for mut store in [Storage::<u32>::new_sparse(10), Storage::<u32>::new_hashmap()] {
        store.add_entity(100, Entity(3));
        store.add_entity(200, Entity(7));
        store.add_entity(300, Entity(9));
        assert_eq!(store.remove_entity(Entity(3)), Some(100));
        assert_eq!(store.entities(), vec![Entity(9), Entity(7)]);
        assert_eq!(store.get(Entity(9)), Some(&300));
        assert_eq!(store.get(Entity(7)), Some(&200));
        assert_eq!(store.get(Entity(3)), None);
        assert_eq!(store.len(), 2);
    }
}

#[test]
fn remove_last_row_keeps_order() {
    let mut store = Storage::<u32>::new_sparse(4);
    store.add_entity(1, Entity(0));
    store.add_entity(2, Entity(1));
    assert_eq!(store.remove_entity(Entity(1)), Some(2));
    assert_eq!(store.entities(), vec![Entity(0)]);
    assert_eq!(store.get(Entity(0)), Some(&1));
}

#[test]
fn add_then_remove_round_trip() {
    for mut store in [Storage::<u64>::new_sparse(8), Storage::<u64>::new_hashmap()] {
        store.add_entity(42, Entity(5));
        assert_eq!(store.remove_entity(Entity(5)), Some(42));
        assert_eq!(store.remove_entity(Entity(5)), None);
        assert_eq!(store.len(), 0);
        assert!(store.entities().is_empty());
    }
}

#[test]
fn logs_count_successful_calls() {
    let mut store = Storage::<u8>::new_hashmap();
    store.add_entity(1, Entity(2));
    store.set(2, Entity(2));
    store.set(3, Entity(4));
    assert_eq!(store.added, vec![Entity(2), Entity(4)]);
    assert_eq!(store.remove_entity(Entity(2)), Some(2));
    assert_eq!(store.remove_entity(Entity(2)), None);
    store.add_entity(5, Entity(2));
    assert_eq!(store.added, vec![Entity(2), Entity(4), Entity(2)]);
    assert_eq!(store.removed, vec![Entity(2)]);
    assert_eq!(store.get(Entity(2)), Some(&5));
    assert_eq!(store.get(Entity(4)), Some(&3));
}

#[test]
fn iter_lists_rows_in_order() {
    let mut store = Storage::<u32>::new_sparse(6);
    store.add_entity(10, Entity(5));
    store.add_entity(20, Entity(1));
    let rows: Vec<(Entity, u32)> = store.iter().into_iter().map(|(e, v)| (e, *v)).collect();
    assert_eq!(rows, vec![(Entity(5), 10), (Entity(1), 20)]);
    let (entities, values) = store.iter_mut();
    assert_eq!(entities, vec![Entity(5), Entity(1)]);
    values[1] = 21;
    assert_eq!(store.get(Entity(1)), Some(&21));
    assert!(store.is_sparse());
    assert!(!Storage::<u32>::new_hashmap().is_sparse());
}

#[test]
fn registering_twice_fails() {
    let mut world = World::new(4);
    assert!(world.add::<Position>());
    assert!(!world.add::<Position>());
    assert!(world.add_with_storage::<Velocity>(ComponentStorageKind::HashMap));
    assert!(!world.add_with_storage::<Velocity>(ComponentStorageKind::Sparse));
    assert!(world.get_sparse::<Position>().is_some());
    assert!(world.get_hashmap::<Position>().is_none());
    assert!(world.get_hashmap::<Velocity>().is_some());
    assert!(world.get_sparse_mut::<Velocity>().is_none());
    assert!(world.get_hashmap_mut::<Velocity>().is_some());
    assert!(world.get::<Health>().is_none());
}

#[test]
fn fetch_with_unregistered_type_is_absent() {
    let mut world = World::new(4);
    world.add::<Position>();
    world.add::<Velocity>();
    assert!(<(Position, Health) as FetchMut>::fetch(&mut world).is_none());
    assert!(<(Health,) as FetchMut>::fetch(&mut world).is_none());
    let (p, h) = world.get_two_mut::<Position, Health>();
    assert!(p.is_some());
    assert!(h.is_none());
}

#[test]
fn fetch_same_type_twice_is_absent() {
    let mut world = World::new(4);
    world.add::<Position>();
    world.add::<Velocity>();
    assert!(<(Position, Position) as FetchMut>::fetch(&mut world).is_none());
    let (a, b, c) = world.get_three_mut::<Velocity, Position, Velocity>();
    assert!(a.is_none() && b.is_none() && c.is_none());
}

#[test]
fn fetched_stores_change_independently() {
    let mut world = World::new(4);
    world.add::<Position>();
    world.add::<Velocity>();
    let e = world.spawn();
    {
        let (positions, velocities) =
            <(Position, Velocity) as FetchMut>::fetch(&mut world).unwrap();
        positions.add_entity(Position { x: 1, y: 1 }, e);
        velocities.add_entity(Velocity { x: 2, y: 3 }, e);
        *positions.get_mut(e).unwrap() = Position { x: 9, y: 9 };
    }
    assert_eq!(world.get::<Position>().unwrap().get(e), Some(&Position { x: 9, y: 9 }));
    assert_eq!(world.get::<Velocity>().unwrap().get(e), Some(&Velocity { x: 2, y: 3 }));
}

#[test]
fn movement_system_scenario() {
    let mut world = World::new(10);
    world.add::<Position>();
    world.add::<Velocity>();
    let entity = world.spawn();
    assert_eq!(entity, Entity(0));
    world.get_mut::<Position>().unwrap().add_entity(Position { x: 0, y: 0 }, entity);
    world.get_mut::<Velocity>().unwrap().add_entity(Velocity { x: 1, y: 5 }, entity);

    let (positions, velocities) = world.get_two_mut::<Position, Velocity>();
    let (positions, velocities) = (positions.unwrap(), velocities.unwrap());
    let (entities, values) = positions.iter_mut();
    for (entity, pos) in entities.into_iter().zip(values.iter_mut()) {
        let Some(velocity) = velocities.get(entity) else {
            continue;
        };
        pos.x += velocity.x;
        pos.y += velocity.y;
    }

    assert_eq!(world.get::<Position>().unwrap().get(entity), Some(&Position { x: 1, y: 5 }));
    let rows = world.iter::<Position>();
    assert_eq!(rows.len(), 1);
    assert!(world.iter::<Health>().is_empty());
    let (ents, vals) = world.iter_mut::<Health>();
    assert!(ents.is_empty() && vals.is_empty());
}

#[test]
fn tag_index_scenario() {
    let mut tags = EntityTags::new();
    tags.add_tag("player", Entity(7));
    assert_eq!(tags.expect_one("player"), Entity(7));
    assert_eq!(tags.want_one("player"), Some(Entity(7)));
    tags.add_tag("player", Entity(8));
    assert_eq!(tags.count("player"), 2);
    assert_eq!(tags.want_one("player"), None);
    assert_eq!(tags.want_one("enemy"), None);
}

#[test]
fn tags_add_remove_and_query() {
    let mut tags = EntityTags::new();
    tags.add_tags(&["red", "round"], Entity(1));
    tags.add_tag("red", Entity(2));
    tags.add_tag("red", Entity(2));
    assert_eq!(tags.count("red"), 2);
    assert_eq!(tags.count("round"), 1);
    assert_eq!(tags.count("blue"), 0);
    assert!(tags.has_tag("round", &Entity(1)));
    assert!(!tags.has_tag("round", &Entity(2)));
    assert!(!tags.has_tag("Round", &Entity(1)));
    let mut red = tags.get_entities_with_tag("red").unwrap();
    red.sort();
    assert_eq!(red, vec![Entity(1), Entity(2)]);
    assert_eq!(tags.get_entities_with_tag("blue"), None);
    tags.remove_tag("red", &Entity(1));
    assert_eq!(tags.get_entities_with_tag("red"), Some(vec![Entity(2)]));
    tags.remove_all_tags(&Entity(2));
    assert_eq!(tags.get_entities_with_tag("red"), Some(vec![]));
    assert_eq!(tags.count("round"), 1);
}

#[test]
fn tag_list_operations() {
    let mut list = TagList::new();
    list.add_entity(Entity(3));
    list.add_entity(Entity(3));
    assert_eq!(list.len(), 1);
    assert_eq!(list.expect_one(), Entity(3));
    assert!(list.contains(&Entity(3)));
    list.add_entity(Entity(4));
    list.remove_entity(&Entity(3));
    assert!(!list.contains(&Entity(3)));
    assert_eq!(list.to_vec(), vec![Entity(4)]);
}

#[test]
fn despawn_clears_tags_and_reuses_id() {
    let mut world = World::new(4);
    let a = world.spawn();
    let b = world.spawn();
    world.tags.add_tag("player", a);
    world.tags.add_tag("player", b);
    world.despawn(a);
    assert_eq!(world.tags.expect_one("player"), b);
    let c = world.spawn();
    assert_eq!(c, a);
    let d = world.spawn();
    assert_eq!(d, Entity(2));
}

#[test]
fn entity_from_decimal_string() {
    assert_eq!("42".parse::<Entity>(), Ok(Entity(42)));
    assert_eq!("+7".parse::<Entity>(), Ok(Entity(7)));
    assert_eq!("0".parse::<Entity>(), Ok(Entity(0)));
    assert!("x".parse::<Entity>().is_err());
    assert!("".parse::<Entity>().is_err());
    assert!("-1".parse::<Entity>().is_err());
    assert!(" 3".parse::<Entity>().is_err());
    assert_eq!(Entity::parse("123"), Some(Entity(123)));
    assert_eq!(Entity::parse("99999999999999999999999999"), None);
}

#[test]
fn world_tag_index_access() {
    let mut world = World::new(4);
    let a = world.spawn();
    world.tag_index_mut().add_tag("boss", a);
    assert_eq!(world.tag_index().count("boss"), 1);
    assert!(world.tag_index().has_tag("boss", &a));
    world.despawn(a);
    assert_eq!(world.tag_index().count("boss"), 0);
}

#[test]
fn despawn_keeps_component_data() {
    let mut world = World::new(4);
    world.add::<Health>();
    let a = world.spawn();
    world.get_mut::<Health>().unwrap().add_entity(Health(3), a);
    world.despawn(a);
    assert_eq!(world.get::<Health>().unwrap().get(a), Some(&Health(3)));
}

#[test]
fn log_accessors_match_fields() {
    let mut store = Storage::<u32>::new_sparse(3);
    store.add_entity(1, Entity(0));
    store.add_entity(2, Entity(2));
    store.remove_entity(Entity(0));
    assert_eq!(store.added_entities(), &vec![Entity(0), Entity(2)]);
    assert_eq!(store.removed_entities(), &vec![Entity(0)]);
    assert_eq!(store.get(Entity(2)), Some(&2));
}
