use sparse_ecs::component::{Entity, Storage};

#[derive(Default, Copy, Clone)]
struct Vec2 {
    x: i32,
    y: i32,
}

#[test]
fn joining() {
    let mut positions = Storage::<Vec2>::new_sparse(100);
    let mut velocities = Storage::<Vec2>::new_sparse(100);
    let mut colors = Storage::<u32>::new_sparse(100);
    positions.add_entity(Vec2 { x: 25, y: 35 }, Entity(0));
    positions.add_entity(Vec2 { x: 25, y: 35 }, Entity(1));
    positions.add_entity(Vec2 { x: 25, y: 35 }, Entity(6));
    positions.add_entity(Vec2 { x: 25, y: 35 }, Entity(4));
    velocities.add_entity(Vec2 { x: 1, y: 1 }, Entity(1));
    velocities.add_entity(Vec2 { x: 1, y: 1 }, Entity(6));
    colors.add_entity(100, Entity(6));

    let mut found = Vec::<Entity>::new();

    for (entity, _position) in positions.iter() {
        let Some(_velocity) = velocities.get_mut(entity) else {
            continue;
        };
        if !colors.has(entity) {
            continue;
        }
        found.push(entity);
    }

    assert_eq!(found.len(), 1);
    assert_eq!(found[0].0, 6);
}

#[test]
fn test_iter() {
    let mut component = Storage::<u32>::new_sparse(5);
    for i in 0..5u32 {
        component.add_entity(i, Entity(i.try_into().unwrap()));
    }
    let (_entities, values) = component.iter_mut();
    for data in values.iter_mut() {
        *data = 5;
    }
    for (_entity, data) in component.iter() {
        assert_eq!(*data, 5);
    }
}

#[test]
fn test_iter_big_safe() {
    let mut component = Storage::<u32>::new_sparse(1000);
    for i in 0..1000u32 {
        component.add_entity(i, Entity(i.try_into().unwrap()));
    }
    let i = std::time::Instant::now();
    let (_entities, values) = component.iter_mut();
    for data in values.iter_mut() {
        *data = 5;
    }
    println!("mutation: {:?}", i.elapsed());
    let i = std::time::Instant::now();
    for (_entity, data) in component.iter() {
        assert_eq!(*data, 5);
    }
    println!("iteration: {:?}", i.elapsed());
}

#[test]
fn test_add_remove() {
    let mut component = Storage::<usize>::new_sparse(3);
    component.add_entity(1, Entity(0));
    component.add_entity(2, Entity(1));
    component.add_entity(3, Entity(2));
    let removed = component.remove_entity(Entity(1));
    assert_eq!(removed, Some(2));
    let c = component.get(Entity(2));
    assert_eq!(c, Some(&3));
    let removed_c = component.remove_entity(Entity(2));
    assert_eq!(removed_c, Some(3));
    assert_eq!(component.get(Entity(2)), None);
}

#[test]
fn test_mutation() {
    let mut component = Storage::<u32>::new_sparse(5);
    let data1 = 10;
    let updated = 6;
    let data2 = 5;
    component.add_entity(data1, Entity(0));
    component.add_entity(data2, Entity(1));
    let data = component.get_mut(Entity(0)).unwrap();
    *data = updated;
    assert_eq!(*component.get(Entity(0)).unwrap(), updated);
    assert_eq!(*component.get(Entity(1)).unwrap(), data2);
}

#[test]
fn test_key_pairing() {
    let entity1 = Entity(1);
    let entity2 = Entity(2);
    let combined_key = entity1.combine_key(entity2);
    let entity3 = Entity(combined_key);
    assert_ne!(entity3.combine_key(entity1), combined_key);
}

#[test]
fn test_added_removed_tracking() {
    let mut component = Storage::<u32>::new_sparse(5);

    assert!(component.added.is_empty());
    assert!(component.removed.is_empty());

    component.add_entity(10, Entity(0));
    component.add_entity(20, Entity(1));
    component.add_entity(30, Entity(2));

    assert_eq!(component.added.len(), 3);
    assert!(component.added.contains(&Entity(0)));
    assert!(component.added.contains(&Entity(1)));
    assert!(component.added.contains(&Entity(2)));
    assert!(component.removed.is_empty());

    let removed_data = component.remove_entity(Entity(1));
    assert_eq!(removed_data, Some(20));

    assert_eq!(component.removed.len(), 1);
    assert!(component.removed.contains(&Entity(1)));
    assert_eq!(component.added.len(), 3);

    component.remove_entity(Entity(2));

    assert_eq!(component.removed.len(), 2);
    assert!(component.removed.contains(&Entity(1)));
    assert!(component.removed.contains(&Entity(2)));

    let not_removed = component.remove_entity(Entity(3));
    assert_eq!(not_removed, None);

    assert_eq!(component.removed.len(), 2);

    component.add_entity(40, Entity(1));

    assert_eq!(component.added.len(), 4);
    assert!(component.added.contains(&Entity(1)));

    let entity1_count = component.added.iter().filter(|&&e| e == Entity(1)).count();
    assert_eq!(entity1_count, 2);
}

#[test]
fn hashmap_basic() {
    let mut component = Storage::<u32>::new_hashmap();
    component.add_entity(10, Entity(1));
    assert_eq!(component.get(Entity(1)), Some(&10));
    component.set(15, Entity(1));
    assert_eq!(component.get(Entity(1)), Some(&15));
    let removed = component.remove_entity(Entity(1));
    assert_eq!(removed, Some(15));
    assert!(!component.has(Entity(1)));
}

#[test]
fn hashmap_iter_mut() {
    let mut component = Storage::<u32>::new_hashmap();
    for i in 0..5 {
        component.add_entity(i as u32, Entity(i));
    }
    let (_entities, values) = component.iter_mut();
    for v in values.iter_mut() {
        *v += 1;
    }
    for (_e, v) in component.iter() {
        assert!(*v >= 1);
    }
}

#[test]
fn hashmap_iter() {
    let mut component = Storage::<u32>::new_hashmap();
    for i in 0..5 {
        component.add_entity(i as u32, Entity(i));
    }
    let (_entities, values) = component.iter_mut();
    for data in values.iter_mut() {
        *data = 5;
    }
    for (_entity, data) in component.iter() {
        assert_eq!(*data, 5);
    }
}

#[test]
fn hashmap_add_remove() {
    let mut component = Storage::<usize>::new_hashmap();
    component.add_entity(1, Entity(0));
    component.add_entity(2, Entity(1));
    component.add_entity(3, Entity(2));
    let removed = component.remove_entity(Entity(1));
    assert_eq!(removed, Some(2));
    let c = component.get(Entity(2));
    assert_eq!(c, Some(&3));
    let removed_c = component.remove_entity(Entity(2));
    assert_eq!(removed_c, Some(3));
    assert_eq!(component.get(Entity(2)), None);
}

#[test]
fn hashmap_mutation() {
    let mut component = Storage::<u32>::new_hashmap();
    let data1 = 10;
    let updated = 6;
    let data2 = 5;
    component.add_entity(data1, Entity(0));
    component.add_entity(data2, Entity(1));
    let data = component.get_mut(Entity(0)).unwrap();
    *data = updated;
    assert_eq!(*component.get(Entity(0)).unwrap(), updated);
    assert_eq!(*component.get(Entity(1)).unwrap(), data2);
}

#[test]
fn hashmap_added_removed_tracking() {
    let mut component = Storage::<u32>::new_hashmap();

    assert!(component.added.is_empty());
    assert!(component.removed.is_empty());

    component.add_entity(10, Entity(0));
    component.add_entity(20, Entity(1));
    component.add_entity(30, Entity(2));

    assert_eq!(component.added.len(), 3);
    assert!(component.added.contains(&Entity(0)));
    assert!(component.added.contains(&Entity(1)));
    assert!(component.added.contains(&Entity(2)));
    assert!(component.removed.is_empty());

    let removed_data = component.remove_entity(Entity(1));
    assert_eq!(removed_data, Some(20));
    assert_eq!(component.removed.len(), 1);
    assert!(component.removed.contains(&Entity(1)));
    assert_eq!(component.added.len(), 3);

    component.remove_entity(Entity(2));
    assert_eq!(component.removed.len(), 2);
    assert!(component.removed.contains(&Entity(1)));
    assert!(component.removed.contains(&Entity(2)));

    let not_removed = component.remove_entity(Entity(3));
    assert_eq!(not_removed, None);
    assert_eq!(component.removed.len(), 2);

    component.add_entity(40, Entity(1));
    assert_eq!(component.added.len(), 4);
    assert!(component.added.contains(&Entity(1)));

    let entity1_count = component
        .added
        .iter()
        .filter(|&&e| e == Entity(1))
        .count();
    assert_eq!(entity1_count, 2);
}

#[test]
fn bench_iter_compare_sparse_vs_hashmap() {
    const N: usize = 50_000;

    let mut sparse = Storage::<u32>::new_sparse(N.max(1));
    for i in 0..N {
        sparse.add_entity(i as u32, Entity(i));
    }

    let mut map = Storage::<u32>::new_hashmap();
    for i in 0..N {
        map.add_entity(i as u32, Entity(i));
    }

    let t0 = std::time::Instant::now();
    let (_e, values) = sparse.iter_mut();
    for v in values.iter_mut() {
        *v = v.wrapping_add(1);
    }
    let sparse_mut = t0.elapsed();

    let t0 = std::time::Instant::now();
    let (_e, values) = map.iter_mut();
    for v in values.iter_mut() {
        *v = v.wrapping_add(1);
    }
    let map_mut = t0.elapsed();

    let t0 = std::time::Instant::now();
    let mut sum = 0u64;
    for (_e, v) in sparse.iter() {
        sum = sum.wrapping_add(*v as u64);
    }
    let _ = sum;
    let sparse_read = t0.elapsed();

    let t0 = std::time::Instant::now();
    let mut sum2 = 0u64;
    for (_e, v) in map.iter() {
        sum2 = sum2.wrapping_add(*v as u64);
    }
    let _ = sum2;
    let map_read = t0.elapsed();

    println!(
        "N={N} sparse_mut={sparse_mut:?} map_mut={map_mut:?} sparse_read={sparse_read:?} map_read={map_read:?}"
    );

    assert_eq!(sparse.len(), map.len());
}

#[test]
fn trait_object_usage() {
    let mut sparse: Storage<u32> = Storage::new_sparse(10);
    let mut map: Storage<u32> = Storage::new_hashmap();
    let s_store = &mut sparse;
    let m_store = &mut map;
    s_store.add_entity(5, Entity(0));
    m_store.add_entity(6, Entity(1));
    assert_eq!(s_store.get(Entity(0)), Some(&5));
    assert_eq!(m_store.get(Entity(1)), Some(&6));
    let (_e, values) = s_store.iter_mut();
    for v in values.iter_mut() {
        *v += 1;
    }
    let (_e, values) = m_store.iter_mut();
    for v in values.iter_mut() {
        *v += 1;
    }
    assert_eq!(s_store.get(Entity(0)), Some(&6));
    assert_eq!(m_store.get(Entity(1)), Some(&7));
}
