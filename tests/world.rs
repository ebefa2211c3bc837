use sparse_ecs::world::{Component, FetchMut, World};

#[derive(Copy, Clone)]
struct MyComponent {
    #[allow(dead_code)]
    value: u32,
}
impl Component for MyComponent {}

#[derive(Copy, Clone)]
struct Other;
impl Component for Other {}

#[derive(Copy, Clone)]
struct Third;
impl Component for Third {}

#[derive(Copy, Clone)]
struct Fourth;
impl Component for Fourth {}

#[derive(Copy, Clone)]
struct Fifth;
impl Component for Fifth {}

#[derive(Copy, Clone)]
struct Sixth;
impl Component for Sixth {}

#[test]
fn test_world2_creation() {
    let world = World::new(5);
    assert!(world.get::<MyComponent>().is_none());
}

#[test]
fn test_world2_add_component() {
    let mut world = World::new(5);
    world.add::<MyComponent>();
    assert!(world.get::<MyComponent>().is_some());
    assert!(world.get::<Other>().is_none());
}

#[test]
fn test_world2_get_mut_several() {
    let mut world = World::new(5);
    world.add::<MyComponent>();
    world.add::<Other>();

    let (my_component, other_component) = world.get_two_mut::<MyComponent, Other>();
    assert!(my_component.is_some());
    assert!(other_component.is_some());
}

#[test]
fn test_fetchmut_single() {
    let mut world = World::new(5);
    world.add::<MyComponent>();
    let comp_opt = <(MyComponent,) as FetchMut>::fetch(&mut world);
    assert!(comp_opt.is_some());
}

#[test]
fn test_fetchmut_double() {
    let mut world = World::new(5);
    world.add::<MyComponent>();
    world.add::<Other>();
    let fetched = <(MyComponent, Other) as FetchMut>::fetch(&mut world);
    assert!(fetched.is_some());
}

#[test]
fn test_fetchmut_triple() {
    let mut world = World::new(5);
    world.add::<MyComponent>();
    world.add::<Other>();
    world.add::<Third>();
    let fetched = <(MyComponent, Other, Third) as FetchMut>::fetch(&mut world);
    assert!(fetched.is_some());
}

#[test]
fn test_fetchmut_quad() {
    let mut world = World::new(6);
    world.add::<MyComponent>();
    world.add::<Other>();
    world.add::<Third>();
    world.add::<Fourth>();
    let fetched = <(MyComponent, Other, Third, Fourth) as FetchMut>::fetch(&mut world);
    assert!(fetched.is_some());
}

#[test]
fn test_fetchmut_five() {
    let mut world = World::new(6);
    world.add::<MyComponent>();
    world.add::<Other>();
    world.add::<Third>();
    world.add::<Fourth>();
    world.add::<Fifth>();
    let fetched = <(MyComponent, Other, Third, Fourth, Fifth) as FetchMut>::fetch(&mut world);
    assert!(fetched.is_some());
}

#[test]
fn test_fetchmut_six() {
    let mut world = World::new(6);
    world.add::<MyComponent>();
    world.add::<Other>();
    world.add::<Third>();
    world.add::<Fourth>();
    world.add::<Fifth>();
    world.add::<Sixth>();
    let fetched =
        <(MyComponent, Other, Third, Fourth, Fifth, Sixth) as FetchMut>::fetch(&mut world);
    assert!(fetched.is_some());
}

#[test]
fn test_entity_id_reuse() {
    let mut world = World::new(5);

    let entity1 = world.spawn();
    let first_id = entity1.0;

    let entity2 = world.spawn();
    let second_id = entity2.0;

    world.despawn(entity1);

    let entity3 = world.spawn();
    let third_id = entity3.0;

    assert_eq!(
        first_id, third_id,
        "Entity ID should be reused after despawn"
    );
    assert_ne!(
        second_id, third_id,
        "Third entity should not have same ID as active entity"
    );
}
