use volv::body::{BodyId, BodyRef, LargeBodyId, LargeBodySchema};
use volv::event::{Collision, EventType, FieldChange};
use volv::math::{Length, Mass, Time, Vector, UNBOUNDED};
use volv::orbit::Eci;
use volv::system::{
    schema_states_present, BodyMutation, CollisionError, CollisionResolution, Direction,
    FieldChangeError, SchemaError, System,
};

fn state(px: i64, py: i64, vx: i64, vy: i64) -> Eci {
    Eci::new(Vector::new(px, py), Vector::new(vx, vy))
}

fn field(surface: i64, grav: i64, mass: i64, eci: Option<Eci>, children: Vec<LargeBodySchema>) -> LargeBodySchema {
    LargeBodySchema {
        surface_radius: Length(surface),
        grav_radius: Length(grav),
        mass: Mass(mass),
        eci,
        children,
    }
}

/// A root of mass 1000 holding one field of radius 500 and mass 100.
fn root_and_planet() -> System {
    let schema = field(
        1000,
        0,
        1000,
        None,
        vec![field(100, 500, 100, Some(state(5000, 0, 0, 10)), vec![])],
    );
    System::from_schema(&schema).unwrap()
}

#[test]
fn test_viewport() {
    let system = root_and_planet();
    let tree = system.tree();
    let focus = tree.get_large_body(tree.root_id());
    assert_eq!(focus.large.len(), 1);
    assert_eq!(focus.small.len(), 0);
    let child = tree.get_large_body(focus.large[0]);
    assert_eq!(child.orbit.unwrap().epoch_state().position, Vector::new(5000, 0));
}

#[test]
fn schema_with_one_child_builds_two_bodies() {
    let system = root_and_planet();
    let tree = system.tree();
    let root = tree.root_id();
    assert_eq!(root, LargeBodyId(BodyId(0)));
    assert_eq!(tree.body_count(), 2);
    let child = LargeBodyId(BodyId(1));
    assert_eq!(tree.parent(BodyId(1)), Some(root));
    assert_eq!(tree.get_large_body(root).large, vec![child]);
    assert_eq!(tree.get_large_body(root).grav_radius, Length(UNBOUNDED));
    assert_eq!(tree.get_large_body(root).orbit, None);
    let planet = tree.get_large_body(child);
    assert_eq!(planet.grav_radius, Length(500));
    assert_eq!(planet.mass, Mass(100));
    let orbit = planet.orbit.unwrap();
    assert_eq!(orbit.primary_mass(), Mass(1000));
    assert_eq!(orbit.epoch(), Time(0));
    assert_eq!(orbit.epoch_state(), state(5000, 0, 0, 10));
}

#[test]
fn schema_ids_are_pre_order() {
    let schema = field(
        10,
        0,
        1000,
        None,
        vec![
            field(1, 50, 10, Some(state(100, 0, 0, 1)), vec![field(1, 5, 1, Some(state(2, 0, 0, 1)), vec![])]),
            field(1, 50, 10, Some(state(-100, 0, 0, -1)), vec![]),
        ],
    );
    let system = System::from_schema(&schema).unwrap();
    let tree = system.tree();
    assert_eq!(tree.body_count(), 4);
    assert_eq!(tree.parent(BodyId(1)), Some(LargeBodyId(BodyId(0))));
    assert_eq!(tree.parent(BodyId(2)), Some(LargeBodyId(BodyId(1))));
    assert_eq!(tree.parent(BodyId(3)), Some(LargeBodyId(BodyId(0))));
    assert_eq!(tree.get_large_body(LargeBodyId(BodyId(2))).orbit.unwrap().primary_mass(), Mass(10));
}

#[test]
fn schema_without_child_state_is_detected() {
    let schema = field(10, 0, 1000, None, vec![field(1, 50, 10, None, vec![])]);
    assert!(!schema_states_present(&schema));
    let good = field(10, 0, 1000, None, vec![field(1, 50, 10, Some(state(1, 0, 0, 0)), vec![])]);
    assert!(schema_states_present(&good));
}

#[test]
fn schema_with_surface_beyond_field_is_refused() {
    let schema = field(10, 0, 1000, None, vec![field(60, 50, 10, Some(state(1, 0, 0, 0)), vec![])]);
    assert_eq!(System::from_schema(&schema).err(), Some(SchemaError::Invalid));
}

#[test]
fn drain_order_is_time_then_id() {
    let mut system = root_and_planet();
    let times = [5, 3, 3, 7];
    let tags = [10u64, 11, 12, 13];
    for k in 0..4 {
        system.schedule(Time(times[k]), EventType::Misc(tags[k])).unwrap();
    }
    assert_eq!(system.next_event(), Some(Time(3)));
    let mut fired = Vec::new();
    while let Some(event) = system.pop_due(Time(10)) {
        match event.into_type() {
            EventType::Misc(tag) => fired.push((event.time, tag)),
            _ => panic!("unexpected event"),
        }
    }
    assert_eq!(fired, vec![(Time(3), 11), (Time(3), 12), (Time(5), 10), (Time(7), 13)]);
    assert_eq!(system.next_event(), None);
}

#[test]
fn pop_due_leaves_later_events() {
    let mut system = root_and_planet();
    let first = system.schedule(Time(2), EventType::Misc(1)).unwrap();
    let second = system.schedule(Time(8), EventType::Misc(2)).unwrap();
    assert!(first.0 < second.0);
    assert_eq!(system.pop_due(Time(5)).map(|e| e.id), Some(first));
    assert!(system.pop_due(Time(5)).is_none());
    assert_eq!(system.next_event(), Some(Time(8)));
}

#[test]
fn small_body_descends_into_child_field() {
    let mut system = root_and_planet();
    let root = system.tree().root_id();
    let planet = LargeBodyId(BodyId(1));
    let ship = system
        .add_small_body(root, Mass(1), Length(2), Time(0), state(5100, 0, 3, 12))
        .unwrap();
    assert_eq!(system.tree().body_count(), 3);
    let fc = FieldChange { body: ship.0, from: root, to: planet };
    let dir = system
        .apply_field_change(Time(4), fc, state(5100, 20, 3, 12), state(5000, 0, 1, 10))
        .unwrap();
    assert_eq!(dir, Direction::ParentToChild);
    let tree = system.tree();
    assert_eq!(tree.body_count(), 3);
    assert!(tree.get_large_body(root).small.is_empty());
    assert_eq!(tree.get_large_body(planet).small, vec![ship]);
    assert_eq!(tree.parent(ship.0), Some(planet));
    let orbit = tree.get_small_body(ship).orbit;
    assert_eq!(orbit.primary_mass(), Mass(100));
    assert_eq!(orbit.epoch(), Time(4));
    assert_eq!(orbit.epoch_state(), state(100, 20, 2, 2));
    match tree.get_child(planet, ship.0) {
        Some(BodyRef::Small(b)) => assert_eq!(b.id, ship),
        _ => panic!("ship not found in the planet's field"),
    }
}

#[test]
fn small_body_ascends_out_of_child_field() {
    let mut system = root_and_planet();
    let root = system.tree().root_id();
    let planet = LargeBodyId(BodyId(1));
    let ship = system
        .add_small_body(planet, Mass(1), Length(2), Time(0), state(100, 0, 0, 1))
        .unwrap();
    let fc = FieldChange { body: ship.0, from: planet, to: root };
    let dir = system
        .apply_field_change(Time(9), fc, state(490, 0, 2, 0), state(5000, 7, 0, 10))
        .unwrap();
    assert_eq!(dir, Direction::ChildToParent);
    let tree = system.tree();
    assert_eq!(tree.parent(ship.0), Some(root));
    let orbit = tree.get_small_body(ship).orbit;
    assert_eq!(orbit.primary_mass(), Mass(1000));
    assert_eq!(orbit.epoch_state(), state(5490, 7, 2, 10));
}

#[test]
fn field_change_errors() {
    let mut system = root_and_planet();
    let root = system.tree().root_id();
    let planet = LargeBodyId(BodyId(1));
    let ship = system
        .add_small_body(root, Mass(1), Length(2), Time(0), state(10, 0, 0, 1))
        .unwrap();
    let zero = state(0, 0, 0, 0);
    let stale = FieldChange { body: ship.0, from: planet, to: root };
    assert!(!system.field_change_valid(stale));
    let missing = FieldChange { body: BodyId(40), from: root, to: planet };
    assert!(!system.field_change_valid(missing));
    let own = FieldChange { body: planet.0, from: root, to: planet };
    assert!(!system.field_change_valid(own));
    let far = state(i64::MIN, 0, 0, 0);
    let fc = FieldChange { body: ship.0, from: root, to: planet };
    assert!(system.field_change_valid(fc));
    assert_eq!(system.inner_field(fc), planet);
    assert_eq!(
        system.apply_field_change(Time(1), fc, zero, state(i64::MAX, 0, 0, 0)),
        Ok(Direction::ParentToChild)
    );
    let back = FieldChange { body: ship.0, from: planet, to: root };
    assert!(system.field_change_valid(back));
    assert_eq!(system.inner_field(back), planet);
    assert_eq!(
        system.apply_field_change(Time(2), back, far, state(-1, 0, 0, 0)),
        Err(FieldChangeError::OutOfRange)
    );
    assert_eq!(system.tree().parent(ship.0), Some(planet));
}

#[test]
fn collision_removes_and_mutates() {
    let mut system = root_and_planet();
    let root = system.tree().root_id();
    let planet = LargeBodyId(BodyId(1));
    let rock = system
        .add_small_body(root, Mass(3), Length(1), Time(0), state(4990, 0, 0, 9))
        .unwrap();
    let c = Collision { body1: planet.0, body2: rock.0 };
    let grow = BodyMutation {
        surface_radius: Some(Length(110)),
        grav_radius: None,
        mass: Some(Mass(103)),
        velocity: Some(Vector::new(-1, 11)),
    };
    let r = system.apply_collision(
        Time(6),
        c,
        CollisionResolution::Mutate(grow),
        CollisionResolution::Remove,
        state(5000, 60, 0, 10),
        state(4990, 60, 0, 9),
    );
    assert_eq!(r, Ok(()));
    let tree = system.tree();
    assert_eq!(tree.body_count(), 2);
    assert!(!tree.contains(rock.0));
    assert!(tree.get_large_body(root).small.is_empty());
    let body = tree.get_large_body(planet);
    assert_eq!(body.surface_radius, Length(110));
    assert_eq!(body.grav_radius, Length(500));
    assert_eq!(body.mass, Mass(103));
    let orbit = body.orbit.unwrap();
    assert_eq!(orbit.primary_mass(), Mass(1000));
    assert_eq!(orbit.epoch(), Time(6));
    assert_eq!(orbit.epoch_state(), state(5000, 60, -1, 11));
}

#[test]
fn collision_errors_leave_system_unchanged() {
    let mut system = root_and_planet();
    let root = system.tree().root_id();
    let planet = LargeBodyId(BodyId(1));
    let zero = state(0, 0, 0, 0);
    let keep = CollisionResolution::Mutate(BodyMutation::default());
    let same = Collision { body1: planet.0, body2: planet.0 };
    assert_eq!(
        system.apply_collision(Time(1), same, keep, keep, zero, zero),
        Err(CollisionError::Stale)
    );
    let c = Collision { body1: root.0, body2: planet.0 };
    assert_eq!(
        system.apply_collision(Time(1), c, CollisionResolution::Remove, keep, zero, zero),
        Err(CollisionError::Rejected)
    );
    let shrink = BodyMutation { grav_radius: Some(Length(50)), ..BodyMutation::default() };
    assert_eq!(
        system.apply_collision(Time(1), c, keep, CollisionResolution::Mutate(shrink), zero, zero),
        Err(CollisionError::Rejected)
    );
    assert_eq!(system.tree().body_count(), 2);
    assert_eq!(system.tree().get_large_body(planet).grav_radius, Length(500));
}
