use volv::body::{BodyId, LargeBodyId, LargeBodySchema};
use volv::math::{Length, Mass, Vector};
use volv::orbit::Eci;
use volv::system::System;

fn state(px: i64, py: i64, vx: i64, vy: i64) -> Eci {
    Eci::new(Vector::new(px, py), Vector::new(vx, vy))
}

#[test]
fn frame_conversion_round_trip() {
    let schema = LargeBodySchema {
        surface_radius: Length(10),
        grav_radius: Length(0),
        mass: Mass(1000),
        eci: None,
        children: vec![LargeBodySchema {
            surface_radius: Length(1),
            grav_radius: Length(50),
            mass: Mass(10),
            eci: Some(state(100, 0, 0, 3)),
            children: vec![],
        }],
    };
    let system = System::from_schema(&schema).unwrap();
    let moon = system.tree().get_large_body(LargeBodyId(BodyId(1)));
    let own = state(100, -4, 2, 3);
    let x = state(130, 6, -1, 9);
    let inside = moon.from_eci_in_parent(&own, &x);
    assert_eq!(inside, state(30, 10, -3, 6));
    assert_eq!(moon.to_eci_in_parent(&own, &inside), x);
}

#[test]
fn vector_arithmetic() {
    let a = Vector::new(7, -2);
    let b = Vector::new(-3, 5);
    assert_eq!(a.plus(b), Vector::new(4, 3));
    assert_eq!(a.minus(b), Vector::new(10, -7));
    assert_eq!(Vector::new(i64::MAX, 0).checked_plus(Vector::new(1, 0)), None);
    assert_eq!(Vector::new(i64::MIN, 0).checked_minus(Vector::new(1, 0)), None);
    assert_eq!(state(1, 2, 3, 4).checked_sub(&state(1, 1, 1, 1)), Some(state(0, 1, 2, 3)));
}
