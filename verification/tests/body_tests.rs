use physics::body::{
    bounding_boxes_overlap, get_collider, is_defeated_player, overlaps_existing_bodies,
    to_dynamic_rigid_body, to_rigid_body, to_static_rigid_body, Body, BodyClass, BodyKind,
    ColliderDesc, ColliderShape, RigidBodyDesc, Vec3, PLAYER_COLLIDER_RADIUS, SCALE,
};

fn zero() -> Vec3 {
    Vec3 { x: 0, y: 0, z: 0 }
}

fn cube(id: &str, x: i32, y: i32, z: i32, size: i32) -> Body {
    Body {
        id: id.to_string(),
        team_id: None,
        owner_id: None,
        translation: Vec3 { x, y, z },
        rotation: zero(),
        linvel: zero(),
        angvel: zero(),
        dimensions: Vec3 { x: size, y: size, z: size },
        mass: 0,
        class: BodyClass::Obstacle,
        hp: 0,
    }
}

fn sample(class: BodyClass, hp: i32) -> Body {
    Body {
        id: "sample".to_string(),
        team_id: Some("red".to_string()),
        owner_id: Some("owner".to_string()),
        translation: Vec3 { x: 1_000, y: -2_000, z: 3_000 },
        rotation: Vec3 { x: 100, y: 200, z: 1_571 },
        linvel: Vec3 { x: 10, y: 20, z: 30 },
        angvel: Vec3 { x: 1, y: 2, z: 3 },
        dimensions: Vec3 { x: 800, y: 600, z: 2_000 },
        mass: 70_000,
        class,
        hp,
    }
}

#[test]
fn scale_is_a_thousand() {
    assert_eq!(SCALE, 1_000);
    assert_eq!(PLAYER_COLLIDER_RADIUS, 525);
}

#[test]
fn boxes_that_share_space_overlap() {
    let a = cube("a", 0, 0, 0, 2_000);
    let b = cube("b", 1_000, 1_000, 1_000, 2_000);
    assert!(bounding_boxes_overlap(&a, &b));
    assert!(bounding_boxes_overlap(&b, &a));
}

#[test]
fn a_box_overlaps_itself() {
    let a = cube("a", 5_000, -3_000, 1_000, 2_000);
    assert!(bounding_boxes_overlap(&a, &a));
}

#[test]
fn boxes_that_only_touch_do_not_overlap() {
    let a = cube("a", 0, 0, 0, 2_000);
    let b = cube("b", 2_000, 0, 0, 2_000);
    assert!(!bounding_boxes_overlap(&a, &b));
    assert!(!bounding_boxes_overlap(&b, &a));
}

#[test]
fn boxes_apart_on_one_axis_do_not_overlap() {
    let a = cube("a", 0, 0, 0, 2_000);
    assert!(!bounding_boxes_overlap(&a, &cube("x", 2_001, 0, 0, 2_000)));
    assert!(!bounding_boxes_overlap(&a, &cube("y", 0, -2_001, 0, 2_000)));
    assert!(!bounding_boxes_overlap(&a, &cube("z", 0, 0, 2_001, 2_000)));
    assert!(bounding_boxes_overlap(&a, &cube("near", 1_999, -1_999, 1_999, 2_000)));
}

#[test]
fn odd_lengths_are_halved_exactly() {
    // 0 +- 0.0005 against 0.001 +- 0.0005: they touch at 0.0005.
    let a = cube("a", 0, 0, 0, 1);
    let b = cube("b", 1, 0, 0, 1);
    assert!(!bounding_boxes_overlap(&a, &b));
    let wider = cube("c", 1, 0, 0, 2);
    assert!(bounding_boxes_overlap(&a, &wider));
}

#[test]
fn extreme_values_do_not_wrap() {
    let a = cube("a", i32::MAX, i32::MAX, i32::MAX, i32::MAX);
    let b = cube("b", i32::MIN, i32::MIN, i32::MIN, i32::MAX);
    assert!(!bounding_boxes_overlap(&a, &b));
    assert!(bounding_boxes_overlap(&a, &a));
}

#[test]
fn overlap_with_any_of_the_existing_bodies() {
    let bodies = vec![cube("a", 0, 0, 0, 2_000), cube("b", 10_000, 0, 0, 2_000)];
    assert!(overlaps_existing_bodies(&cube("c", 9_500, 0, 0, 2_000), &bodies));
    assert!(overlaps_existing_bodies(&cube("c", 500, 500, 500, 2_000), &bodies));
    assert!(!overlaps_existing_bodies(&cube("c", 5_000, 0, 0, 2_000), &bodies));
    assert!(!overlaps_existing_bodies(&cube("c", 0, 0, 0, 2_000), &Vec::new()));
}

#[test]
fn a_player_gets_an_upright_capsule() {
    let collider = get_collider(&sample(BodyClass::Player, 3));
    assert_eq!(
        collider,
        ColliderDesc {
            shape: ColliderShape::Capsule { axis_length: 950, radius: 525 },
            collision_events: true,
        }
    );
}

#[test]
fn a_bullet_gets_a_ball_that_reports_contacts() {
    let collider = get_collider(&sample(BodyClass::Bullet, 0));
    assert_eq!(
        collider,
        ColliderDesc { shape: ColliderShape::Ball { diameter: 2_000 }, collision_events: true }
    );
}

#[test]
fn a_test_body_gets_a_silent_ball() {
    let collider = get_collider(&sample(BodyClass::Test, 0));
    assert_eq!(
        collider,
        ColliderDesc { shape: ColliderShape::Ball { diameter: 2_000 }, collision_events: false }
    );
}

#[test]
fn an_obstacle_gets_a_box() {
    let collider = get_collider(&sample(BodyClass::Obstacle, 0));
    assert_eq!(
        collider,
        ColliderDesc {
            shape: ColliderShape::Cuboid { size_x: 800, size_y: 600, size_z: 2_000 },
            collision_events: false,
        }
    );
}

#[test]
fn a_capsule_of_a_very_low_player_does_not_wrap() {
    let mut body = sample(BodyClass::Player, 3);
    body.dimensions.z = i32::MIN;
    let collider = get_collider(&body);
    assert_eq!(
        collider.shape,
        ColliderShape::Capsule { axis_length: i32::MIN as i64 - 1_050, radius: 525 }
    );
}

#[test]
fn moving_classes_get_dynamic_bodies() {
    for class in [BodyClass::Player, BodyClass::Bullet, BodyClass::Test] {
        let body = sample(class, 3);
        let rigid_body = to_rigid_body(&body);
        assert_eq!(
            rigid_body,
            RigidBodyDesc {
                kind: BodyKind::Dynamic,
                translation: Vec3 { x: 1_000, y: -2_000, z: 3_000 },
                rotation: Vec3 { x: 100, y: 200, z: 1_571 },
                rotations_locked: true,
                linvel: Vec3 { x: 10, y: 20, z: 30 },
                angvel: Vec3 { x: 1, y: 2, z: 3 },
                additional_mass: 70_000,
                sleeping: false,
                ccd_enabled: true,
            }
        );
        assert_eq!(rigid_body, to_dynamic_rigid_body(&body));
    }
}

#[test]
fn an_obstacle_gets_a_fixed_body() {
    let body = sample(BodyClass::Obstacle, 0);
    let rigid_body = to_rigid_body(&body);
    assert_eq!(
        rigid_body,
        RigidBodyDesc {
            kind: BodyKind::Fixed,
            translation: Vec3 { x: 1_000, y: -2_000, z: 3_000 },
            rotation: Vec3 { x: 0, y: 0, z: 1_571 },
            rotations_locked: true,
            linvel: zero(),
            angvel: zero(),
            additional_mass: 70_000,
            sleeping: false,
            ccd_enabled: false,
        }
    );
    assert_eq!(rigid_body, to_static_rigid_body(&body));
}

#[test]
fn only_a_player_without_hit_points_sleeps() {
    assert!(to_rigid_body(&sample(BodyClass::Player, 0)).sleeping);
    assert!(!to_rigid_body(&sample(BodyClass::Player, 1)).sleeping);
    assert!(!to_rigid_body(&sample(BodyClass::Bullet, 0)).sleeping);
    assert!(!to_rigid_body(&sample(BodyClass::Test, 0)).sleeping);
    assert!(!to_rigid_body(&sample(BodyClass::Obstacle, 0)).sleeping);
    assert!(is_defeated_player(&sample(BodyClass::Player, 0)));
    assert!(!is_defeated_player(&sample(BodyClass::Player, -1)));
    assert!(!is_defeated_player(&sample(BodyClass::Bullet, 0)));
}

#[test]
fn a_clone_has_the_same_fields() {
    let body = sample(BodyClass::Player, 3);
    let copy = body.clone();
    assert_eq!(copy.id, "sample");
    assert_eq!(copy.team_id, Some("red".to_string()));
    assert_eq!(copy.owner_id, Some("owner".to_string()));
    assert_eq!(copy.translation, body.translation);
    assert_eq!(copy.rotation, body.rotation);
    assert_eq!(copy.linvel, body.linvel);
    assert_eq!(copy.angvel, body.angvel);
    assert_eq!(copy.dimensions, body.dimensions);
    assert_eq!(copy.mass, 70_000);
    assert_eq!(copy.class, BodyClass::Player);
    assert_eq!(copy.hp, 3);
}
