use physics::body::{get_collider, to_rigid_body, Body, BodyClass, Vec3};
use physics::game::{
    delete_body, find_handle, get_bodies_from_reports, get_body_from_handle, get_handle,
    get_handles, get_metadata_for_collider_handle, get_num_teams_alive, handle_contact,
    handle_player_bullet_collision, has_spare_handle, init, is_at_rest, is_on_floor, is_stale,
    is_won, jump_body, move_body, on_same_team, remove_stale_objects, rigid_body_to_body,
    rotate_body, step, take_commands, upsert_body, BodyMetadata, Game,
};
use physics::physics_world::{BodyHandle, BodyReport, BodyState, CollisionEvent, Command};

fn zero() -> Vec3 {
    Vec3 { x: 0, y: 0, z: 0 }
}

fn entity(id: &str, team: Option<&str>, class: BodyClass, hp: i32) -> Body {
    Body {
        id: id.to_string(),
        team_id: team.map(|t| t.to_string()),
        owner_id: None,
        translation: Vec3 { x: 1_000, y: 2_000, z: 3_000 },
        rotation: Vec3 { x: 0, y: 0, z: 250 },
        linvel: Vec3 { x: 4_000, y: 5_000, z: 6_000 },
        angvel: Vec3 { x: 7, y: 8, z: 9 },
        dimensions: Vec3 { x: 500, y: 500, z: 2_000 },
        mass: 80_000,
        class,
        hp,
    }
}

fn player(id: &str, team: &str, hp: i32) -> Body {
    entity(id, Some(team), BodyClass::Player, hp)
}

fn bullet(id: &str, team: &str) -> Body {
    entity(id, Some(team), BodyClass::Bullet, 0)
}

fn flying() -> BodyState {
    BodyState {
        translation: Vec3 { x: 0, y: 0, z: 10_000 },
        linvel: Vec3 { x: 20_000, y: 0, z: 0 },
        angvel: zero(),
        mass: 1_000,
    }
}

fn hp_of(game: &Game, id: &str) -> i32 {
    let handle = find_handle(&id.to_string(), game).unwrap();
    get_metadata_for_collider_handle(Some(handle), game).unwrap().1.hp
}

fn knows(game: &Game, id: &str) -> bool {
    find_handle(&id.to_string(), game).is_some()
}

fn started(a: BodyHandle, b: BodyHandle) -> CollisionEvent {
    CollisionEvent::Started(Some(a), Some(b))
}

#[test]
fn a_new_game_is_empty() {
    let mut game = init();
    assert!(get_handles(&game).is_empty());
    assert!(take_commands(&mut game).is_empty());
    assert!(has_spare_handle(&game));
    assert_eq!(get_num_teams_alive(&game), 0);
    assert!(!is_won(&game));
    assert_eq!(find_handle(&"nobody".to_string(), &game), None);
}

#[test]
fn upsert_of_an_unknown_name_creates_a_body() {
    let mut game = init();
    let body = player("player-1", "red", 3);
    assert!(upsert_body(&mut game, &body));
    let handle = get_handle(&"player-1".to_string(), &game);
    assert_eq!(handle, BodyHandle(0));
    assert_eq!(get_handles(&game), vec![handle]);
    assert_eq!(
        take_commands(&mut game),
        vec![Command::AddBody {
            handle,
            rigid_body: to_rigid_body(&body),
            collider: get_collider(&body),
        }]
    );
    assert!(take_commands(&mut game).is_empty());
}

#[test]
fn upsert_twice_keeps_one_body_and_one_entry() {
    let mut game = init();
    let body = player("player-1", "red", 3);
    assert!(upsert_body(&mut game, &body));
    let first = get_handle(&"player-1".to_string(), &game);
    assert!(!upsert_body(&mut game, &body));
    assert_eq!(get_handle(&"player-1".to_string(), &game), first);
    assert_eq!(get_handles(&game), vec![first]);
    let commands = take_commands(&mut game);
    assert_eq!(commands.len(), 2);
    assert!(matches!(commands[0], Command::AddBody { .. }));
    assert_eq!(
        commands[1],
        Command::SetBody {
            handle: first,
            translation: Vec3 { x: 1_000, y: 2_000, z: 3_000 },
            linvel: Vec3 { x: 4_000, y: 5_000, z: 6_000 },
            angvel: Vec3 { x: 7, y: 8, z: 9 },
            yaw: 250,
            sleeping: false,
        }
    );
}

#[test]
fn upsert_of_a_known_name_overwrites_its_metadata() {
    let mut game = init();
    upsert_body(&mut game, &player("player-1", "red", 3));
    let handle = get_handle(&"player-1".to_string(), &game);
    let mut changed = player("player-1", "blue", 0);
    changed.owner_id = Some("someone".to_string());
    changed.rotation = Vec3 { x: 1, y: 2, z: 3 };
    changed.dimensions = Vec3 { x: 10, y: 20, z: 30 };
    assert!(!upsert_body(&mut game, &changed));
    let (found, metadata) = get_metadata_for_collider_handle(Some(handle), &game).unwrap();
    assert_eq!(found, handle);
    assert_eq!(metadata.id, "player-1");
    assert_eq!(metadata.team_id, Some("blue".to_string()));
    assert_eq!(metadata.owner_id, Some("someone".to_string()));
    assert_eq!(metadata.class, BodyClass::Player);
    assert_eq!(metadata.rotation, Vec3 { x: 1, y: 2, z: 3 });
    assert_eq!(metadata.dimensions, Vec3 { x: 10, y: 20, z: 30 });
    assert_eq!(metadata.hp, 0);
    let commands = take_commands(&mut game);
    assert!(matches!(commands[1], Command::SetBody { sleeping: true, yaw: 3, .. }));
}

#[test]
fn each_new_name_gets_a_handle_of_its_own() {
    let mut game = init();
    upsert_body(&mut game, &player("player-1", "red", 3));
    upsert_body(&mut game, &player("player-2", "blue", 3));
    upsert_body(&mut game, &bullet("B1", "blue"));
    let handles = get_handles(&game);
    assert_eq!(handles.len(), 3);
    assert_eq!(get_handle(&"player-1".to_string(), &game), BodyHandle(0));
    assert_eq!(get_handle(&"player-2".to_string(), &game), BodyHandle(1));
    assert_eq!(get_handle(&"B1".to_string(), &game), BodyHandle(2));
}

#[test]
fn a_handle_is_not_given_out_again_after_its_body_is_gone() {
    let mut game = init();
    upsert_body(&mut game, &player("player-1", "red", 3));
    upsert_body(&mut game, &bullet("B1", "blue"));
    delete_body(bullet("B1", "blue"), &mut game);
    assert!(upsert_body(&mut game, &bullet("B1", "blue")));
    assert_eq!(get_handle(&"B1".to_string(), &game), BodyHandle(2));
}

#[test]
fn delete_removes_the_entry_and_asks_the_engine_to_drop_the_body() {
    let mut game = init();
    upsert_body(&mut game, &player("player-1", "red", 3));
    upsert_body(&mut game, &bullet("B1", "blue"));
    let gone = get_handle(&"B1".to_string(), &game);
    take_commands(&mut game);
    delete_body(bullet("B1", "green"), &mut game);
    assert!(!knows(&game, "B1"));
    assert!(knows(&game, "player-1"));
    assert_eq!(get_handles(&game), vec![BodyHandle(0)]);
    assert_eq!(take_commands(&mut game), vec![Command::RemoveBody { handle: gone }]);
    assert!(get_metadata_for_collider_handle(Some(gone), &game).is_none());
}

#[test]
fn delete_of_an_unknown_name_does_nothing() {
    let mut game = init();
    upsert_body(&mut game, &player("player-1", "red", 3));
    take_commands(&mut game);
    delete_body(bullet("B1", "blue"), &mut game);
    assert_eq!(get_handles(&game), vec![BodyHandle(0)]);
    assert!(take_commands(&mut game).is_empty());
}

#[test]
fn teams_are_the_same_only_when_both_are_named_alike() {
    let red = Some("red".to_string());
    let also_red = Some("red".to_string());
    let blue = Some("blue".to_string());
    assert!(on_same_team(&red, &also_red));
    assert!(!on_same_team(&red, &blue));
    assert!(!on_same_team(&red, &None));
    assert!(!on_same_team(&None, &blue));
    assert!(!on_same_team(&None, &None));
}

#[test]
fn a_hostile_bullet_takes_one_hit_point_and_is_removed() {
    let mut game = init();
    upsert_body(&mut game, &player("player-1", "red", 3));
    upsert_body(&mut game, &bullet("B1", "blue"));
    let player_1 = get_handle(&"player-1".to_string(), &game);
    let b1 = get_handle(&"B1".to_string(), &game);
    take_commands(&mut game);
    handle_contact(started(player_1, b1), &mut game);
    assert_eq!(hp_of(&game, "player-1"), 2);
    assert!(!knows(&game, "B1"));
    assert_eq!(take_commands(&mut game), vec![Command::RemoveBody { handle: b1 }]);
}

#[test]
fn the_order_of_the_two_sides_does_not_matter() {
    let mut game = init();
    upsert_body(&mut game, &player("player-1", "red", 3));
    upsert_body(&mut game, &bullet("B1", "blue"));
    let player_1 = get_handle(&"player-1".to_string(), &game);
    let b1 = get_handle(&"B1".to_string(), &game);
    handle_contact(started(b1, player_1), &mut game);
    assert_eq!(hp_of(&game, "player-1"), 2);
    assert!(!knows(&game, "B1"));
}

#[test]
fn a_bullet_of_the_own_team_does_no_harm() {
    let mut game = init();
    upsert_body(&mut game, &player("player-1", "red", 3));
    let mut own = bullet("B1", "red");
    own.owner_id = Some("red".to_string());
    upsert_body(&mut game, &own);
    let player_1 = get_handle(&"player-1".to_string(), &game);
    let b1 = get_handle(&"B1".to_string(), &game);
    take_commands(&mut game);
    handle_contact(started(player_1, b1), &mut game);
    handle_contact(started(b1, player_1), &mut game);
    assert_eq!(hp_of(&game, "player-1"), 3);
    assert!(knows(&game, "B1"));
    assert!(take_commands(&mut game).is_empty());
}

#[test]
fn a_bullet_of_the_own_team_can_still_go_stale() {
    let mut game = init();
    upsert_body(&mut game, &player("player-1", "red", 3));
    upsert_body(&mut game, &bullet("B1", "red"));
    let b1 = get_handle(&"B1".to_string(), &game);
    let at_rest = BodyState { linvel: zero(), ..flying() };
    assert!(remove_stale_objects(&mut game, &vec![BodyReport { handle: b1, state: Some(at_rest) }]));
    assert!(!knows(&game, "B1"));
    assert_eq!(hp_of(&game, "player-1"), 3);
}

#[test]
fn entities_without_a_team_are_on_nobodys_side() {
    let mut game = init();
    upsert_body(&mut game, &entity("player-1", None, BodyClass::Player, 3));
    upsert_body(&mut game, &entity("B1", None, BodyClass::Bullet, 0));
    let player_1 = get_handle(&"player-1".to_string(), &game);
    let b1 = get_handle(&"B1".to_string(), &game);
    handle_contact(started(player_1, b1), &mut game);
    assert_eq!(hp_of(&game, "player-1"), 2);
    assert!(!knows(&game, "B1"));
}

#[test]
fn hit_points_never_fall_below_zero() {
    let mut game = init();
    upsert_body(&mut game, &player("player-1", "red", 2));
    let player_1 = get_handle(&"player-1".to_string(), &game);
    for round in 0..5 {
        let name = format!("B{}", round);
        upsert_body(&mut game, &bullet(&name, "blue"));
        let b = get_handle(&name, &game);
        handle_contact(started(player_1, b), &mut game);
        assert!(hp_of(&game, "player-1") >= 0);
        assert!(!knows(&game, &name));
    }
    assert_eq!(hp_of(&game, "player-1"), 0);
    assert_eq!(get_handles(&game), vec![player_1]);
}

#[test]
fn a_player_without_hit_points_stays_in_the_table() {
    let mut game = init();
    upsert_body(&mut game, &player("player-1", "red", 1));
    upsert_body(&mut game, &bullet("B1", "blue"));
    let player_1 = get_handle(&"player-1".to_string(), &game);
    let b1 = get_handle(&"B1".to_string(), &game);
    handle_contact(started(player_1, b1), &mut game);
    assert_eq!(hp_of(&game, "player-1"), 0);
    assert!(knows(&game, "player-1"));
}

#[test]
fn a_hit_on_a_missing_player_changes_nothing() {
    let mut game = init();
    upsert_body(&mut game, &bullet("B1", "blue"));
    let b1 = get_handle(&"B1".to_string(), &game);
    take_commands(&mut game);
    handle_player_bullet_collision(BodyHandle(77), b1, &mut game);
    assert!(knows(&game, "B1"));
    assert!(take_commands(&mut game).is_empty());
}

#[test]
fn a_hit_by_a_missing_bullet_still_costs_a_hit_point() {
    let mut game = init();
    upsert_body(&mut game, &player("player-1", "red", 3));
    let player_1 = get_handle(&"player-1".to_string(), &game);
    take_commands(&mut game);
    handle_player_bullet_collision(player_1, BodyHandle(77), &mut game);
    assert_eq!(hp_of(&game, "player-1"), 2);
    assert_eq!(take_commands(&mut game), vec![Command::RemoveBody { handle: BodyHandle(77) }]);
}

#[test]
fn the_same_contact_reported_twice_counts_once() {
    let mut game = init();
    upsert_body(&mut game, &player("player-1", "red", 3));
    upsert_body(&mut game, &bullet("B1", "blue"));
    let player_1 = get_handle(&"player-1".to_string(), &game);
    let b1 = get_handle(&"B1".to_string(), &game);
    handle_contact(started(player_1, b1), &mut game);
    handle_contact(started(player_1, b1), &mut game);
    handle_contact(started(b1, player_1), &mut game);
    assert_eq!(hp_of(&game, "player-1"), 2);
}

#[test]
fn events_that_are_no_hostile_hit_are_ignored() {
    let mut game = init();
    upsert_body(&mut game, &player("player-1", "red", 3));
    upsert_body(&mut game, &player("player-2", "blue", 3));
    upsert_body(&mut game, &bullet("B1", "blue"));
    upsert_body(&mut game, &bullet("B2", "red"));
    upsert_body(&mut game, &entity("O1", None, BodyClass::Obstacle, 0));
    upsert_body(&mut game, &entity("T1", Some("green"), BodyClass::Test, 0));
    let player_1 = get_handle(&"player-1".to_string(), &game);
    let player_2 = get_handle(&"player-2".to_string(), &game);
    let b1 = get_handle(&"B1".to_string(), &game);
    let b2 = get_handle(&"B2".to_string(), &game);
    let o1 = get_handle(&"O1".to_string(), &game);
    let t1 = get_handle(&"T1".to_string(), &game);
    take_commands(&mut game);

    handle_contact(CollisionEvent::Stopped(Some(player_1), Some(b1)), &mut game);
    handle_contact(CollisionEvent::Started(Some(player_1), None), &mut game);
    handle_contact(CollisionEvent::Started(None, Some(b1)), &mut game);
    handle_contact(CollisionEvent::Started(None, None), &mut game);
    handle_contact(started(player_1, BodyHandle(99)), &mut game);
    handle_contact(started(BodyHandle(99), b1), &mut game);
    handle_contact(started(player_1, player_2), &mut game);
    handle_contact(started(b1, b2), &mut game);
    handle_contact(started(b1, o1), &mut game);
    handle_contact(started(o1, player_1), &mut game);
    handle_contact(started(t1, player_1), &mut game);
    handle_contact(started(t1, b1), &mut game);
    handle_contact(started(player_1, player_1), &mut game);
    handle_contact(started(b1, b1), &mut game);

    assert_eq!(hp_of(&game, "player-1"), 3);
    assert_eq!(hp_of(&game, "player-2"), 3);
    assert_eq!(get_handles(&game).len(), 6);
    assert!(take_commands(&mut game).is_empty());
}

#[test]
fn metadata_is_found_only_for_bodies_in_the_table() {
    let mut game = init();
    upsert_body(&mut game, &player("player-1", "red", 3));
    let player_1 = get_handle(&"player-1".to_string(), &game);
    assert!(get_metadata_for_collider_handle(None, &game).is_none());
    assert!(get_metadata_for_collider_handle(Some(BodyHandle(5)), &game).is_none());
    let (handle, metadata) = get_metadata_for_collider_handle(Some(player_1), &game).unwrap();
    assert_eq!(handle, player_1);
    assert_eq!(metadata.id, "player-1");
    assert_eq!(metadata.hp, 3);
}

#[test]
fn report_and_metadata_make_the_entity() {
    let metadata = BodyMetadata {
        id: "B1".to_string(),
        team_id: Some("blue".to_string()),
        owner_id: Some("player-2".to_string()),
        class: BodyClass::Bullet,
        rotation: Vec3 { x: 1, y: 2, z: 3 },
        dimensions: Vec3 { x: 200, y: 200, z: 200 },
        hp: 7,
    };
    let state = BodyState {
        translation: Vec3 { x: 10, y: 20, z: 30 },
        linvel: Vec3 { x: 40, y: 50, z: 60 },
        angvel: Vec3 { x: 70, y: 80, z: 90 },
        mass: 1_234,
    };
    let body = rigid_body_to_body(&state, &metadata);
    assert_eq!(body.id, "B1");
    assert_eq!(body.team_id, Some("blue".to_string()));
    assert_eq!(body.owner_id, Some("player-2".to_string()));
    assert_eq!(body.translation, Vec3 { x: 10, y: 20, z: 30 });
    assert_eq!(body.rotation, Vec3 { x: 1, y: 2, z: 3 });
    assert_eq!(body.linvel, Vec3 { x: 40, y: 50, z: 60 });
    assert_eq!(body.angvel, Vec3 { x: 70, y: 80, z: 90 });
    assert_eq!(body.dimensions, Vec3 { x: 200, y: 200, z: 200 });
    assert_eq!(body.mass, 1_234);
    assert_eq!(body.class, BodyClass::Bullet);
    assert_eq!(body.hp, 7);
}

#[test]
fn an_entity_needs_both_its_halves() {
    let mut game = init();
    upsert_body(&mut game, &player("player-1", "red", 3));
    let player_1 = get_handle(&"player-1".to_string(), &game);
    assert!(get_body_from_handle(&game, &player_1, None).is_none());
    assert!(get_body_from_handle(&game, &BodyHandle(9), Some(flying())).is_none());
    assert!(get_body_from_handle(&game, &BodyHandle(9), None).is_none());
    let body = get_body_from_handle(&game, &player_1, Some(flying())).unwrap();
    assert_eq!(body.id, "player-1");
    assert_eq!(body.translation, flying().translation);
    assert_eq!(body.linvel, flying().linvel);
    assert_eq!(body.mass, 1_000);
    assert_eq!(body.rotation, Vec3 { x: 0, y: 0, z: 250 });
    assert_eq!(body.dimensions, Vec3 { x: 500, y: 500, z: 2_000 });
    assert_eq!(body.hp, 3);
}

#[test]
fn a_removed_entity_is_left_out_of_the_output() {
    let mut game = init();
    upsert_body(&mut game, &player("player-1", "red", 3));
    upsert_body(&mut game, &bullet("B1", "blue"));
    let player_1 = get_handle(&"player-1".to_string(), &game);
    let b1 = get_handle(&"B1".to_string(), &game);
    handle_contact(started(player_1, b1), &mut game);
    let reports = vec![
        BodyReport { handle: b1, state: Some(flying()) },
        BodyReport { handle: player_1, state: Some(flying()) },
        BodyReport { handle: player_1, state: None },
        BodyReport { handle: BodyHandle(42), state: Some(flying()) },
    ];
    let bodies = get_bodies_from_reports(&game, &reports);
    assert_eq!(bodies.len(), 1);
    assert_eq!(bodies[0].id, "player-1");
    assert_eq!(bodies[0].hp, 2);
}

#[test]
fn a_bullet_at_half_its_height_is_on_the_floor_whatever_its_speed() {
    let mut body = bullet("B1", "blue");
    body.dimensions.z = 200;
    body.translation.z = 100;
    body.linvel = Vec3 { x: 90_000, y: -90_000, z: 90_000 };
    assert!(is_on_floor(&body));
    assert!(!is_at_rest(&body));
    assert!(is_stale(&body));
    body.translation.z = 101;
    assert!(!is_on_floor(&body));
    assert!(!is_stale(&body));
    body.translation.z = -5_000;
    assert!(is_on_floor(&body));
    body.dimensions.z = 201;
    body.translation.z = 100;
    assert!(is_on_floor(&body));
    body.translation.z = 101;
    assert!(!is_on_floor(&body));
}

#[test]
fn a_slow_bullet_is_at_rest_wherever_it_is() {
    let mut body = bullet("B1", "blue");
    body.translation = Vec3 { x: 123_456, y: -654_321, z: 900_000 };
    for speed in [-490, -1, 0, 1, 490, 499, -499] {
        body.linvel = Vec3 { x: speed, y: -speed, z: speed };
        assert!(is_at_rest(&body));
        assert!(!is_on_floor(&body));
        assert!(is_stale(&body));
    }
}

#[test]
fn half_a_unit_of_speed_rounds_away_from_zero() {
    let mut body = bullet("B1", "blue");
    body.translation.z = 50_000;
    for speed in [500, -500, 501, 1_000, i32::MAX, i32::MIN] {
        body.linvel = Vec3 { x: speed, y: 0, z: 0 };
        assert!(!is_at_rest(&body));
        body.linvel = Vec3 { x: 0, y: speed, z: 0 };
        assert!(!is_at_rest(&body));
        body.linvel = Vec3 { x: 0, y: 0, z: speed };
        assert!(!is_at_rest(&body));
        assert!(!is_stale(&body));
    }
}

#[test]
fn only_bullets_go_stale() {
    for class in [BodyClass::Player, BodyClass::Obstacle, BodyClass::Test] {
        let mut body = entity("E", Some("red"), class, 1);
        body.linvel = zero();
        body.translation.z = 0;
        assert!(is_at_rest(&body));
        assert!(is_on_floor(&body));
        assert!(!is_stale(&body));
    }
}

#[test]
fn stale_bullets_among_the_reported_bodies_are_removed() {
    let mut game = init();
    upsert_body(&mut game, &player("player-1", "red", 3));
    upsert_body(&mut game, &bullet("B1", "blue"));
    upsert_body(&mut game, &bullet("B2", "blue"));
    upsert_body(&mut game, &bullet("B3", "blue"));
    let player_1 = get_handle(&"player-1".to_string(), &game);
    let b1 = get_handle(&"B1".to_string(), &game);
    let b2 = get_handle(&"B2".to_string(), &game);
    let b3 = get_handle(&"B3".to_string(), &game);
    take_commands(&mut game);
    let resting = BodyState { linvel: zero(), ..flying() };
    let grounded = BodyState { translation: Vec3 { x: 0, y: 0, z: 1_000 }, ..flying() };
    let reports = vec![
        BodyReport { handle: player_1, state: Some(resting) },
        BodyReport { handle: b1, state: Some(flying()) },
        BodyReport { handle: b2, state: Some(resting) },
        BodyReport { handle: b3, state: Some(grounded) },
        BodyReport { handle: b2, state: Some(resting) },
        BodyReport { handle: BodyHandle(50), state: Some(resting) },
    ];
    assert!(remove_stale_objects(&mut game, &reports));
    assert!(knows(&game, "player-1"));
    assert!(knows(&game, "B1"));
    assert!(!knows(&game, "B2"));
    assert!(!knows(&game, "B3"));
    assert_eq!(
        take_commands(&mut game),
        vec![Command::RemoveBody { handle: b2 }, Command::RemoveBody { handle: b3 }]
    );
}

#[test]
fn nothing_is_removed_where_nothing_is_stale() {
    let mut game = init();
    upsert_body(&mut game, &bullet("B1", "blue"));
    let b1 = get_handle(&"B1".to_string(), &game);
    take_commands(&mut game);
    let reports =
        vec![BodyReport { handle: b1, state: Some(flying()) }, BodyReport { handle: b1, state: None }];
    assert!(!remove_stale_objects(&mut game, &reports));
    assert!(!remove_stale_objects(&mut game, &Vec::new()));
    assert!(knows(&game, "B1"));
    assert!(take_commands(&mut game).is_empty());
}

#[test]
fn a_bullet_left_alone_by_the_engine_is_left_alone() {
    let mut game = init();
    let mut settled = bullet("B1", "blue");
    settled.linvel = zero();
    settled.translation.z = 0;
    upsert_body(&mut game, &settled);
    assert!(!remove_stale_objects(&mut game, &Vec::new()));
    assert!(knows(&game, "B1"));
}

#[test]
fn one_team_alive_wins() {
    let mut game = init();
    upsert_body(&mut game, &player("player-1", "red", 3));
    upsert_body(&mut game, &player("player-2", "blue", 3));
    upsert_body(&mut game, &player("player-3", "green", 3));
    assert_eq!(get_num_teams_alive(&game), 3);
    assert!(!is_won(&game));

    upsert_body(&mut game, &player("player-1", "red", 0));
    assert_eq!(get_num_teams_alive(&game), 2);
    assert!(!is_won(&game));

    upsert_body(&mut game, &player("player-2", "blue", 0));
    assert_eq!(get_num_teams_alive(&game), 1);
    assert!(is_won(&game));

    upsert_body(&mut game, &player("player-3", "green", 0));
    assert_eq!(get_num_teams_alive(&game), 0);
    assert!(!is_won(&game));
}

#[test]
fn team_mates_count_as_one_team() {
    let mut game = init();
    upsert_body(&mut game, &player("player-1", "red", 3));
    upsert_body(&mut game, &player("player-2", "red", 1));
    upsert_body(&mut game, &player("player-3", "red", 0));
    assert_eq!(get_num_teams_alive(&game), 1);
    assert!(is_won(&game));
    upsert_body(&mut game, &player("player-4", "blue", 1));
    upsert_body(&mut game, &player("player-5", "blue", 2));
    assert_eq!(get_num_teams_alive(&game), 2);
    assert!(!is_won(&game));
}

#[test]
fn entities_without_team_or_hit_points_count_for_nothing() {
    let mut game = init();
    upsert_body(&mut game, &entity("O1", None, BodyClass::Obstacle, 9));
    upsert_body(&mut game, &entity("player-0", None, BodyClass::Player, 3));
    upsert_body(&mut game, &bullet("B1", "blue"));
    assert_eq!(get_num_teams_alive(&game), 0);
    assert!(!is_won(&game));
    upsert_body(&mut game, &player("player-1", "red", 1));
    assert_eq!(get_num_teams_alive(&game), 1);
    assert!(is_won(&game));
}

#[test]
fn a_step_resolves_contacts_and_then_sweeps() {
    let mut game = init();
    upsert_body(&mut game, &player("player-1", "red", 3));
    upsert_body(&mut game, &bullet("B1", "blue"));
    upsert_body(&mut game, &bullet("B2", "blue"));
    upsert_body(&mut game, &bullet("B3", "blue"));
    let player_1 = get_handle(&"player-1".to_string(), &game);
    let b1 = get_handle(&"B1".to_string(), &game);
    let b2 = get_handle(&"B2".to_string(), &game);
    let b3 = get_handle(&"B3".to_string(), &game);
    take_commands(&mut game);
    let resting = BodyState { linvel: zero(), ..flying() };
    let events = vec![
        started(player_1, b1),
        CollisionEvent::Stopped(Some(player_1), Some(b2)),
        started(b1, player_1),
    ];
    let active = vec![
        BodyReport { handle: player_1, state: Some(flying()) },
        BodyReport { handle: b1, state: Some(flying()) },
        BodyReport { handle: b2, state: Some(resting) },
        BodyReport { handle: b3, state: Some(flying()) },
    ];
    let touched = step(&mut game, &events, &active);
    assert_eq!(touched, vec![player_1, b3]);
    assert_eq!(hp_of(&game, "player-1"), 2);
    assert_eq!(
        take_commands(&mut game),
        vec![Command::RemoveBody { handle: b1 }, Command::RemoveBody { handle: b2 }]
    );
    assert_eq!(get_handles(&game), vec![player_1, b3]);
}

#[test]
fn a_quiet_step_changes_nothing() {
    let mut game = init();
    upsert_body(&mut game, &player("player-1", "red", 3));
    take_commands(&mut game);
    let touched = step(&mut game, &Vec::new(), &Vec::new());
    assert!(touched.is_empty());
    assert!(take_commands(&mut game).is_empty());
    assert_eq!(hp_of(&game, "player-1"), 3);
}

#[test]
fn moving_turning_and_jumping_are_asked_of_the_engine() {
    let mut game = init();
    upsert_body(&mut game, &player("player-1", "red", 3));
    upsert_body(&mut game, &player("player-2", "blue", 3));
    let player_2 = get_handle(&"player-2".to_string(), &game);
    take_commands(&mut game);
    move_body(&mut game, &"player-2".to_string(), 1_500, -2_500);
    rotate_body(&mut game, &"player-2".to_string(), 3_142);
    jump_body(&mut game, &"player-2".to_string(), 9_000);
    assert_eq!(
        take_commands(&mut game),
        vec![
            Command::MoveBody { handle: player_2, x: 1_500, y: -2_500 },
            Command::RotateBody { handle: player_2, yaw: 3_142 },
            Command::JumpBody { handle: player_2, linvel_z: 9_000 },
        ]
    );
    assert_eq!(get_handles(&game).len(), 2);
}

#[test]
fn metadata_can_be_copied() {
    let mut game = init();
    upsert_body(&mut game, &player("player-1", "red", 3));
    let player_1 = get_handle(&"player-1".to_string(), &game);
    let (_, metadata) = get_metadata_for_collider_handle(Some(player_1), &game).unwrap();
    let copy = metadata.clone();
    assert_eq!(copy.id, metadata.id);
    assert_eq!(copy.team_id, metadata.team_id);
    assert_eq!(copy.owner_id, metadata.owner_id);
    assert_eq!(copy.class, metadata.class);
    assert_eq!(copy.rotation, metadata.rotation);
    assert_eq!(copy.dimensions, metadata.dimensions);
    assert_eq!(copy.hp, metadata.hp);
}
