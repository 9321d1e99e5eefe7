use witch_hunt::ai::{
    can_see_player, generate_patrol_point, next_state, patrol_point, step_witch, update_witch, update_witch_ai,
    Sighting, WitchAction, CHASE_SPEED, PATROL_HALF_EXTENT, PATROL_SPEED,
};
use witch_hunt::components::{ColliderKey, Witch, WitchState};
use witch_hunt::geometry::Vec3;
use witch_hunt::registry::ColliderOwners;

const PLAYER: u64 = 7;
const TREE: u64 = 9;

fn key(index: u32) -> ColliderKey {
    ColliderKey { index, generation: 0 }
}

fn v(x: i32, y: i32, z: i32) -> Vec3 {
    Vec3 { x, y, z }
}

fn witch(state: WitchState, target: Vec3) -> Witch {
    Witch { collider_handle: key(3), state, target }
}

fn in_region(p: Vec3) -> bool {
    p.y == 0
        && -PATROL_HALF_EXTENT <= p.x
        && p.x <= PATROL_HALF_EXTENT
        && -PATROL_HALF_EXTENT <= p.z
        && p.z <= PATROL_HALF_EXTENT
}

fn owners() -> ColliderOwners {
    let mut o = ColliderOwners::new();
    o.insert(key(1), PLAYER);
    o.insert(key(2), TREE);
    o
}

#[test]
fn transition_table_is_exhaustive() {
    assert_eq!(next_state(WitchState::Patrolling, true), (WitchState::Chasing, false));
    assert_eq!(next_state(WitchState::Chasing, false), (WitchState::Patrolling, true));
    assert_eq!(next_state(WitchState::Chasing, true), (WitchState::Chasing, false));
    assert_eq!(next_state(WitchState::Patrolling, false), (WitchState::Patrolling, false));
}

#[test]
fn clear_ray_sees_player() {
    assert!(can_see_player(None, &owners(), PLAYER));
}

#[test]
fn ray_hitting_player_sees_player() {
    assert!(can_see_player(Some(key(1)), &owners(), PLAYER));
}

#[test]
fn blocking_body_hides_player() {
    assert!(!can_see_player(Some(key(2)), &owners(), PLAYER));
    // The blocker taken away leaves the ray clear.
    assert!(can_see_player(None, &owners(), PLAYER));
}

#[test]
fn unknown_collider_hides_player() {
    assert!(!can_see_player(Some(key(40)), &owners(), PLAYER));
}

#[test]
fn chasing_witch_next_to_player_catches() {
    let mut w = witch(WitchState::Chasing, v(0, 0, 0));
    let a = step_witch(&mut w, v(0, 0, 0), v(500, 0, 0), true, v(1, 0, 1), v(2, 0, 2));
    assert_eq!(a, WitchAction { velocity: None, caught: true });
    assert_eq!(w.state, WitchState::Chasing);
}

#[test]
fn catch_at_exactly_one_unit() {
    let mut w = witch(WitchState::Chasing, v(0, 0, 0));
    let a = step_witch(&mut w, v(0, 0, 0), v(0, 0, 1000), true, v(1, 0, 1), v(2, 0, 2));
    assert!(a.caught);
}

#[test]
fn patrolling_witch_that_spots_player_chases_and_catches() {
    let mut w = witch(WitchState::Patrolling, v(9000, 0, 9000));
    let a = step_witch(&mut w, v(0, 0, 0), v(300, 0, 400), true, v(1, 0, 1), v(2, 0, 2));
    assert!(a.caught);
    assert_eq!(w.state, WitchState::Chasing);
}

#[test]
fn witch_that_cannot_see_does_not_catch() {
    let mut w = witch(WitchState::Chasing, v(0, 0, 0));
    let a = step_witch(&mut w, v(0, 0, 0), v(500, 0, 0), false, v(6000, 0, 8000), v(2, 0, 2));
    assert!(!a.caught);
    assert_eq!(w.state, WitchState::Patrolling);
    assert_eq!(w.target, v(6000, 0, 8000));
    assert_eq!(a.velocity, Some(v(3000, 0, 4000)));
}

#[test]
fn chasing_witch_walks_toward_player_at_chase_speed() {
    let mut w = witch(WitchState::Chasing, v(0, 0, 0));
    let a = step_witch(&mut w, v(0, 0, 0), v(0, 0, 10000), true, v(1, 0, 1), v(2, 0, 2));
    assert_eq!(a.velocity, Some(v(0, 0, CHASE_SPEED as i32)));
    assert!(!a.caught);
}

#[test]
fn patrolling_witch_walks_toward_target_at_patrol_speed() {
    let mut w = witch(WitchState::Patrolling, v(-6000, 0, -8000));
    let a = step_witch(&mut w, v(0, 0, 0), v(50000, 0, 0), false, v(1, 0, 1), v(2, 0, 2));
    assert_eq!(a.velocity, Some(v(-3000, 0, -4000)));
    assert_eq!(PATROL_SPEED, 5000);
    assert_eq!(w.target, v(-6000, 0, -8000));
}

#[test]
fn patrolling_witch_at_target_picks_new_one() {
    let mut w = witch(WitchState::Patrolling, v(100, 0, 100));
    let a = step_witch(&mut w, v(0, 0, 0), v(50000, 0, 0), false, v(1, 0, 1), v(2, 0, 2));
    assert_eq!(a, WitchAction { velocity: None, caught: false });
    assert_eq!(w.target, v(2, 0, 2));
}

#[test]
fn patrol_points_stay_in_region() {
    for _ in 0..500 {
        assert!(in_region(generate_patrol_point()));
    }
}

#[test]
fn losing_sight_draws_patrol_point() {
    let mut w = witch(WitchState::Chasing, v(0, 0, 0));
    let a = update_witch(&mut w, v(0, 0, 0), v(30000, 0, 0), false);
    assert_eq!(w.state, WitchState::Patrolling);
    assert!(in_region(w.target));
    assert!(!a.caught);
}

#[test]
fn frame_reports_each_catch() {
    let mut witches = vec![
        witch(WitchState::Patrolling, v(9000, 0, 9000)),
        witch(WitchState::Chasing, v(0, 0, 0)),
        witch(WitchState::Chasing, v(0, 0, 0)),
    ];
    let sightings = vec![
        Sighting { position: v(-9000, 0, -9000), hit: Some(key(2)) },
        Sighting { position: v(200, 0, 0), hit: None },
        Sighting { position: v(0, 0, 300), hit: Some(key(1)) },
    ];
    let frame = update_witch_ai(&mut witches, &sightings, &owners(), PLAYER, v(0, 0, 0));
    assert!(frame.game_over);
    assert_eq!(frame.actions.len(), 3);
    assert!(!frame.actions[0].caught);
    assert!(frame.actions[1].caught);
    assert!(frame.actions[2].caught);
    assert_eq!(witches[0].state, WitchState::Patrolling);
}

#[test]
fn frame_without_catch() {
    let mut witches = vec![witch(WitchState::Chasing, v(0, 0, 0))];
    let sightings = vec![Sighting { position: v(4000, 0, 0), hit: None }];
    let frame = update_witch_ai(&mut witches, &sightings, &owners(), PLAYER, v(0, 0, 0));
    assert!(!frame.game_over);
    assert_eq!(frame.actions[0].velocity, Some(v(-3000, 0, 0)));
}

#[test]
fn patrol_point_from_offsets() {
    assert_eq!(patrol_point(0, 0), v(-10000, 0, -10000));
    assert_eq!(patrol_point(20000, 10000), v(10000, 0, 0));
    assert_eq!(patrol_point(12345, 678), v(2345, 0, -9322));
}
