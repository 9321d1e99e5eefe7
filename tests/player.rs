use witch_hunt::geometry::Planar;
use witch_hunt::player::{handle_player_movement, movement_vector, MouseLook, MoveKeys, PITCH_LIMIT};
use witch_hunt::settings::MOUSE_SENSITIVITY;

const EAST: Planar = Planar { x: 1000, z: 0 };

fn keys(forward: bool, back: bool, left: bool, right: bool) -> MoveKeys {
    MoveKeys { forward, back, left, right }
}

#[test]
fn no_keys_leave_velocity() {
    assert_eq!(handle_player_movement(keys(false, false, false, false), EAST), None);
}

#[test]
fn forward_and_back_cancel() {
    assert_eq!(movement_vector(keys(true, true, false, false), EAST), (0, 0));
    assert_eq!(handle_player_movement(keys(true, true, false, false), EAST), None);
    assert_eq!(handle_player_movement(keys(false, false, true, true), EAST), None);
}

#[test]
fn forward_walks_at_player_speed() {
    assert_eq!(handle_player_movement(keys(true, false, false, false), EAST), Some(Planar { x: 4000, z: 0 }));
    assert_eq!(handle_player_movement(keys(false, true, false, false), EAST), Some(Planar { x: -4000, z: 0 }));
}

#[test]
fn strafing_is_perpendicular() {
    assert_eq!(handle_player_movement(keys(false, false, false, true), EAST), Some(Planar { x: 0, z: 4000 }));
    assert_eq!(handle_player_movement(keys(false, false, true, false), EAST), Some(Planar { x: 0, z: -4000 }));
}

#[test]
fn diagonal_is_normalised() {
    assert_eq!(handle_player_movement(keys(true, false, false, true), EAST), Some(Planar { x: 2828, z: 2828 }));
    assert_eq!(movement_vector(keys(true, false, false, true), Planar { x: 600, z: 800 }), (-200, 1400));
}

#[test]
fn mouse_turns_and_clamps() {
    let mut look = MouseLook::new(MOUSE_SENSITIVITY);
    assert_eq!((look.yaw(), look.pitch()), (0, 0));
    look.update_from_mouse(10, 0);
    assert_eq!(look.yaw(), 30_000);
    look.update_from_mouse(-20, 100);
    assert_eq!(look.yaw(), -30_000);
    assert_eq!(look.pitch(), -300_000);
    look.update_from_mouse(0, -10_000);
    assert_eq!(look.pitch(), PITCH_LIMIT);
    look.update_from_mouse(0, 10_000);
    assert_eq!(look.pitch(), -PITCH_LIMIT);
}

#[test]
fn yaw_keeps_accumulating() {
    let mut look = MouseLook::new(MOUSE_SENSITIVITY);
    look.update_from_mouse(-1, 0);
    assert_eq!(look.yaw(), -3000);
    for _ in 0..10 {
        look.update_from_mouse(1000, 0);
    }
    assert_eq!(look.yaw(), 29_997_000);
}
