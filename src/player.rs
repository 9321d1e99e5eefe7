//! Steering of the player's body from held keys and the look direction.
use crate::geometry::{
    Planar, floor_sqrt, isqrt, lemma_component_within_length, lemma_floor_sqrt_bounds,
    lemma_square_monotone, scale, scale_component,
};
use vstd::prelude::*;

verus! {

/// Walking speed of the player, in milli-units per second.
pub const PLAYER_SPEED: u32 = 4000;

/// Largest look angle above or below the horizon, in microradians: just
/// under a quarter turn, so the view never flips over.
pub const PITCH_LIMIT: i64 = 1_560_796;

/// The direction keys held this frame.
#[derive(Clone, Copy, Debug, PartialEq, Eq, Structural)]
pub struct MoveKeys {
    pub forward: bool,
    pub back: bool,
    pub left: bool,
    pub right: bool,
}

/// `1` when only `plus` is held, `-1` when only `minus` is, `0` otherwise.
pub open spec fn axis(plus: bool, minus: bool) -> int {
    (if plus { 1int } else { 0int }) - (if minus { 1int } else { 0int })
}

/// The sum of the held directions: `facing` for forward, its opposite for
/// back, and the horizontal perpendicular `(-facing.z, facing.x)` for right.
pub open spec fn movement(keys: MoveKeys, facing: Planar) -> (int, int) {
    let f = axis(keys.forward, keys.back);
    let r = axis(keys.right, keys.left);
    (f * facing.x - r * facing.z, f * facing.z + r * facing.x)
}

/// The horizontal velocity the player's body is given, or `None` when the
/// held keys cancel out and its velocity is left as it is.
pub open spec fn walk_velocity(keys: MoveKeys, facing: Planar) -> Option<Planar> {
    let (mx, mz) = movement(keys, facing);
    if mx == 0 && mz == 0 {
        None
    } else {
        let len = floor_sqrt((mx * mx + mz * mz) as nat) as int;
        Some(Planar { x: scale(mx, PLAYER_SPEED as int, len) as i32, z: scale(mz, PLAYER_SPEED as int, len) as i32 })
    }
}

fn key_axis(plus: bool, minus: bool) -> (r: i64)
    ensures
        r == axis(plus, minus),
{
    let p: i64 = if plus { 1 } else { 0 };
    let m: i64 = if minus { 1 } else { 0 };
    p - m
}

/// The sum of the held directions for a player facing `facing`.
pub fn movement_vector(keys: MoveKeys, facing: Planar) -> (r: (i64, i64))
    ensures
        (r.0 as int, r.1 as int) == movement(keys, facing),
        -0x1_0000_0000 <= r.0 <= 0x1_0000_0000,
        -0x1_0000_0000 <= r.1 <= 0x1_0000_0000,
{
    let f = key_axis(keys.forward, keys.back);
    let r = key_axis(keys.right, keys.left);
    let fx = facing.x as i64;
    let fz = facing.z as i64;
    assert(-0x8000_0000 <= f * fx <= 0x8000_0000 && -0x8000_0000 <= r * fz <= 0x8000_0000
        && -0x8000_0000 <= f * fz <= 0x8000_0000 && -0x8000_0000 <= r * fx <= 0x8000_0000) by (nonlinear_arith)
        requires
            -1 <= f <= 1,
            -1 <= r <= 1,
            -0x8000_0000 <= fx < 0x8000_0000,
            -0x8000_0000 <= fz < 0x8000_0000,
    ;
    (f * fx - r * fz, f * fz + r * fx)
}

/// The horizontal velocity for the held keys: the sum of the held
/// directions rescaled to the walking speed, or `None` (velocity left as it
/// is, vertical velocity always untouched) when that sum is zero.
pub fn handle_player_movement(keys: MoveKeys, facing: Planar) -> (r: Option<Planar>)
    ensures
        r == walk_velocity(keys, facing),
{
    let (mx, mz) = movement_vector(keys, facing);
    if mx == 0 && mz == 0 {
        return None;
    }
    let ax = mx as i128;
    let az = mz as i128;
    assert(0 <= ax * ax <= 0x1_0000_0000_0000_0000 && 0 <= az * az <= 0x1_0000_0000_0000_0000) by (nonlinear_arith)
        requires
            -0x1_0000_0000 <= ax <= 0x1_0000_0000,
            -0x1_0000_0000 <= az <= 0x1_0000_0000,
    ;
    let d2 = (ax * ax + az * az) as u128;
    let len = isqrt(d2);
    proof {
        let l = len as nat;
        lemma_floor_sqrt_bounds(d2 as nat);
        lemma_component_within_length(mx as int, l);
        lemma_component_within_length(mz as int, l);
        if l == 0 {
            assert(d2 < 1) by (nonlinear_arith)
                requires
                    d2 < (l + 1) * (l + 1),
                    l == 0,
            ;
            assert(ax * ax > 0 || az * az > 0) by (nonlinear_arith)
                requires
                    ax != 0 || az != 0,
            ;
        }
        if l > 0x4_0000_0000 {
            lemma_square_monotone(0x4_0000_0000, l);
        }
    }
    Some(Planar { x: scale_component(mx, PLAYER_SPEED, len), z: scale_component(mz, PLAYER_SPEED, len) })
}

/// With no key held the player's velocity is left as it is.
pub proof fn lemma_no_keys_keep_velocity(facing: Planar)
    ensures
        walk_velocity(MoveKeys { forward: false, back: false, left: false, right: false }, facing) is None,
{
}

/// Forward and back held together cancel out, as do left and right: the
/// movement is the one of the other keys alone.
pub proof fn lemma_opposing_keys_cancel(keys: MoveKeys, facing: Planar)
    ensures
        keys.forward && keys.back ==> movement(keys, facing) == movement(
            MoveKeys { forward: false, back: false, ..keys },
            facing,
        ),
        keys.left && keys.right ==> movement(keys, facing) == movement(
            MoveKeys { left: false, right: false, ..keys },
            facing,
        ),
        keys.forward && keys.back && !keys.left && !keys.right ==> movement(keys, facing) == (0int, 0int)
            && walk_velocity(keys, facing) is None,
{
}

/// The look direction, steered by the pointer.
pub struct MouseLook {
    /// Heading around the vertical axis, in microradians.
    pub yaw: i64,
    /// Angle above the horizon, in microradians, within `PITCH_LIMIT`.
    pub pitch: i64,
    /// Microradians turned per pixel of pointer motion.
    pub mouse_sensitivity: i32,
}

/// `v` limited to `[-PITCH_LIMIT, PITCH_LIMIT]`.
pub open spec fn clamp_pitch(v: int) -> int {
    if v < -PITCH_LIMIT {
        -PITCH_LIMIT as int
    } else if v > PITCH_LIMIT {
        PITCH_LIMIT as int
    } else {
        v
    }
}

impl MouseLook {
    /// Pitch within its limit.
    pub open spec fn wf(&self) -> bool {
        -PITCH_LIMIT <= self.pitch <= PITCH_LIMIT
    }

    /// Looking straight ahead along the world's x axis.
    pub fn new(mouse_sensitivity: i32) -> (r: MouseLook)
        ensures
            r.wf(),
            r.yaw == 0,
            r.pitch == 0,
            r.mouse_sensitivity == mouse_sensitivity,
    {
        MouseLook { yaw: 0, pitch: 0, mouse_sensitivity }
    }

    /// Turns by a pointer motion of `(dx, dy)` pixels: right turns the yaw
    /// up, down lowers the pitch, which stops at its limit.
    pub fn update_from_mouse(&mut self, dx: i32, dy: i32)
        requires
            old(self).wf(),
            i64::MIN <= old(self).yaw + dx * old(self).mouse_sensitivity <= i64::MAX,
        ensures
            final(self).wf(),
            final(self).mouse_sensitivity == old(self).mouse_sensitivity,
            final(self).yaw == old(self).yaw + dx * old(self).mouse_sensitivity,
            final(self).pitch == clamp_pitch(old(self).pitch - dy * old(self).mouse_sensitivity),
    {
        let s = self.mouse_sensitivity as i64;
        assert(-0x4000_0000_0000_0000 <= dx * s <= 0x4000_0000_0000_0000
            && -0x4000_0000_0000_0000 <= dy * s <= 0x4000_0000_0000_0000) by (nonlinear_arith)
            requires
                -0x8000_0000 <= dx < 0x8000_0000,
                -0x8000_0000 <= dy < 0x8000_0000,
                -0x8000_0000 <= s < 0x8000_0000,
        ;
        self.yaw = self.yaw + dx as i64 * s;
        let raised = self.pitch - dy as i64 * s;
        self.pitch = if raised < -PITCH_LIMIT {
            -PITCH_LIMIT
        } else if raised > PITCH_LIMIT {
            PITCH_LIMIT
        } else {
            raised
        };
    }

    /// Heading around the vertical axis, in microradians.
    pub fn yaw(&self) -> (r: i64)
        ensures
            r == self.yaw,
    {
        self.yaw
    }

    /// Angle above the horizon, in microradians.
    pub fn pitch(&self) -> (r: i64)
        ensures
            r == self.pitch,
    {
        self.pitch
    }
}

} // verus!
