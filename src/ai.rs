//! Witch behaviour: what a witch sees, which state it is in, where it
//! walks, and whether it has caught the player.
use crate::chance::random_below;
use crate::components::{ColliderKey, EntityId, Witch, WitchState};
use crate::geometry::{
    Vec3, is_within_unit, velocity_toward, velocity_toward_spec, within_unit, UNIT,
};
use crate::registry::ColliderOwners;
use vstd::prelude::*;

verus! {

/// Half the side of the square, centred on the origin, that patrol points are drawn from.
pub const PATROL_HALF_EXTENT: i32 = 10 * UNIT;

/// Speed of a chasing witch, in milli-units per second.
pub const CHASE_SPEED: u32 = 3000;

/// Speed of a patrolling witch, in milli-units per second.
pub const PATROL_SPEED: u32 = 5000;

/// Whether `p` is a point that a patrol can be sent to.
pub open spec fn in_patrol_region(p: Vec3) -> bool {
    &&& -PATROL_HALF_EXTENT <= p.x <= PATROL_HALF_EXTENT
    &&& p.y == 0
    &&& -PATROL_HALF_EXTENT <= p.z <= PATROL_HALF_EXTENT
}

/// The state after one observation, and whether a fresh patrol point is
/// needed because the witch has just lost sight of the player.
pub open spec fn transition(state: WitchState, visible: bool) -> (WitchState, bool) {
    match (visible, state) {
        (true, WitchState::Patrolling) => (WitchState::Chasing, false),
        (false, WitchState::Chasing) => (WitchState::Patrolling, true),
        _ => (state, false),
    }
}

/// Whether a ray from a witch toward the player, whose first hit (if any)
/// is `hit`, lets the witch see the player.
pub open spec fn sees(hit: Option<ColliderKey>, owners: Map<ColliderKey, EntityId>, player: EntityId) -> bool {
    match hit {
        None => true,
        Some(c) => owners.contains_key(c) && owners[c] == player,
    }
}

/// What a witch does this frame.
#[derive(Clone, Copy, Debug, PartialEq, Eq, Structural)]
pub struct WitchAction {
    /// New linear velocity for the witch's body, if it is to change.
    pub velocity: Option<Vec3>,
    /// Whether the witch caught the player.
    pub caught: bool,
}

pub open spec fn speed_of(state: WitchState) -> int {
    match state {
        WitchState::Chasing => CHASE_SPEED as int,
        WitchState::Patrolling => PATROL_SPEED as int,
    }
}

/// One frame of a witch at `position`, with the player at `player`:
/// `lost` is the patrol point taken on losing sight of the player, and
/// `arrived` the one taken on reaching the current patrol point.
pub open spec fn witch_step(
    w: Witch,
    position: Vec3,
    player: Vec3,
    visible: bool,
    lost: Vec3,
    arrived: Vec3,
) -> (Witch, WitchAction) {
    let (state, retarget) = transition(w.state, visible);
    let w1 = Witch { state, target: if retarget { lost } else { w.target }, ..w };
    let goal = if state == WitchState::Chasing { player } else { w1.target };
    if !within_unit(position, goal) {
        (w1, WitchAction {
            velocity: Some(velocity_toward_spec(position, goal, speed_of(state))),
            caught: false,
        })
    } else if state == WitchState::Patrolling {
        (Witch { target: arrived, ..w1 }, WitchAction { velocity: None, caught: false })
    } else {
        (w1, WitchAction { velocity: None, caught: true })
    }
}

/// The state machine's step: `(visible, Patrolling)` becomes `Chasing`,
/// `(not visible, Chasing)` becomes `Patrolling` and asks for a fresh patrol
/// point, and every other pair is left as it is.
pub fn next_state(state: WitchState, visible: bool) -> (r: (WitchState, bool))
    ensures
        r == transition(state, visible),
{
    match (visible, state) {
        (true, WitchState::Patrolling) => (WitchState::Chasing, false),
        (false, WitchState::Chasing) => (WitchState::Patrolling, true),
        _ => (state, false),
    }
}

/// Whether the player is visible along a ray whose first obstruction is
/// `hit`: it is when nothing was hit, or when the collider hit belongs to
/// the player entity.
pub fn can_see_player(hit: Option<ColliderKey>, owners: &ColliderOwners, player: EntityId) -> (r: bool)
    requires
        owners.wf(),
    ensures
        r == sees(hit, owners@, player),
{
    match hit {
        None => true,
        Some(c) => match owners.owner(c) {
            Some(e) => e == player,
            None => false,
        },
    }
}

/// The patrol point `dx` milli-units east and `dz` milli-units north of the
/// square's south-west corner, at ground level.
pub fn patrol_point(dx: u64, dz: u64) -> (r: Vec3)
    requires
        dx <= 2 * PATROL_HALF_EXTENT,
        dz <= 2 * PATROL_HALF_EXTENT,
    ensures
        r == (Vec3 { x: (dx - PATROL_HALF_EXTENT) as i32, y: 0, z: (dz - PATROL_HALF_EXTENT) as i32 }),
        in_patrol_region(r),
{
    Vec3 { x: dx as i32 - PATROL_HALF_EXTENT, y: 0, z: dz as i32 - PATROL_HALF_EXTENT }
}

/// A point drawn at random from the patrol square, at ground level.
pub fn generate_patrol_point() -> (r: Vec3)
    ensures
        in_patrol_region(r),
{
    let span: u64 = 2 * PATROL_HALF_EXTENT as u64 + 1;
    patrol_point(random_below(span), random_below(span))
}

/// One frame of a witch, with the two patrol points it may need given.
pub fn step_witch(
    witch: &mut Witch,
    position: Vec3,
    player: Vec3,
    visible: bool,
    lost: Vec3,
    arrived: Vec3,
) -> (r: WitchAction)
    ensures
        (*final(witch), r) == witch_step(*old(witch), position, player, visible, lost, arrived),
{
    let (state, retarget) = next_state(witch.state, visible);
    witch.state = state;
    if retarget {
        witch.target = lost;
    }
    let goal = match state {
        WitchState::Chasing => player,
        WitchState::Patrolling => witch.target,
    };
    if !is_within_unit(position, goal) {
        let speed = match state {
            WitchState::Chasing => CHASE_SPEED,
            WitchState::Patrolling => PATROL_SPEED,
        };
        WitchAction { velocity: Some(velocity_toward(position, goal, speed)), caught: false }
    } else {
        match state {
            WitchState::Patrolling => {
                witch.target = arrived;
                WitchAction { velocity: None, caught: false }
            },
            WitchState::Chasing => WitchAction { velocity: None, caught: true },
        }
    }
}

/// One frame of a witch, drawing fresh patrol points where they are needed.
pub fn update_witch(witch: &mut Witch, position: Vec3, player: Vec3, visible: bool) -> (r: WitchAction)
    ensures
        exists|lost: Vec3, arrived: Vec3|
            in_patrol_region(lost) && in_patrol_region(arrived)
                && (*final(witch), r) == witch_step(*old(witch), position, player, visible, lost, arrived),
{
    let lost = generate_patrol_point();
    let arrived = generate_patrol_point();
    let r = step_witch(witch, position, player, visible, lost, arrived);
    assert(in_patrol_region(lost) && in_patrol_region(arrived)
        && (*witch, r) == witch_step(*old(witch), position, player, visible, lost, arrived));
    r
}

/// What a frame's physics queries report for one witch.
#[derive(Clone, Copy, Debug, PartialEq, Eq, Structural)]
pub struct Sighting {
    /// The witch body's position.
    pub position: Vec3,
    /// The first collider hit by the ray from the witch toward the player,
    /// the witch's own collider left out.
    pub hit: Option<ColliderKey>,
}

/// The outcome of one frame of every witch.
pub struct AiFrame {
    /// One action per witch, in order.
    pub actions: Vec<WitchAction>,
    /// Whether any witch caught the player.
    pub game_over: bool,
}

/// Whether `(after, action)` is one frame of witch `before` under `sighting`,
/// for some pair of patrol points.
pub open spec fn is_witch_frame(
    before: Witch,
    after: Witch,
    action: WitchAction,
    sighting: Sighting,
    player_position: Vec3,
    owners: Map<ColliderKey, EntityId>,
    player: EntityId,
) -> bool {
    exists|lost: Vec3, arrived: Vec3|
        in_patrol_region(lost) && in_patrol_region(arrived) && (after, action) == witch_step(
            before,
            sighting.position,
            player_position,
            sees(sighting.hit, owners, player),
            lost,
            arrived,
        )
}

/// One frame of every witch: each decides from its own sighting, and the
/// frame is over for the player when any of them caught the player.
pub fn update_witch_ai(
    witches: &mut Vec<Witch>,
    sightings: &Vec<Sighting>,
    owners: &ColliderOwners,
    player: EntityId,
    player_position: Vec3,
) -> (r: AiFrame)
    requires
        owners.wf(),
        sightings@.len() == old(witches)@.len(),
    ensures
        final(witches)@.len() == old(witches)@.len(),
        r.actions@.len() == old(witches)@.len(),
        forall|i: int|
            0 <= i < old(witches)@.len() ==> is_witch_frame(
                #[trigger] old(witches)@[i],
                final(witches)@[i],
                r.actions@[i],
                sightings@[i],
                player_position,
                owners@,
                player,
            ),
        r.game_over == exists|i: int| 0 <= i < r.actions@.len() && #[trigger] r.actions@[i].caught,
{
    let ghost before = witches@;
    let mut actions: Vec<WitchAction> = Vec::new();
    let mut game_over = false;
    let mut i: usize = 0;
    while i < witches.len()
        invariant
            i <= witches@.len(),
            witches@.len() == before.len(),
            sightings@.len() == before.len(),
            owners.wf(),
            actions@.len() == i,
            forall|j: int| i <= j < before.len() ==> witches@[j] == before[j],
            forall|j: int|
                0 <= j < i ==> is_witch_frame(
                    #[trigger] before[j],
                    witches@[j],
                    actions@[j],
                    sightings@[j],
                    player_position,
                    owners@,
                    player,
                ),
            game_over == exists|j: int| 0 <= j < i && #[trigger] actions@[j].caught,
        decreases before.len() - i,
    {
        let sighting = sightings[i];
        let visible = can_see_player(sighting.hit, owners, player);
        let mut w = witches[i];
        let ghost old_actions = actions@;
        let action = update_witch(&mut w, sighting.position, player_position, visible);
        witches.set(i, w);
        actions.push(action);
        if action.caught {
            game_over = true;
        }
        assert(actions@[i as int] == action);
        assert(game_over == exists|j: int| 0 <= j < i + 1 && #[trigger] actions@[j].caught) by {
            if game_over && !action.caught {
                let j = choose|j: int| 0 <= j < i && #[trigger] old_actions[j].caught;
                assert(actions@[j] == old_actions[j]);
            }
            if !game_over {
                assert forall|j: int| 0 <= j < i + 1 implies !#[trigger] actions@[j].caught by {
                    if j < i {
                        assert(actions@[j] == old_actions[j]);
                    }
                }
            }
        }
        assert(is_witch_frame(before[i as int], witches@[i as int], actions@[i as int], sightings@[i as int], player_position, owners@, player));
        i += 1;
    }
    AiFrame { actions, game_over }
}

/// The transition table is total and deterministic: `(visible, Patrolling)`
/// goes to `Chasing`, `(not visible, Chasing)` goes to `Patrolling` with a
/// fresh patrol point, and the other two pairs change nothing.
pub proof fn lemma_transition_table(state: WitchState, visible: bool)
    ensures
        visible && state == WitchState::Patrolling ==> transition(state, visible) == (WitchState::Chasing, false),
        !visible && state == WitchState::Chasing ==> transition(state, visible) == (WitchState::Patrolling, true),
        visible && state == WitchState::Chasing ==> transition(state, visible) == (state, false),
        !visible && state == WitchState::Patrolling ==> transition(state, visible) == (state, false),
        transition(state, visible).0 == (if visible { WitchState::Chasing } else { WitchState::Patrolling }),
{
}

/// On losing sight of the player a witch patrols toward the fresh point it
/// was given (or a later one, once it stands there).
pub proof fn lemma_lost_sight_retargets(
    w: Witch,
    position: Vec3,
    player: Vec3,
    lost: Vec3,
    arrived: Vec3,
)
    requires
        w.state == WitchState::Chasing,
    ensures
        witch_step(w, position, player, false, lost, arrived).0.state == WitchState::Patrolling,
        witch_step(w, position, player, false, lost, arrived).0.target == (if within_unit(position, lost) {
            arrived
        } else {
            lost
        }),
{
}

/// A witch catches the player exactly when it sees the player (and so is
/// chasing) and stands within one unit of the player.
pub proof fn lemma_catch(
    w: Witch,
    position: Vec3,
    player: Vec3,
    visible: bool,
    lost: Vec3,
    arrived: Vec3,
)
    ensures
        witch_step(w, position, player, visible, lost, arrived).0.state == WitchState::Chasing <==> visible,
        witch_step(w, position, player, visible, lost, arrived).1.caught <==> (visible && within_unit(position, player)),
        witch_step(w, position, player, visible, lost, arrived).1.caught
            ==> witch_step(w, position, player, visible, lost, arrived).1.velocity is None,
{
}

/// A frame is over for the player exactly when some witch that sees the
/// player stands within one unit of the player.
pub proof fn lemma_game_over(
    before: Seq<Witch>,
    after: Seq<Witch>,
    actions: Seq<WitchAction>,
    sightings: Seq<Sighting>,
    player_position: Vec3,
    owners: Map<ColliderKey, EntityId>,
    player: EntityId,
)
    requires
        before.len() == after.len() == actions.len() == sightings.len(),
        forall|i: int|
            0 <= i < before.len() ==> is_witch_frame(
                #[trigger] before[i],
                after[i],
                actions[i],
                sightings[i],
                player_position,
                owners,
                player,
            ),
    ensures
        forall|i: int|
            0 <= i < actions.len() ==> (#[trigger] actions[i].caught <==> (sees(sightings[i].hit, owners, player)
                && within_unit(sightings[i].position, player_position))),
{
    assert forall|i: int| 0 <= i < actions.len() implies (#[trigger] actions[i].caught <==> (sees(
        sightings[i].hit,
        owners,
        player,
    ) && within_unit(sightings[i].position, player_position))) by {
        assert(is_witch_frame(before[i], after[i], actions[i], sightings[i], player_position, owners, player));
        let (lost, arrived) = choose|lost: Vec3, arrived: Vec3|
            in_patrol_region(lost) && in_patrol_region(arrived) && (after[i], actions[i]) == witch_step(
                before[i],
                sightings[i].position,
                player_position,
                sees(sightings[i].hit, owners, player),
                lost,
                arrived,
            );
        lemma_catch(before[i], sightings[i].position, player_position, sees(sightings[i].hit, owners, player), lost, arrived);
    }
}

} // verus!
