//! Motion integration for the player ship.
//!
//! The shared rule is: decay the current speed by friction, add the pending
//! impulse, clamp the magnitude to the speed cap, move the position by the
//! result, and clear the impulse. The order (decay, then add, then clamp)
//! matters: clamping before adding the impulse would let the speed cap be
//! bypassed by alternating thrust with decay frames.

use vstd::prelude::*;
use crate::components::{Asteroid, Missile, Player, Position, Renderable, Smoke, TexName, Vec2,
    norm_sq};
use crate::fixed::{iabs, scale_s, sqrt_floor, tdiv, mul_div, isqrt64, mul_milli, mul_milli_s,
    sin_milli, sin_milli_s, cos_milli, cos_milli_s, norm360, norm360_s, wrap_coord, wrap_s,
    lemma_tdiv_sq, lemma_sqrt_floor_unique, lemma_sqrt_props, lemma_scale_contracts,
    lemma_sin_bounds, lemma_cos_bounds};
use crate::input::{KeyState, consumed};
use crate::store::{Entity, EntityStore, count_if, n_missiles, n_players, n_smokes,
    lemma_count_push, lemma_count_update};

verus! {

/// The standing invariant of one entity: every gameplay record comes with a
/// position and a renderable, rotations are normalized, and the numeric
/// fields respect the bounds their passes preserve.
pub open spec fn entity_wf(e: Entity) -> bool {
    &&& !(e.player is Some && e.asteroid is Some)
    &&& !(e.player is Some && e.missile is Some)
    &&& !(e.player is Some && e.smoke is Some)
    &&& !(e.asteroid is Some && e.missile is Some)
    &&& !(e.asteroid is Some && e.smoke is Some)
    &&& !(e.missile is Some && e.smoke is Some)
    &&& e.player is Some ==> {
        &&& e.position is Some
        &&& e.renderable is Some
        &&& e.position->Some_0.in_world()
        &&& e.position->Some_0.rot_wf()
        &&& e.player->Some_0.wf()
        &&& e.renderable->Some_0.o_h <= 2000
    }
    &&& e.missile is Some ==> {
        &&& e.position is Some
        &&& e.renderable is Some
        &&& e.missile->Some_0.wf()
        &&& e.position->Some_0.rot_wf()
        &&& (!e.doomed ==> 0 <= e.position->Some_0.x <= crate::GAME_WIDTH_MILLI
            && 0 <= e.position->Some_0.y <= crate::GAME_HEIGHT_MILLI)
    }
    &&& e.smoke is Some ==> {
        &&& e.position is Some
        &&& e.renderable is Some
        &&& e.smoke->Some_0.wf()
        &&& e.position->Some_0.rot_wf()
        &&& iabs(e.position->Some_0.x as int) + 201 * e.smoke->Some_0.speed <= 2_000_000_000
        &&& iabs(e.position->Some_0.y as int) + 201 * e.smoke->Some_0.speed <= 2_000_000_000
    }
}

/// The standing invariant of the whole world: identifiers are unique, every
/// entity is well-formed, and at most one entity is the player.
pub open spec fn world_wf(st: EntityStore) -> bool {
    &&& st.ids_ok()
    &&& forall|i: int| 0 <= i < st.entities@.len() ==> entity_wf(#[trigger] st.entities@[i])
    &&& n_players(st.entities@) <= 1
}

/// The player ship the world starts with.
pub open spec fn initial_player(id: u64) -> Entity {
    Entity {
        id: id,
        doomed: false,
        position: Some(Position { x: 350_000, y: 250_000, rot: 0 }),
        renderable: Some(
            Renderable {
                tex_name: TexName::Ship,
                i_w: 32,
                i_h: 32,
                o_w: 64,
                o_h: 64,
                frame: 0,
                total_frames: 1,
                rot: 0,
            },
        ),
        player: Some(Player { impulse: Vec2 { x: 0, y: 0 }, cur_speed: Vec2 { x: 0, y: 0 } }),
        asteroid: None,
        missile: None,
        smoke: None,
    }
}

/// The asteroid the world starts with.
pub open spec fn initial_asteroid(id: u64) -> Entity {
    Entity {
        id: id,
        doomed: false,
        position: Some(Position { x: 200_000, y: 400_000, rot: 45_000 }),
        renderable: Some(
            Renderable {
                tex_name: TexName::Rock,
                i_w: 32,
                i_h: 32,
                o_w: 64,
                o_h: 64,
                frame: 0,
                total_frames: 1,
                rot: 0,
            },
        ),
        player: None,
        asteroid: Some(Asteroid { speed: 2_500, rot_speed: 250 }),
        missile: None,
        smoke: None,
    }
}

/// Recreates the initial world: one player ship and one asteroid at their
/// fixed start positions and orientations, appended to whatever the store
/// holds (the reset check empties it first).
pub fn load_world(ecs: &mut EntityStore)
    requires
        old(ecs).next_id + 2 <= u64::MAX,
    ensures
        final(ecs).entities@ == old(ecs).entities@.push(initial_player(old(ecs).next_id)).push(
            initial_asteroid((old(ecs).next_id + 1) as u64),
        ),
        final(ecs).next_id == old(ecs).next_id + 2,
{
    let id0 = ecs.next_id;
    ecs.entities.push(Entity {
        id: id0,
        doomed: false,
        position: Some(Position { x: 350_000, y: 250_000, rot: 0 }),
        renderable: Some(
            Renderable {
                tex_name: TexName::Ship,
                i_w: 32,
                i_h: 32,
                o_w: 64,
                o_h: 64,
                frame: 0,
                total_frames: 1,
                rot: 0,
            },
        ),
        player: Some(Player { impulse: Vec2 { x: 0, y: 0 }, cur_speed: Vec2 { x: 0, y: 0 } }),
        asteroid: None,
        missile: None,
        smoke: None,
    });
    ecs.entities.push(Entity {
        id: id0 + 1,
        doomed: false,
        position: Some(Position { x: 200_000, y: 400_000, rot: 45_000 }),
        renderable: Some(
            Renderable {
                tex_name: TexName::Rock,
                i_w: 32,
                i_h: 32,
                o_w: 64,
                o_h: 64,
                frame: 0,
                total_frames: 1,
                rot: 0,
            },
        ),
        player: None,
        asteroid: Some(Asteroid { speed: 2_500, rot_speed: 250 }),
        missile: None,
        smoke: None,
    });
    ecs.next_id = id0 + 2;
}

/// The entity a missile spawn request creates.
pub open spec fn missile_entity(pos: Position, id: u64) -> Entity {
    Entity {
        id: id,
        doomed: false,
        position: Some(pos),
        renderable: Some(
            Renderable {
                tex_name: TexName::MissileShot,
                i_w: 24,
                i_h: 8,
                o_w: 24,
                o_h: 8,
                frame: 0,
                total_frames: 1,
                rot: 0,
            },
        ),
        player: None,
        asteroid: None,
        missile: Some(Missile { speed: crate::MISSILE_SPEED_MILLI }),
        smoke: None,
    }
}

/// Spawns a missile at the supplied position, unless the missile population
/// is at its cap, in which case the request is silently dropped and the
/// store is unchanged. The missile count never exceeds the cap.
pub fn fire_missile(ecs: &mut EntityStore, position: Position) -> (fired: bool)
    requires
        old(ecs).next_id < u64::MAX,
        position.rot_wf(),
        0 <= position.x <= crate::GAME_WIDTH_MILLI,
        0 <= position.y <= crate::GAME_HEIGHT_MILLI,
    ensures
        fired == (n_missiles(old(ecs).entities@) < crate::MAX_MISSILES),
        !fired ==> final(ecs).entities@ == old(ecs).entities@ && final(ecs).next_id == old(
            ecs,
        ).next_id,
        fired ==> final(ecs).entities@ == old(ecs).entities@.push(
            missile_entity(position, old(ecs).next_id),
        ) && final(ecs).next_id == old(ecs).next_id + 1,
        n_missiles(final(ecs).entities@) <= if n_missiles(old(ecs).entities@)
            < crate::MAX_MISSILES {
            crate::MAX_MISSILES as int
        } else {
            n_missiles(old(ecs).entities@)
        },
        n_players(final(ecs).entities@) == n_players(old(ecs).entities@),
        n_smokes(final(ecs).entities@) == n_smokes(old(ecs).entities@),
        world_wf(*old(ecs)) ==> world_wf(*final(ecs)),
{
    let count = ecs.missile_count();
    if count >= crate::MAX_MISSILES {
        return false;
    }
    let id = ecs.next_id;
    ecs.entities.push(Entity {
        id: id,
        doomed: false,
        position: Some(position),
        renderable: Some(
            Renderable {
                tex_name: TexName::MissileShot,
                i_w: 24,
                i_h: 8,
                o_w: 24,
                o_h: 8,
                frame: 0,
                total_frames: 1,
                rot: 0,
            },
        ),
        player: None,
        asteroid: None,
        missile: Some(Missile { speed: crate::MISSILE_SPEED_MILLI }),
        smoke: None,
    });
    ecs.next_id = id + 1;
    proof {
        let s0 = old(ecs).entities@;
        let e = missile_entity(position, old(ecs).next_id);
        lemma_count_push(s0, |e: Entity| e.missile is Some, e);
        lemma_count_push(s0, |e: Entity| e.player is Some, e);
        lemma_count_push(s0, |e: Entity| e.smoke is Some, e);
    }
    true
}

/// The entity a smoke spawn request creates.
pub open spec fn smoke_entity(
    pos: Position,
    size: u32,
    slack: i64,
    speed: i64,
    shrink_speed: i64,
    shrink_factor: u32,
    id: u64,
) -> Entity {
    Entity {
        id: id,
        doomed: false,
        position: Some(pos),
        renderable: Some(
            Renderable {
                tex_name: TexName::SmokePuff,
                i_w: 16,
                i_h: 16,
                o_w: size,
                o_h: size,
                frame: 0,
                total_frames: 1,
                rot: 0,
            },
        ),
        player: None,
        asteroid: None,
        missile: None,
        smoke: Some(
            Smoke {
                speed: speed,
                slack: slack,
                shrink_time: 1000,
                shrink_speed: shrink_speed,
                shrink_factor: shrink_factor,
            },
        ),
    }
}

/// Spawns a smoke particle with the given parameters, unless the smoke
/// population is at its cap, in which case the request is silently dropped.
/// The randomized caller draws the parameters; this function is exact for
/// every choice of them. The smoke count never exceeds the cap.
pub fn release_smoke_with(
    ecs: &mut EntityStore,
    position: Position,
    size: u32,
    slack: i64,
    speed: i64,
    shrink_speed: i64,
    shrink_factor: u32,
) -> (released: bool)
    requires
        old(ecs).next_id < u64::MAX,
        position.rot_wf(),
        iabs(position.x as int) <= 2_000_000,
        iabs(position.y as int) <= 2_000_000,
        16 <= size < 52,
        1005 <= slack < 1100,
        4000 <= speed < 5000,
        300 <= shrink_speed < 1000,
        2 <= shrink_factor <= 3,
    ensures
        released == (n_smokes(old(ecs).entities@) < crate::MAX_PARTICLES),
        !released ==> final(ecs).entities@ == old(ecs).entities@ && final(ecs).next_id == old(
            ecs,
        ).next_id,
        released ==> final(ecs).entities@ == old(ecs).entities@.push(
            smoke_entity(position, size, slack, speed, shrink_speed, shrink_factor,
                old(ecs).next_id),
        ) && final(ecs).next_id == old(ecs).next_id + 1,
        n_smokes(final(ecs).entities@) <= if n_smokes(old(ecs).entities@)
            < crate::MAX_PARTICLES {
            crate::MAX_PARTICLES as int
        } else {
            n_smokes(old(ecs).entities@)
        },
        n_players(final(ecs).entities@) == n_players(old(ecs).entities@),
        n_missiles(final(ecs).entities@) == n_missiles(old(ecs).entities@),
        world_wf(*old(ecs)) ==> world_wf(*final(ecs)),
{
    let count = ecs.smoke_count();
    if count >= crate::MAX_PARTICLES {
        return false;
    }
    let id = ecs.next_id;
    ecs.entities.push(Entity {
        id: id,
        doomed: false,
        position: Some(position),
        renderable: Some(
            Renderable {
                tex_name: TexName::SmokePuff,
                i_w: 16,
                i_h: 16,
                o_w: size,
                o_h: size,
                frame: 0,
                total_frames: 1,
                rot: 0,
            },
        ),
        player: None,
        asteroid: None,
        missile: None,
        smoke: Some(
            Smoke {
                speed: speed,
                slack: slack,
                shrink_time: 1000,
                shrink_speed: shrink_speed,
                shrink_factor: shrink_factor,
            },
        ),
    });
    ecs.next_id = id + 1;
    proof {
        let s0 = old(ecs).entities@;
        let e = smoke_entity(position, size, slack, speed, shrink_speed, shrink_factor,
            old(ecs).next_id);
        lemma_count_push(s0, |e: Entity| e.missile is Some, e);
        lemma_count_push(s0, |e: Entity| e.player is Some, e);
        lemma_count_push(s0, |e: Entity| e.smoke is Some, e);
    }
    true
}

/// Whether an entity is a smoke particle just spawned at the given position:
/// its fixed fields are exact and its randomized fields lie in their ranges.
pub open spec fn smoke_spawned_at(e: Entity, pos: Position, id: u64) -> bool {
    exists|size: u32, slack: i64, speed: i64, shrink_speed: i64, shrink_factor: u32|
        {
            &&& 16 <= size < 52
            &&& 1005 <= slack < 1100
            &&& 4000 <= speed < 5000
            &&& 300 <= shrink_speed < 1000
            &&& 2 <= shrink_factor <= 3
            &&& e == #[trigger] smoke_entity(pos, size, slack, speed, shrink_speed,
                shrink_factor, id)
        }
}

/// Spawns a smoke particle at the supplied position with randomized size,
/// drag, speed and shrink parameters, unless the smoke population is at its
/// cap, in which case the request is silently dropped.
pub fn release_smoke(ecs: &mut EntityStore, position: Position) -> (released: bool)
    requires
        old(ecs).next_id < u64::MAX,
        position.rot_wf(),
        iabs(position.x as int) <= 2_000_000,
        iabs(position.y as int) <= 2_000_000,
    ensures
        released == (n_smokes(old(ecs).entities@) < crate::MAX_PARTICLES),
        !released ==> final(ecs).entities@ == old(ecs).entities@ && final(ecs).next_id == old(
            ecs,
        ).next_id,
        released ==> final(ecs).entities@.len() == old(ecs).entities@.len() + 1
            && final(ecs).entities@.take(old(ecs).entities@.len() as int) == old(ecs).entities@
            && smoke_spawned_at(final(ecs).entities@.last(), position, old(ecs).next_id)
            && final(ecs).next_id == old(ecs).next_id + 1,
        n_smokes(final(ecs).entities@) <= if n_smokes(old(ecs).entities@)
            < crate::MAX_PARTICLES {
            crate::MAX_PARTICLES as int
        } else {
            n_smokes(old(ecs).entities@)
        },
        n_players(final(ecs).entities@) == n_players(old(ecs).entities@),
        n_missiles(final(ecs).entities@) == n_missiles(old(ecs).entities@),
        world_wf(*old(ecs)) ==> world_wf(*final(ecs)),
{
    let size = crate::rng::rand_in(16, 52);
    let slack = 1000 + crate::rng::rand_in(5, 100);
    let speed = crate::rng::rand_in(4000, 5000);
    let shrink_speed = crate::rng::rand_in(300, 1000);
    let shrink_factor = crate::rng::rand_in(2, 4);
    let released = release_smoke_with(
        ecs,
        position,
        size as u32,
        slack,
        speed,
        shrink_speed,
        shrink_factor as u32,
    );
    proof {
        if released {
            let s = old(ecs).entities@;
            assert(final(ecs).entities@.take(s.len() as int) =~= s);
        }
    }
    released
}

/// The ship's heading after this frame's turn keys, in milli-degrees,
/// normalized into `[0, 360000)`.
pub open spec fn turned_rot(rot: int, k: KeyState) -> int {
    let r1 = if k.key_d {
        norm360_s(rot - crate::ROTATION_SPEED_MILLI as int)
    } else {
        rot
    };
    if k.key_a {
        norm360_s(r1 + crate::ROTATION_SPEED_MILLI as int)
    } else {
        r1
    }
}

/// The thrust one frame of holding the key adds along the heading.
pub open spec fn thrust_x(rot: int) -> int {
    mul_milli_s(crate::MOVEMENT_SPEED_MILLI as int, sin_milli_s(rot))
}

/// The thrust one frame of holding the key adds along the heading.
pub open spec fn thrust_y(rot: int) -> int {
    -mul_milli_s(crate::MOVEMENT_SPEED_MILLI as int, cos_milli_s(rot))
}

/// The player record after this frame's thrust request, before integration.
pub open spec fn player_after(e: Entity, k: KeyState) -> Player {
    let pl0 = e.player->Some_0;
    let rot1 = turned_rot(e.position->Some_0.rot as int, k);
    if k.key_w {
        Player {
            impulse: Vec2 {
                x: (pl0.impulse.x + thrust_x(rot1)) as i64,
                y: (pl0.impulse.y + thrust_y(rot1)) as i64,
            },
            cur_speed: pl0.cur_speed,
        }
    } else {
        pl0
    }
}

/// The player entity after one player control pass: turned, thrusted,
/// integrated, wrapped into the world, with the sprite rotation synchronized
/// to the heading.
pub open spec fn player_step(e: Entity, k: KeyState) -> Entity {
    let pos0 = e.position->Some_0;
    let rend0 = e.renderable->Some_0;
    let rot1 = turned_rot(pos0.rot as int, k);
    let pl1 = player_after(e, k);
    let v = integrate_s(pl1);
    let x2 = wrap_s(pos0.x + v.0, crate::GAME_WIDTH_MILLI as int);
    let y2 = wrap_s(pos0.y + v.1, crate::GAME_HEIGHT_MILLI as int);
    Entity {
        position: Some(Position { x: x2 as i64, y: y2 as i64, rot: rot1 as i64 }),
        player: Some(
            Player {
                impulse: Vec2 { x: 0, y: 0 },
                cur_speed: Vec2 { x: v.0 as i64, y: v.1 as i64 },
            },
        ),
        renderable: Some(Renderable { rot: rot1 as i64, ..rend0 }),
        ..e
    }
}

/// Where a missile spawns: the ship's wrapped position, turned half around.
pub open spec fn missile_spawn_pos(e: Entity, k: KeyState) -> Position {
    let stepped = player_step(e, k).position->Some_0;
    Position { x: stepped.x, y: stepped.y, rot: norm360_s(stepped.rot + 180000) as i64 }
}

/// Where a smoke particle spawns: the ship's tail before integration, with
/// the heading jittered.
pub open spec fn smoke_spawn_pos(e: Entity, k: KeyState, jitter: int) -> Position {
    let pos0 = e.position->Some_0;
    let rend0 = e.renderable->Some_0;
    let rot1 = turned_rot(pos0.rot as int, k);
    Position {
        x: (pos0.x - mul_milli_s(rend0.o_h as int * 500, sin_milli_s(rot1))) as i64,
        y: (pos0.y + mul_milli_s(rend0.o_h as int * 500, cos_milli_s(rot1))) as i64,
        rot: norm360_s(rot1 + jitter) as i64,
    }
}

/// How one frame of the player control pass and its spawn requests relate
/// the world after the reset check (`s1`, next identifier `nid1`) to the
/// final world (`sf`, `nidf`), for the player entity at index `pi`: the
/// player entity steps; a missile is appended exactly when the fire key is
/// down and the missile population is under its cap; a smoke particle with
/// jittered heading is appended exactly when the thrust key is down and the
/// smoke population is under its cap.
pub open spec fn update_step_rel(
    s1: Seq<Entity>,
    nid1: u64,
    k: KeyState,
    pi: int,
    sf: Seq<Entity>,
    nidf: u64,
) -> bool {
    let s2 = s1.update(pi, player_step(s1[pi], k));
    let fire = k.key_fire && n_missiles(s2) < crate::MAX_MISSILES as int;
    let s3 = if fire {
        s2.push(missile_entity(missile_spawn_pos(s1[pi], k), nid1))
    } else {
        s2
    };
    let nid2 = if fire {
        (nid1 + 1) as u64
    } else {
        nid1
    };
    let puff = k.key_w && n_smokes(s3) < crate::MAX_PARTICLES as int;
    if puff {
        &&& sf.len() == s3.len() + 1
        &&& sf.take(s3.len() as int) == s3
        &&& (exists|jitter: int|
            -20000 <= jitter < 20000 && smoke_spawned_at(
                sf.last(),
                smoke_spawn_pos(s1[pi], k, jitter),
                nid2,
            ))
        &&& nidf == nid2 + 1
    } else {
        &&& sf == s3
        &&& nidf == nid2
    }
}

/// How one whole frame of `update` relates the old world to the new one:
/// first the reset check (an empty player population recreates the initial
/// world), then the player control pass of `update_step_rel` on the first
/// player entity.
/// The world after the reset check: recreated from scratch when no entity
/// carries a player record, unchanged otherwise.
pub open spec fn reset_world(s0: Seq<Entity>, nid0: u64) -> Seq<Entity> {
    if n_players(s0) == 0 {
        Seq::empty().push(initial_player(nid0)).push(initial_asteroid((nid0 + 1) as u64))
    } else {
        s0
    }
}

/// The identifier counter after the reset check.
pub open spec fn reset_nid(s0: Seq<Entity>, nid0: u64) -> u64 {
    if n_players(s0) == 0 {
        (nid0 + 2) as u64
    } else {
        nid0
    }
}

pub open spec fn update_rel(
    s0: Seq<Entity>,
    nid0: u64,
    k: KeyState,
    sf: Seq<Entity>,
    nidf: u64,
) -> bool {
    exists|pi: int|
        {
            &&& 0 <= pi < reset_world(s0, nid0).len()
            &&& (#[trigger] reset_world(s0, nid0)[pi]).player is Some
            &&& (forall|j: int|
                0 <= j < pi ==> !((#[trigger] reset_world(s0, nid0)[j]).player is Some))
            &&& update_step_rel(reset_world(s0, nid0), reset_nid(s0, nid0), k, pi, sf, nidf)
        }
}

/// The initial world holds exactly one player and one asteroid, both
/// well-formed, and no missile or smoke.
pub proof fn lemma_initial_world(nid0: u64)
    ensures
        ({
            let s = Seq::empty().push(initial_player(nid0)).push(
                initial_asteroid((nid0 + 1) as u64),
            );
            &&& s.len() == 2
            &&& s[0] == initial_player(nid0)
            &&& s[1] == initial_asteroid((nid0 + 1) as u64)
            &&& n_players(s) == 1
            &&& n_missiles(s) == 0
            &&& n_smokes(s) == 0
            &&& entity_wf(s[0])
            &&& entity_wf(s[1])
        }),
{
    let e0 = Seq::<Entity>::empty();
    let ip = initial_player(nid0);
    let ia = initial_asteroid((nid0 + 1) as u64);
    lemma_count_push(e0, |e: Entity| e.player is Some, ip);
    lemma_count_push(e0.push(ip), |e: Entity| e.player is Some, ia);
    lemma_count_push(e0, |e: Entity| e.missile is Some, ip);
    lemma_count_push(e0.push(ip), |e: Entity| e.missile is Some, ia);
    lemma_count_push(e0, |e: Entity| e.smoke is Some, ip);
    lemma_count_push(e0.push(ip), |e: Entity| e.smoke is Some, ia);
    assert(count_if(e0, |e: Entity| e.player is Some) == 0) by {
        assert(e0.filter(|e: Entity| e.player is Some) =~= e0);
    }
    assert(count_if(e0, |e: Entity| e.missile is Some) == 0) by {
        assert(e0.filter(|e: Entity| e.missile is Some) =~= e0);
    }
    assert(count_if(e0, |e: Entity| e.smoke is Some) == 0) by {
        assert(e0.filter(|e: Entity| e.smoke is Some) =~= e0);
    }
    assert(norm_sq(Vec2 { x: 0, y: 0 }) == 0) by (nonlinear_arith);
    assert(entity_wf(ip));
    assert(entity_wf(ia));
}

/// One player control step keeps the player entity well-formed and touches
/// only its position, player and renderable records.
pub proof fn lemma_player_step_wf(e: Entity, k: KeyState)
    requires
        entity_wf(e),
        e.player is Some,
    ensures
        integrable(player_after(e, k)),
        entity_wf(player_step(e, k)),
        player_step(e, k).id == e.id,
        player_step(e, k).player is Some,
        player_step(e, k).missile == e.missile,
        player_step(e, k).smoke == e.smoke,
        player_step(e, k).asteroid == e.asteroid,
        player_step(e, k).doomed == e.doomed,
{
    let pos0 = e.position->Some_0;
    let rot1 = turned_rot(pos0.rot as int, k);
    assert(0 <= rot1 < 360000);
    let pl1 = player_after(e, k);
    if k.key_w {
        lemma_sin_bounds(rot1);
        lemma_cos_bounds(rot1);
        crate::fixed::lemma_mul_milli_s_bound(
            crate::MOVEMENT_SPEED_MILLI as int, sin_milli_s(rot1));
        crate::fixed::lemma_mul_milli_s_bound(
            crate::MOVEMENT_SPEED_MILLI as int, cos_milli_s(rot1));
    }
    assert(integrable(pl1));
    lemma_speed_cap(pl1);
    let v = integrate_s(pl1);
    assert(v.0 * v.0 <= 4501 * 4501 && v.1 * v.1 <= 4501 * 4501) by (nonlinear_arith)
        requires
            v.0 * v.0 + v.1 * v.1 <= 4501 * 4501,
    {
        assert(v.0 * v.0 >= 0);
        assert(v.1 * v.1 >= 0);
    }
    lemma_sq_le(v.0, 4501);
    lemma_sq_le(v.1, 4501);
    let st = player_step(e, k);
    assert(st.position->Some_0.in_world());
    assert(st.player->Some_0.wf()) by {
        let cs = st.player->Some_0.cur_speed;
        assert(cs.x == v.0 && cs.y == v.1);
    }
}

/// The index of the first entity carrying a player record.
fn find_player(ecs: &EntityStore) -> (pi: usize)
    requires
        n_players(ecs.entities@) > 0,
    ensures
        pi < ecs.entities@.len(),
        ecs.entities@[pi as int].player is Some,
        forall|j: int| 0 <= j < pi ==> !((#[trigger] ecs.entities@[j]).player is Some),
{
    let n = ecs.entities.len();
    let mut i: usize = 0;
    while i < n
        invariant
            i <= n,
            n == ecs.entities@.len(),
            forall|j: int| 0 <= j < i ==> !((#[trigger] ecs.entities@[j]).player is Some),
        decreases n - i,
    {
        if ecs.entities[i].player.is_some() {
            return i;
        }
        i = i + 1;
    }
    proof {
        crate::store::lemma_count_pos(ecs.entities@, |e: Entity| e.player is Some);
        assert(false);
    }
    0
}

/// The player control pass and the lifecycle checks that precede and follow
/// it, once per frame. In order: if no entity carries a player record, the
/// world is cleared and recreated; the (at most one) player entity turns on
/// the turn keys, accumulates thrust and requests a smoke particle at its
/// tail while the thrust key is held, integrates its motion, wraps into the
/// world, and — on the edge-triggered fire key, which this pass consumes —
/// requests a missile spawn, turned half around; the queued spawn requests
/// are applied, each dropped silently when its population cap is reached.
#[verifier::rlimit(100)]
#[verifier::spinoff_prover]
pub fn update(ecs: &mut EntityStore, key_manager: &mut KeyState)
    requires
        world_wf(*old(ecs)),
        old(ecs).next_id + 4 <= u64::MAX,
    ensures
        *final(key_manager) == consumed(*old(key_manager)),
        world_wf(*final(ecs)),
        forall|i: int|
            0 <= i < final(ecs).entities@.len()
                && (#[trigger] final(ecs).entities@[i]).player is Some
                ==> final(ecs).entities@[i].position->Some_0.rot_wf(),
        n_players(final(ecs).entities@) == if n_players(old(ecs).entities@) == 0 {
            1int
        } else {
            n_players(old(ecs).entities@)
        },
        n_missiles(final(ecs).entities@) <= if n_missiles(old(ecs).entities@)
            < crate::MAX_MISSILES {
            crate::MAX_MISSILES as int
        } else {
            n_missiles(old(ecs).entities@)
        },
        n_smokes(final(ecs).entities@) <= if n_smokes(old(ecs).entities@)
            < crate::MAX_PARTICLES {
            crate::MAX_PARTICLES as int
        } else {
            n_smokes(old(ecs).entities@)
        },
        update_rel(
            old(ecs).entities@,
            old(ecs).next_id,
            *old(key_manager),
            final(ecs).entities@,
            final(ecs).next_id,
        ),
{
    let ghost k = *old(key_manager);
    let nplayers = ecs.player_count();
    if nplayers == 0 {
        ecs.delete_all();
        load_world(ecs);
        proof {
            lemma_initial_world(old(ecs).next_id);
            assert(world_wf(*ecs));
        }
    }
    proof {
        assert(world_wf(*ecs));
    }
    let ghost s1 = ecs.entities@;
    let ghost nid1 = ecs.next_id;
    let pi = find_player(ecs);
    let e = ecs.entities[pi];
    let mut pos = e.position.unwrap();
    let mut pl = e.player.unwrap();
    let rend = e.renderable.unwrap();
    if key_manager.key_d {
        pos.rot = norm360(pos.rot - crate::ROTATION_SPEED_MILLI);
    }
    if key_manager.key_a {
        pos.rot = norm360(pos.rot + crate::ROTATION_SPEED_MILLI);
    }
    proof {
        assert(pos.rot == turned_rot(e.position->Some_0.rot as int, k));
    }
    let mut smoke_req: Option<Position> = None;
    let ghost mut jitter_used: int = 0;
    if key_manager.key_w {
        let sn = sin_milli(pos.rot);
        let cs = cos_milli(pos.rot);
        pl.impulse = Vec2 {
            x: pl.impulse.x + mul_milli(crate::MOVEMENT_SPEED_MILLI, sn),
            y: pl.impulse.y - mul_milli(crate::MOVEMENT_SPEED_MILLI, cs),
        };
        let half: i64 = (rend.o_h as i64) * 500;
        let jitter = crate::rng::rand_in(-20000, 20000);
        proof {
            jitter_used = jitter as int;
        }
        smoke_req = Some(
            Position {
                x: pos.x - mul_milli(half, sn),
                y: pos.y + mul_milli(half, cs),
                rot: norm360(pos.rot + jitter),
            },
        );
        proof {
            assert(pl == player_after(e, k));
            assert(smoke_req->Some_0 == smoke_spawn_pos(e, k, jitter as int));
        }
    }
    update_movement(&mut pos, &mut pl);
    proof {
        let cs = pl.cur_speed;
        assert(cs.x * cs.x <= 4501 * 4501 && cs.y * cs.y <= 4501 * 4501) by (nonlinear_arith)
            requires
                cs.x * cs.x + cs.y * cs.y <= 4501 * 4501,
        {
            assert(cs.x * cs.x >= 0);
            assert(cs.y * cs.y >= 0);
        }
        lemma_sq_le(cs.x as int, 4501);
        lemma_sq_le(cs.y as int, 4501);
    }
    pos.x = wrap_coord(pos.x, crate::GAME_WIDTH_MILLI);
    pos.y = wrap_coord(pos.y, crate::GAME_HEIGHT_MILLI);
    let mut missile_req: Option<Position> = None;
    if key_manager.key_fire {
        key_manager.key_fire = false;
        missile_req = Some(
            Position { x: pos.x, y: pos.y, rot: norm360(pos.rot + 180000) },
        );
    }
    let rend2 = Renderable { rot: pos.rot, ..rend };
    let e2 = Entity { position: Some(pos), player: Some(pl), renderable: Some(rend2), ..e };
    proof {
        assert(e2 == player_step(e, k));
        lemma_player_step_wf(e, k);
        let cur = ecs.entities@;
        lemma_count_update(cur, |e: Entity| e.player is Some, pi as int, e2);
        lemma_count_update(cur, |e: Entity| e.missile is Some, pi as int, e2);
        lemma_count_update(cur, |e: Entity| e.smoke is Some, pi as int, e2);
    }
    ecs.entities[pi] = e2;
    let ghost s2 = ecs.entities@;
    if let Some(mp) = missile_req {
        fire_missile(ecs, mp);
    }
    let ghost s3 = ecs.entities@;
    if let Some(sp) = smoke_req {
        release_smoke(ecs, sp);
    }
    proof {
        let s0 = old(ecs).entities@;
        let nid0 = old(ecs).next_id;
        assert(s1 == reset_world(s0, nid0));
        assert(nid1 == reset_nid(s0, nid0));
        let sf = ecs.entities@;
        let nidf = ecs.next_id;
        let s2x = s1.update(pi as int, player_step(s1[pi as int], k));
        assert(s2 == s2x);
        let fire = k.key_fire && n_missiles(s2x) < crate::MAX_MISSILES as int;
        let s3x = if fire {
            s2x.push(missile_entity(missile_spawn_pos(s1[pi as int], k), nid1))
        } else {
            s2x
        };
        assert(s3 == s3x);
        let nid2 = if fire {
            (nid1 + 1) as u64
        } else {
            nid1
        };
        let puff = k.key_w && n_smokes(s3x) < crate::MAX_PARTICLES as int;
        if puff {
            assert(-20000 <= jitter_used < 20000 && smoke_spawned_at(
                sf.last(),
                smoke_spawn_pos(s1[pi as int], k, jitter_used),
                nid2,
            ));
        }
        assert(update_step_rel(s1, nid1, k, pi as int, sf, nidf));
        assert(reset_world(s0, nid0)[pi as int].player is Some);
        assert(forall|j: int|
            0 <= j < pi as int ==> !((#[trigger] reset_world(s0, nid0)[j]).player is Some));
        assert(update_step_rel(reset_world(s0, nid0), reset_nid(s0, nid0), k, pi as int, sf,
            nidf));
        assert(update_rel(s0, nid0, k, sf, nidf));
    }
}

/// The world after the two independent motion passes have each stepped
/// every entity of `s1` once.
pub open spec fn moved_world(s1: Seq<Entity>) -> Seq<Entity> {
    Seq::new(s1.len(), |i: int| crate::smoke::smoke_step_e(crate::missile::missile_step_e(s1[i])))
}

/// How one whole frame relates the old world to the new one: some world
/// `s1` comes out of the reset check, the player control pass and its spawn
/// requests (`update_rel`); every entity of it takes one missile-motion and
/// one smoke-motion step; and the entities scheduled for deletion are
/// removed in one batch.
pub open spec fn frame_rel(
    s0: Seq<Entity>,
    nid0: u64,
    k: KeyState,
    sf: Seq<Entity>,
    nidf: u64,
) -> bool {
    exists|s1: Seq<Entity>, nid1: u64|
        {
            &&& #[trigger] update_rel(s0, nid0, k, s1, nid1)
            &&& sf == moved_world(s1).filter(|e: Entity| !e.doomed)
            &&& nidf == nid1
        }
}

/// One whole frame, in the fixed order: the lifecycle reset check and the
/// player control pass with its spawn requests (`update`), the independent
/// missile and smoke motion passes, and the batch of deferred deletions.
/// Rendering reads the store only after a tick, so it never observes an
/// entity scheduled for deletion: afterward no entity carries the mark.
pub fn tick(ecs: &mut EntityStore, key_manager: &mut KeyState)
    requires
        world_wf(*old(ecs)),
        old(ecs).next_id + 4 <= u64::MAX,
    ensures
        frame_rel(
            old(ecs).entities@,
            old(ecs).next_id,
            *old(key_manager),
            final(ecs).entities@,
            final(ecs).next_id,
        ),
        world_wf(*final(ecs)),
        *final(key_manager) == consumed(*old(key_manager)),
        forall|i: int|
            0 <= i < final(ecs).entities@.len() ==> !(#[trigger] final(ecs).entities@[i]).doomed,
        n_players(final(ecs).entities@) <= 1,
        n_missiles(final(ecs).entities@) <= if n_missiles(old(ecs).entities@)
            < crate::MAX_MISSILES {
            crate::MAX_MISSILES as int
        } else {
            n_missiles(old(ecs).entities@)
        },
        n_smokes(final(ecs).entities@) <= if n_smokes(old(ecs).entities@)
            < crate::MAX_PARTICLES {
            crate::MAX_PARTICLES as int
        } else {
            n_smokes(old(ecs).entities@)
        },
{
    let ghost k = *old(key_manager);
    update(ecs, key_manager);
    let ghost s1 = ecs.entities@;
    let ghost nid1 = ecs.next_id;
    let mut missile_mover = crate::missile::MissileMover;
    missile_mover.run(ecs);
    let mut smoke_mover = crate::smoke::SmokeMover;
    smoke_mover.run(ecs);
    let ghost pre = ecs.entities@;
    let ghost nid = ecs.next_id;
    ecs.apply_deferred();
    proof {
        let q = |e: Entity| !e.doomed;
        crate::store::lemma_count_filter_le(pre, q, |e: Entity| e.player is Some);
        crate::store::lemma_count_filter_le(pre, q, |e: Entity| e.missile is Some);
        crate::store::lemma_count_filter_le(pre, q, |e: Entity| e.smoke is Some);
        crate::store::lemma_filter_props(pre, q, |e: Entity| entity_wf(e), nid);
        assert forall|i: int|
            0 <= i < ecs.entities@.len() implies !(#[trigger] ecs.entities@[i]).doomed by {
            pre.lemma_filter_pred(q, i);
        }
        assert(world_wf(*ecs));
        assert(update_rel(old(ecs).entities@, old(ecs).next_id, k, s1, nid1));
        assert(pre =~= moved_world(s1));
        assert(ecs.entities@ == moved_world(s1).filter(|e: Entity| !e.doomed));
        assert(ecs.next_id == nid1);
        assert(frame_rel(old(ecs).entities@, old(ecs).next_id, k, ecs.entities@, ecs.next_id));
    }
}

/// At the right edge of the world with enough rightward speed, the ship
/// wraps: the next frame's horizontal position lands in `[0, vx)`, where
/// `vx` is the speed the frame's integration produced.
pub proof fn lemma_player_wraps_right(e: Entity, k: KeyState)
    requires
        entity_wf(e),
        e.player is Some,
        e.position->Some_0.x == crate::GAME_WIDTH_MILLI - 100,
        integrate_s(player_after(e, k)).0 >= 100,
    ensures
        ({
            let vx = integrate_s(player_after(e, k)).0;
            0 <= player_step(e, k).position->Some_0.x < vx
        }),
{
    lemma_player_step_wf(e, k);
    let pl1 = player_after(e, k);
    lemma_speed_cap(pl1);
    let v = integrate_s(pl1);
    assert(v.0 * v.0 <= 4501 * 4501) by (nonlinear_arith)
        requires
            v.0 * v.0 + v.1 * v.1 <= 4501 * 4501,
    {
        assert(v.1 * v.1 >= 0);
    }
    lemma_sq_le(v.0, 4501);
    assert(wrap_s(e.position->Some_0.x + v.0, crate::GAME_WIDTH_MILLI as int) == v.0 - 100);
}

/// Destroying every player-bearing entity makes the next frame clear the
/// world and recreate exactly one player and one asteroid at their fixed
/// initial states: with no key pressed, the frame ends in exactly the
/// initial world.
pub proof fn lemma_reset_recreates_world(
    s0: Seq<Entity>,
    nid0: u64,
    sf: Seq<Entity>,
    nidf: u64,
)
    requires
        nid0 + 4 <= u64::MAX,
        n_players(s0) == 0,
        update_rel(
            s0,
            nid0,
            KeyState { key_d: false, key_a: false, key_w: false, key_fire: false },
            sf,
            nidf,
        ),
    ensures
        sf.len() == 2,
        sf[0] == initial_player(nid0),
        sf[1] == initial_asteroid((nid0 + 1) as u64),
        nidf == nid0 + 2,
{
    let k = KeyState { key_d: false, key_a: false, key_w: false, key_fire: false };
    let s1 = reset_world(s0, nid0);
    lemma_initial_world(nid0);
    let pi = choose|pi: int|
        {
            &&& 0 <= pi < reset_world(s0, nid0).len()
            &&& (#[trigger] reset_world(s0, nid0)[pi]).player is Some
            &&& (forall|j: int|
                0 <= j < pi ==> !((#[trigger] reset_world(s0, nid0)[j]).player is Some))
            &&& update_step_rel(reset_world(s0, nid0), reset_nid(s0, nid0), k, pi, sf, nidf)
        };
    assert(s1[1].player is None);
    assert(pi == 0);
    let e = s1[0];
    assert(e == initial_player(nid0));
    let stepped = player_step(e, k);
    assert(integrate_s(player_after(e, k)) == (0int, 0int)) by {
        assert(scale_s(0, 95, 100) == 0) by {
            assert(tdiv(0, 100) == 0) by {
                vstd::arithmetic::div_mod::lemma_div_of0(100);
            }
        }
    }
    assert(stepped == e);
    assert(s1.update(0, e) =~= s1);
    assert(sf == s1);
}

/// Destroying every player-bearing entity makes the next frame clear the
/// world and recreate exactly one player and one asteroid, whatever keys are
/// held: the asteroid stands exactly at its fixed initial state, and the
/// player at its fixed initial state as stepped by the same frame's control
/// pass (with no key held that is the initial state itself, see
/// `lemma_reset_recreates_world`).
pub proof fn lemma_reset_rebuilds_pair(
    s0: Seq<Entity>,
    nid0: u64,
    k: KeyState,
    sf: Seq<Entity>,
    nidf: u64,
)
    requires
        nid0 + 4 <= u64::MAX,
        n_players(s0) == 0,
        update_rel(s0, nid0, k, sf, nidf),
    ensures
        n_players(sf) == 1,
        sf.len() >= 2,
        sf[0] == player_step(initial_player(nid0), k),
        sf[0].player is Some,
        sf[1] == initial_asteroid((nid0 + 1) as u64),
        sf[1].asteroid is Some,
{
    let s1 = reset_world(s0, nid0);
    let nid1 = reset_nid(s0, nid0);
    lemma_initial_world(nid0);
    let pi = choose|pi: int|
        {
            &&& 0 <= pi < reset_world(s0, nid0).len()
            &&& (#[trigger] reset_world(s0, nid0)[pi]).player is Some
            &&& (forall|j: int|
                0 <= j < pi ==> !((#[trigger] reset_world(s0, nid0)[j]).player is Some))
            &&& update_step_rel(reset_world(s0, nid0), reset_nid(s0, nid0), k, pi, sf, nidf)
        };
    assert(s1[1].player is None);
    assert(pi == 0);
    let e2 = player_step(s1[0], k);
    let s2 = s1.update(0, e2);
    assert(e2.player is Some);
    lemma_count_update(s1, |e: Entity| e.player is Some, 0, e2);
    let fire = k.key_fire && n_missiles(s2) < crate::MAX_MISSILES as int;
    let s3 = if fire {
        s2.push(missile_entity(missile_spawn_pos(s1[0], k), nid1))
    } else {
        s2
    };
    if fire {
        lemma_count_push(s2, |e: Entity| e.player is Some,
            missile_entity(missile_spawn_pos(s1[0], k), nid1));
    }
    let puff = k.key_w && n_smokes(s3) < crate::MAX_PARTICLES as int;
    if puff {
        assert(sf == s3.push(sf.last())) by {
            assert(sf =~= s3.push(sf.last()));
        }
        let nid2 = if fire {
            (nid1 + 1) as u64
        } else {
            nid1
        };
        let jitter = choose|jitter: int|
            -20000 <= jitter < 20000 && smoke_spawned_at(
                sf.last(),
                smoke_spawn_pos(s1[0], k, jitter),
                nid2,
            );
        let spos = smoke_spawn_pos(s1[0], k, jitter);
        let (size, slack, speed, shrink_speed, shrink_factor) = choose|
            size: u32,
            slack: i64,
            speed: i64,
            shrink_speed: i64,
            shrink_factor: u32,
        |
            {
                &&& 16 <= size < 52
                &&& 1005 <= slack < 1100
                &&& 4000 <= speed < 5000
                &&& 300 <= shrink_speed < 1000
                &&& 2 <= shrink_factor <= 3
                &&& sf.last() == #[trigger] smoke_entity(spos, size, slack, speed,
                    shrink_speed, shrink_factor, nid2)
            };
        lemma_count_push(s3, |e: Entity| e.player is Some, sf.last());
        assert(sf.last().player is None);
    }
}

/// A frame whose input snapshot requests fire, with the missile population
/// under its cap after the reset check, spawns exactly one missile: the
/// population grows by one, and the new entity is the fixed missile record
/// at the ship's post-wrap position, turned half around. (The same frame
/// consumes the fire key, so the next frame spawns none: see
/// `lemma_no_fire_no_missile`.)
pub proof fn lemma_fire_spawns_one_missile(
    s0: Seq<Entity>,
    nid0: u64,
    k: KeyState,
    sf: Seq<Entity>,
    nidf: u64,
)
    requires
        nid0 + 4 <= u64::MAX,
        k.key_fire,
        update_rel(s0, nid0, k, sf, nidf),
        n_missiles(reset_world(s0, nid0)) < crate::MAX_MISSILES as int,
    ensures
        n_missiles(sf) == n_missiles(reset_world(s0, nid0)) + 1,
        exists|pi: int|
            {
                &&& 0 <= pi < reset_world(s0, nid0).len()
                &&& (#[trigger] reset_world(s0, nid0)[pi]).player is Some
                &&& sf[reset_world(s0, nid0).len() as int] == missile_entity(
                    missile_spawn_pos(reset_world(s0, nid0)[pi], k),
                    reset_nid(s0, nid0),
                )
            },
{
    let s1 = reset_world(s0, nid0);
    let nid1 = reset_nid(s0, nid0);
    let pi = choose|pi: int|
        {
            &&& 0 <= pi < reset_world(s0, nid0).len()
            &&& (#[trigger] reset_world(s0, nid0)[pi]).player is Some
            &&& (forall|j: int|
                0 <= j < pi ==> !((#[trigger] reset_world(s0, nid0)[j]).player is Some))
            &&& update_step_rel(reset_world(s0, nid0), reset_nid(s0, nid0), k, pi, sf, nidf)
        };
    let e2 = player_step(s1[pi], k);
    let s2 = s1.update(pi, e2);
    lemma_count_update(s1, |e: Entity| e.missile is Some, pi, e2);
    let m = missile_entity(missile_spawn_pos(s1[pi], k), nid1);
    let s3 = s2.push(m);
    lemma_count_push(s2, |e: Entity| e.missile is Some, m);
    let puff = k.key_w && n_smokes(s3) < crate::MAX_PARTICLES as int;
    if puff {
        assert(sf == s3.push(sf.last())) by {
            assert(sf =~= s3.push(sf.last()));
        }
        let nid2 = (nid1 + 1) as u64;
        let jitter = choose|jitter: int|
            -20000 <= jitter < 20000 && smoke_spawned_at(
                sf.last(),
                smoke_spawn_pos(s1[pi], k, jitter),
                nid2,
            );
        let spos = smoke_spawn_pos(s1[pi], k, jitter);
        let (size, slack, speed, shrink_speed, shrink_factor) = choose|
            size: u32,
            slack: i64,
            speed: i64,
            shrink_speed: i64,
            shrink_factor: u32,
        |
            {
                &&& 16 <= size < 52
                &&& 1005 <= slack < 1100
                &&& 4000 <= speed < 5000
                &&& 300 <= shrink_speed < 1000
                &&& 2 <= shrink_factor <= 3
                &&& sf.last() == #[trigger] smoke_entity(spos, size, slack, speed,
                    shrink_speed, shrink_factor, nid2)
            };
        lemma_count_push(s3, |e: Entity| e.missile is Some, sf.last());
        assert(sf.last().missile is None);
        assert(sf[s1.len() as int] == m);
    } else {
        assert(sf[s1.len() as int] == m);
    }
}

/// A frame whose input snapshot does not request fire spawns no missile:
/// after the reset check the missile population is unchanged. Together with
/// the consumption of the fire key this makes firing edge-triggered: holding
/// the key over consecutive frames spawns exactly one missile.
pub proof fn lemma_no_fire_no_missile(
    s0: Seq<Entity>,
    nid0: u64,
    k: KeyState,
    sf: Seq<Entity>,
    nidf: u64,
)
    requires
        !k.key_fire,
        update_rel(s0, nid0, k, sf, nidf),
    ensures
        n_missiles(sf) == n_missiles(reset_world(s0, nid0)),
{
    let s1 = reset_world(s0, nid0);
    let pi = choose|pi: int|
        {
            &&& 0 <= pi < reset_world(s0, nid0).len()
            &&& (#[trigger] reset_world(s0, nid0)[pi]).player is Some
            &&& (forall|j: int|
                0 <= j < pi ==> !((#[trigger] reset_world(s0, nid0)[j]).player is Some))
            &&& update_step_rel(reset_world(s0, nid0), reset_nid(s0, nid0), k, pi, sf, nidf)
        };
    let nid1 = reset_nid(s0, nid0);
    let e2 = player_step(s1[pi], k);
    let s2 = s1.update(pi, e2);
    lemma_count_update(s1, |e: Entity| e.missile is Some, pi, e2);
    let puff = k.key_w && n_smokes(s2) < crate::MAX_PARTICLES as int;
    if puff {
        assert(sf == s2.push(sf.last())) by {
            assert(sf =~= s2.push(sf.last()));
        }
        let jitter = choose|jitter: int|
            -20000 <= jitter < 20000 && smoke_spawned_at(
                sf.last(),
                smoke_spawn_pos(s1[pi], k, jitter),
                nid1,
            );
        let spos = smoke_spawn_pos(s1[pi], k, jitter);
        let (size, slack, speed, shrink_speed, shrink_factor) = choose|
            size: u32,
            slack: i64,
            speed: i64,
            shrink_speed: i64,
            shrink_factor: u32,
        |
            {
                &&& 16 <= size < 52
                &&& 1005 <= slack < 1100
                &&& 4000 <= speed < 5000
                &&& 300 <= shrink_speed < 1000
                &&& 2 <= shrink_factor <= 3
                &&& sf.last() == #[trigger] smoke_entity(spos, size, slack, speed,
                    shrink_speed, shrink_factor, nid1)
            };
        lemma_count_push(s2, |e: Entity| e.missile is Some, sf.last());
        assert(sf.last().missile is None);
    }
}

/// The speed the ship has after one motion integration, before the position
/// moves: friction, then impulse, then the magnitude clamp.
pub open spec fn integrate_s(p: Player) -> (int, int) {
    let vx = scale_s(p.cur_speed.x as int, 95, 100) + p.impulse.x;
    let vy = scale_s(p.cur_speed.y as int, 95, 100) + p.impulse.y;
    let n = vx * vx + vy * vy;
    if n > crate::MAX_SPEED_MILLI * crate::MAX_SPEED_MILLI {
        (scale_s(vx, crate::MAX_SPEED_MILLI as int, sqrt_floor(n)),
         scale_s(vy, crate::MAX_SPEED_MILLI as int, sqrt_floor(n)))
    } else {
        (vx, vy)
    }
}

/// The bounds motion integration needs of a player record: the speed obeys
/// the cap of the previous frame and the impulse holds at most a few frames
/// of thrust requests.
pub open spec fn integrable(p: Player) -> bool {
    &&& norm_sq(p.cur_speed) <= (crate::MAX_SPEED_MILLI + 1) * (crate::MAX_SPEED_MILLI + 1)
    &&& iabs(p.impulse.x as int) <= 20000
    &&& iabs(p.impulse.y as int) <= 20000
}

/// A square is bounded by a square of the bound.
proof fn lemma_sq_le(a: int, b: int)
    requires
        a * a <= b * b,
        0 <= b,
    ensures
        iabs(a) <= b,
{
    if iabs(a) > b {
        assert(b * b < a * a) by (nonlinear_arith)
            requires
                0 <= b,
                b < iabs(a),
        {}
    }
}

/// Rescaling a vector of magnitude `l` (rounded down) to the speed cap
/// leaves its squared magnitude at most one milli-unit over the cap.
proof fn lemma_clamp_bound(vx: int, vy: int, l: int)
    requires
        4500 <= l,
        l * l <= vx * vx + vy * vy,
        vx * vx + vy * vy < (l + 1) * (l + 1),
    ensures
        tdiv(vx * 4500, l) * tdiv(vx * 4500, l) + tdiv(vy * 4500, l) * tdiv(vy * 4500, l)
            <= 4501 * 4501,
{
    let n = vx * vx + vy * vy;
    let qx = tdiv(vx * 4500, l);
    let qy = tdiv(vy * 4500, l);
    lemma_tdiv_sq(vx * 4500, l);
    lemma_tdiv_sq(vy * 4500, l);
    assert((vx * 4500) * (vx * 4500) == (vx * vx) * (4500 * 4500)) by (nonlinear_arith);
    assert((vy * 4500) * (vy * 4500) == (vy * vy) * (4500 * 4500)) by (nonlinear_arith);
    assert((qx * qx + qy * qy) * (l * l) <= n * (4500 * 4500)) by (nonlinear_arith)
        requires
            qx * qx * l * l <= (vx * vx) * (4500 * 4500),
            qy * qy * l * l <= (vy * vy) * (4500 * 4500),
            n == vx * vx + vy * vy,
    {}
    assert(n * (4500 * 4500) <= ((l + 1) * (l + 1) - 1) * (4500 * 4500)) by (nonlinear_arith)
        requires
            n <= (l + 1) * (l + 1) - 1,
    {}
    assert((4500 * (l + 1)) * (4500 * (l + 1)) <= (4501 * l) * (4501 * l)) by (nonlinear_arith)
        requires
            4500 <= l,
    {}
    assert(((l + 1) * (l + 1)) * (4500 * 4500) == (4500 * (l + 1)) * (4500 * (l + 1)))
        by (nonlinear_arith);
    assert((4501 * l) * (4501 * l) == (4501 * 4501) * (l * l)) by (nonlinear_arith);
    assert((qx * qx + qy * qy) * (l * l) < (4501 * 4501) * (l * l));
    assert(qx * qx + qy * qy <= 4501 * 4501) by (nonlinear_arith)
        requires
            (qx * qx + qy * qy) * (l * l) < (4501 * 4501) * (l * l),
            4500 <= l,
    {}
}

/// After motion integration the ship's speed respects the cap up to one
/// milli-unit: `|cur_speed|^2 <= (MAX_SPEED + 0.001)^2`.
pub proof fn lemma_speed_cap(p: Player)
    requires
        integrable(p),
    ensures
        ({
            let (vx, vy) = integrate_s(p);
            vx * vx + vy * vy
                <= (crate::MAX_SPEED_MILLI + 1) * (crate::MAX_SPEED_MILLI + 1)
        }),
{
    let cs = p.cur_speed;
    assert(cs.x * cs.x <= 4501 * 4501 && cs.y * cs.y <= 4501 * 4501) by (nonlinear_arith)
        requires
            cs.x * cs.x + cs.y * cs.y <= 4501 * 4501,
    {
        assert(cs.x * cs.x >= 0);
        assert(cs.y * cs.y >= 0);
    }
    lemma_sq_le(cs.x as int, 4501);
    lemma_sq_le(cs.y as int, 4501);
    let fx = scale_s(p.cur_speed.x as int, 95, 100);
    let fy = scale_s(p.cur_speed.y as int, 95, 100);
    lemma_scale_contracts(p.cur_speed.x as int, 95, 100);
    lemma_scale_contracts(p.cur_speed.y as int, 95, 100);
    let vx = fx + p.impulse.x;
    let vy = fy + p.impulse.y;
    let n = vx * vx + vy * vy;
    if n > 20_250_000 {
        assert(0 <= n < 0x1_0000_0000) by (nonlinear_arith)
            requires
                n == vx * vx + vy * vy,
                iabs(vx) <= 30000,
                iabs(vy) <= 30000,
        {}
        let l = sqrt_floor(n);
        lemma_sqrt_props(n);
        assert(4500 <= l) by {
            if l < 4500 {
                assert((l + 1) * (l + 1) <= 4500 * 4500) by (nonlinear_arith)
                    requires
                        0 <= l,
                        l + 1 <= 4500,
                {}
            }
        }
        lemma_clamp_bound(vx, vy, l);
    }
}

/// Integrates the ship's motion: `cur_speed` decays by friction, takes the
/// pending impulse, and is clamped to the speed cap; the position moves by
/// the resulting speed; the impulse is cleared. The position is not wrapped
/// here; the owning pass wraps it afterward.
pub fn update_movement(pos: &mut Position, player: &mut Player)
    requires
        integrable(*old(player)),
        -10_000_000 <= old(pos).x <= 10_000_000,
        -10_000_000 <= old(pos).y <= 10_000_000,
    ensures
        final(player).impulse == (Vec2 { x: 0, y: 0 }),
        final(player).cur_speed.x == integrate_s(*old(player)).0,
        final(player).cur_speed.y == integrate_s(*old(player)).1,
        norm_sq(final(player).cur_speed)
            <= (crate::MAX_SPEED_MILLI + 1) * (crate::MAX_SPEED_MILLI + 1),
        final(player).wf(),
        final(pos).x == old(pos).x + final(player).cur_speed.x,
        final(pos).y == old(pos).y + final(player).cur_speed.y,
        final(pos).rot == old(pos).rot,
{
    proof {
        let cs = old(player).cur_speed;
        assert(cs.x * cs.x <= 4501 * 4501 && cs.y * cs.y <= 4501 * 4501) by (nonlinear_arith)
            requires
                cs.x * cs.x + cs.y * cs.y <= 4501 * 4501,
        {
            assert(cs.x * cs.x >= 0);
            assert(cs.y * cs.y >= 0);
        }
        lemma_sq_le(cs.x as int, 4501);
        lemma_sq_le(cs.y as int, 4501);
    }
    let fx = mul_div(player.cur_speed.x, crate::FRICTION_NUM, crate::FRICTION_DEN);
    let fy = mul_div(player.cur_speed.y, crate::FRICTION_NUM, crate::FRICTION_DEN);
    let mut vx: i64 = fx + player.impulse.x;
    let mut vy: i64 = fy + player.impulse.y;
    proof {
        assert(0 <= vx * vx <= 30000 * 30000 && 0 <= vy * vy <= 30000 * 30000)
            by (nonlinear_arith)
            requires
                iabs(vx as int) <= 24501,
                iabs(vy as int) <= 24501,
        {}
    }
    let n: i64 = vx * vx + vy * vy;
    if n > crate::MAX_SPEED_MILLI * crate::MAX_SPEED_MILLI {
        let l64: u64 = isqrt64(n as u64);
        proof {
            assert(4500 <= l64) by {
                if l64 < 4500 {
                    assert((l64 + 1) * (l64 + 1) <= 4500 * 4500) by (nonlinear_arith)
                        requires
                            0 <= l64,
                            l64 + 1 <= 4500,
                    {}
                }
            }
            lemma_sqrt_floor_unique(n as int, l64 as int);
        }
        let l: u64 = l64;
        let cx = mul_div(vx, 4500, l);
        let cy = mul_div(vy, 4500, l);
        proof {
            lemma_clamp_bound(vx as int, vy as int, l as int);
        }
        vx = cx;
        vy = cy;
        proof {
            assert(vx * vx <= 4501 * 4501 && vy * vy <= 4501 * 4501) by (nonlinear_arith)
                requires
                    vx * vx + vy * vy <= 4501 * 4501,
            {
                assert(vx * vx >= 0);
                assert(vy * vy >= 0);
            }
            lemma_sq_le(vx as int, 4501);
            lemma_sq_le(vy as int, 4501);
        }
    } else {
        proof {
            assert(vx * vx <= 4501 * 4501 && vy * vy <= 4501 * 4501) by (nonlinear_arith)
                requires
                    vx * vx + vy * vy <= 4501 * 4501,
            {
                assert(vx * vx >= 0);
                assert(vy * vy >= 0);
            }
            lemma_sq_le(vx as int, 4501);
            lemma_sq_le(vy as int, 4501);
        }
    }
    player.cur_speed = Vec2 { x: vx, y: vy };
    player.impulse = Vec2 { x: 0, y: 0 };
    pos.x = pos.x + vx;
    pos.y = pos.y + vy;
}

} // verus!
