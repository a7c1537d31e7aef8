//! The missile motion pass: every missile advances along its heading, its
//! sprite rotation follows a quarter turn behind, and a missile that leaves
//! the world is scheduled for deletion — missiles do not wrap.

use vstd::prelude::*;
use crate::components::{Position, Renderable};
use crate::fixed::{cos_milli, cos_milli_s, mul_milli, mul_milli_s, sin_milli, sin_milli_s};
use crate::game::{entity_wf, world_wf};
use crate::store::{Entity, EntityStore, n_missiles, n_players, n_smokes, lemma_count_update};

verus! {

/// What one missile-motion step does to an entity: a live missile moves by
/// `speed` along its heading, its sprite rotation becomes the heading less a
/// quarter turn, and it is marked for deletion when it leaves
/// `[0, GAME_WIDTH] x [0, GAME_HEIGHT]`. Anything else is untouched —
/// including an entity already scheduled for deletion: the orchestrator
/// removes it at the end of the same frame, before rendering, so whether it
/// moved once more is never observable, and leaving it in place keeps its
/// position bounded however often the pass runs before the batch step.
pub open spec fn missile_step_e(e: Entity) -> Entity {
    if e.missile is Some && e.position is Some && e.renderable is Some && !e.doomed {
        let pos = e.position->Some_0;
        let speed = e.missile->Some_0.speed;
        let nx = pos.x + mul_milli_s(speed as int, sin_milli_s(pos.rot as int));
        let ny = pos.y - mul_milli_s(speed as int, cos_milli_s(pos.rot as int));
        let out = nx > crate::GAME_WIDTH_MILLI || nx < 0 || ny > crate::GAME_HEIGHT_MILLI
            || ny < 0;
        Entity {
            position: Some(Position { x: nx as i64, y: ny as i64, rot: pos.rot }),
            renderable: Some(
                Renderable { rot: (pos.rot - 90000) as i64, ..e.renderable->Some_0 },
            ),
            doomed: out,
            ..e
        }
    } else {
        e
    }
}

/// The missile motion pass.
pub struct MissileMover;

impl MissileMover {
    /// Runs the pass over every entity: exactly one missile-motion step per
    /// entity, in arena order. Afterward every missile still not scheduled
    /// for deletion stands inside the world.
    pub fn run(&mut self, ecs: &mut EntityStore)
        requires
            world_wf(*old(ecs)),
        ensures
            final(ecs).next_id == old(ecs).next_id,
            final(ecs).entities@.len() == old(ecs).entities@.len(),
            n_players(final(ecs).entities@) == n_players(old(ecs).entities@),
            n_missiles(final(ecs).entities@) == n_missiles(old(ecs).entities@),
            n_smokes(final(ecs).entities@) == n_smokes(old(ecs).entities@),
            forall|i: int|
                0 <= i < old(ecs).entities@.len() ==> final(ecs).entities@[i] == missile_step_e(
                    #[trigger] old(ecs).entities@[i],
                ),
            world_wf(*final(ecs)),
            forall|i: int|
                0 <= i < final(ecs).entities@.len()
                    && (#[trigger] final(ecs).entities@[i]).missile is Some
                    && !final(ecs).entities@[i].doomed ==> {
                    let pos = final(ecs).entities@[i].position->Some_0;
                    0 <= pos.x <= crate::GAME_WIDTH_MILLI && 0 <= pos.y
                        <= crate::GAME_HEIGHT_MILLI
                },
    {
        let ghost s0 = ecs.entities@;
        let n = ecs.entities.len();
        let mut i: usize = 0;
        while i < n
            invariant
                i <= n,
                n == ecs.entities@.len(),
                n == s0.len(),
                ecs.next_id == old(ecs).next_id,
                world_wf(*old(ecs)),
                forall|j: int| 0 <= j < i ==> ecs.entities@[j] == missile_step_e(#[trigger] s0[j]),
                forall|j: int| i <= j < n ==> ecs.entities@[j] == #[trigger] s0[j],
                forall|j: int| 0 <= j < n ==> entity_wf(#[trigger] ecs.entities@[j]),
                forall|j: int| 0 <= j < n ==> (#[trigger] ecs.entities@[j].id) == s0[j].id,
                s0 == old(ecs).entities@,
                ecs.ids_ok(),
                n_players(ecs.entities@) == n_players(s0),
                n_missiles(ecs.entities@) == n_missiles(s0),
                n_smokes(ecs.entities@) == n_smokes(s0),
            decreases n - i,
        {
            let e = ecs.entities[i];
            match (e.missile, e.position, e.renderable) {
                (Some(m), Some(pos), Some(rend)) if !e.doomed => {
                    let sn = sin_milli(pos.rot);
                    let cs = cos_milli(pos.rot);
                    let nx = pos.x + mul_milli(m.speed, sn);
                    let ny = pos.y - mul_milli(m.speed, cs);
                    let out = nx > crate::GAME_WIDTH_MILLI || nx < 0
                        || ny > crate::GAME_HEIGHT_MILLI || ny < 0;
                    let e2 = Entity {
                        position: Some(Position { x: nx, y: ny, rot: pos.rot }),
                        renderable: Some(Renderable { rot: pos.rot - 90000, ..rend }),
                        doomed: out,
                        ..e
                    };
                    proof {
                        let cur = ecs.entities@;
                        lemma_count_update(cur, |e: Entity| e.player is Some, i as int, e2);
                        lemma_count_update(cur, |e: Entity| e.missile is Some, i as int, e2);
                        lemma_count_update(cur, |e: Entity| e.smoke is Some, i as int, e2);
                    }
                    ecs.entities[i] = e2;
                    proof {
                        assert(e2 == missile_step_e(s0[i as int]));
                    }
                },
                _ => {
                    proof {
                        assert(ecs.entities@[i as int] == missile_step_e(s0[i as int]));
                    }
                },
            }
            i = i + 1;
        }
    }
}

} // verus!
