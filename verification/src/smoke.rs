//! The smoke motion pass: every particle drifts opposite to its heading,
//! ticks its shrink timer — shrinking its drawn size or, when too small to
//! shrink further, scheduling itself for deletion — and loses speed to drag.
//! The shrink check and the speed decay both happen every frame.

use vstd::prelude::*;
use crate::components::{Position, Renderable, Smoke};
use crate::fixed::{cos_milli, cos_milli_s, iabs, mul_milli, mul_milli_s, sin_milli, sin_milli_s,
    tdiv};
use crate::game::{entity_wf, world_wf};
use crate::store::{Entity, EntityStore, n_missiles, n_players, n_smokes, lemma_count_update};

verus! {

/// What one smoke-motion step does to an entity: a live particle moves by
/// `speed` against its heading; then, if the shrink timer has not yet run
/// down, it ticks by `shrink_speed`, else both drawn dimensions shrink by
/// `shrink_factor` when both exceed it — otherwise the particle is scheduled
/// for deletion — and the timer resets; finally drag divides the speed by
/// `slack`. Anything else is untouched — including an entity already
/// scheduled for deletion: the orchestrator removes it at the end of the
/// same frame, before rendering, so one more step on it is never observable.
pub open spec fn smoke_step_e(e: Entity) -> Entity {
    if e.smoke is Some && e.position is Some && e.renderable is Some && !e.doomed {
        let pos = e.position->Some_0;
        let sm = e.smoke->Some_0;
        let rend = e.renderable->Some_0;
        let nx = pos.x - mul_milli_s(sm.speed as int, sin_milli_s(pos.rot as int));
        let ny = pos.y + mul_milli_s(sm.speed as int, cos_milli_s(pos.rot as int));
        let ticking = sm.shrink_time > sm.shrink_speed;
        let can_shrink = rend.o_w > sm.shrink_factor && rend.o_h > sm.shrink_factor;
        let new_time = if ticking {
            sm.shrink_time - sm.shrink_speed
        } else {
            1000int
        };
        let new_w = if !ticking && can_shrink {
            rend.o_w - sm.shrink_factor
        } else {
            rend.o_w as int
        };
        let new_h = if !ticking && can_shrink {
            rend.o_h - sm.shrink_factor
        } else {
            rend.o_h as int
        };
        let gone = !ticking && !can_shrink;
        let new_speed = tdiv(sm.speed * 1000, sm.slack as int);
        Entity {
            position: Some(Position { x: nx as i64, y: ny as i64, rot: pos.rot }),
            renderable: Some(Renderable { o_w: new_w as u32, o_h: new_h as u32, ..rend }),
            smoke: Some(
                Smoke { speed: new_speed as i64, shrink_time: new_time as i64, ..sm },
            ),
            doomed: gone,
            ..e
        }
    } else {
        e
    }
}

/// Drag strictly shrinks the drift budget: after one decay step the speed is
/// no larger, and the budget `201 * speed` pays for this frame's drift.
proof fn lemma_drag_budget(speed: int, slack: int)
    requires
        0 <= speed,
        1005 <= slack,
    ensures
        0 <= tdiv(speed * 1000, slack) <= speed,
        201 * tdiv(speed * 1000, slack) + speed <= 201 * speed,
{
    let p = speed * 1000;
    assert(p >= 0);
    let sp = tdiv(p, slack);
    assert(sp == p / slack);
    assert(sp >= 0) by {
        vstd::arithmetic::div_mod::lemma_div_pos_is_pos(p, slack);
    }
    let q = p / 1005;
    assert(sp <= q) by {
        vstd::arithmetic::div_mod::lemma_div_is_ordered_by_denominator(p, 1005, slack);
    }
    assert(1005 * q <= p) by {
        vstd::arithmetic::div_mod::lemma_fundamental_div_mod(p, 1005);
        vstd::arithmetic::div_mod::lemma_mod_bound(p, 1005);
    }
    assert(201 * q <= 200 * speed);
    assert(q <= speed);
}

/// The smoke motion pass.
pub struct SmokeMover;

impl SmokeMover {
    /// Runs the pass over every entity: exactly one smoke-motion step per
    /// entity, in arena order. A particle whose drawn size cannot shrink by
    /// the full factor is scheduled for deletion rather than shrunk to or
    /// below zero: afterward every smoke particle not scheduled for deletion
    /// still has positive drawn dimensions, provided it had them before.
    pub fn run(&mut self, ecs: &mut EntityStore)
        requires
            world_wf(*old(ecs)),
        ensures
            final(ecs).next_id == old(ecs).next_id,
            final(ecs).entities@.len() == old(ecs).entities@.len(),
            n_players(final(ecs).entities@) == n_players(old(ecs).entities@),
            n_missiles(final(ecs).entities@) == n_missiles(old(ecs).entities@),
            n_smokes(final(ecs).entities@) == n_smokes(old(ecs).entities@),
            forall|i: int|
                0 <= i < old(ecs).entities@.len() ==> final(ecs).entities@[i] == smoke_step_e(
                    #[trigger] old(ecs).entities@[i],
                ),
            world_wf(*final(ecs)),
            forall|i: int|
                0 <= i < old(ecs).entities@.len() ==> {
                    let b = #[trigger] old(ecs).entities@[i];
                    let a = final(ecs).entities@[i];
                    (b.smoke is Some && b.position is Some && b.renderable is Some && !b.doomed
                        && b.renderable->Some_0.o_w >= 1 && b.renderable->Some_0.o_h >= 1
                        && !a.doomed) ==> a.renderable->Some_0.o_w >= 1
                        && a.renderable->Some_0.o_h >= 1
                },
    {
        let ghost s0 = ecs.entities@;
        let n = ecs.entities.len();
        let mut i: usize = 0;
        while i < n
            invariant
                i <= n,
                n == ecs.entities@.len(),
                n == s0.len(),
                ecs.next_id == old(ecs).next_id,
                world_wf(*old(ecs)),
                forall|j: int| 0 <= j < i ==> ecs.entities@[j] == smoke_step_e(#[trigger] s0[j]),
                forall|j: int| i <= j < n ==> ecs.entities@[j] == #[trigger] s0[j],
                forall|j: int| 0 <= j < n ==> entity_wf(#[trigger] ecs.entities@[j]),
                forall|j: int| 0 <= j < n ==> (#[trigger] ecs.entities@[j].id) == s0[j].id,
                s0 == old(ecs).entities@,
                ecs.ids_ok(),
                n_players(ecs.entities@) == n_players(s0),
                n_missiles(ecs.entities@) == n_missiles(s0),
                n_smokes(ecs.entities@) == n_smokes(s0),
            decreases n - i,
        {
            let e = ecs.entities[i];
            match (e.smoke, e.position, e.renderable) {
                (Some(sm), Some(pos), Some(rend)) if !e.doomed => {
                    let sn = sin_milli(pos.rot);
                    let cs = cos_milli(pos.rot);
                    let dx = mul_milli(sm.speed, sn);
                    let dy = mul_milli(sm.speed, cs);
                    let nx = pos.x - dx;
                    let ny = pos.y + dy;
                    let ticking = sm.shrink_time > sm.shrink_speed;
                    let can_shrink = rend.o_w > sm.shrink_factor && rend.o_h > sm.shrink_factor;
                    let new_time: i64 = if ticking {
                        sm.shrink_time - sm.shrink_speed
                    } else {
                        1000
                    };
                    let new_w: u32 = if !ticking && can_shrink {
                        rend.o_w - sm.shrink_factor
                    } else {
                        rend.o_w
                    };
                    let new_h: u32 = if !ticking && can_shrink {
                        rend.o_h - sm.shrink_factor
                    } else {
                        rend.o_h
                    };
                    let gone = !ticking && !can_shrink;
                    let new_speed: i64 = (((sm.speed as u64) * 1000) / (sm.slack as u64)) as i64;
                    proof {
                        lemma_drag_budget(sm.speed as int, sm.slack as int);
                        assert(new_speed == tdiv(sm.speed * 1000, sm.slack as int));
                    }
                    let e2 = Entity {
                        position: Some(Position { x: nx, y: ny, rot: pos.rot }),
                        renderable: Some(Renderable { o_w: new_w, o_h: new_h, ..rend }),
                        smoke: Some(
                            Smoke { speed: new_speed, shrink_time: new_time, ..sm },
                        ),
                        doomed: gone,
                        ..e
                    };
                    proof {
                        let cur = ecs.entities@;
                        lemma_count_update(cur, |e: Entity| e.player is Some, i as int, e2);
                        lemma_count_update(cur, |e: Entity| e.missile is Some, i as int, e2);
                        lemma_count_update(cur, |e: Entity| e.smoke is Some, i as int, e2);
                    }
                    ecs.entities[i] = e2;
                    proof {
                        assert(e2 == smoke_step_e(s0[i as int]));
                    }
                },
                _ => {
                    proof {
                        assert(ecs.entities@[i as int] == smoke_step_e(s0[i as int]));
                    }
                },
            }
            i = i + 1;
        }
    }
}

} // verus!
