//! Behavior of the simulation core: motion integration, the per-frame
//! passes, the lifecycle caps and the world reset.

use asteroids_core::components::{Missile, Player, Position, Renderable, Smoke, TexName, Vec2};
use asteroids_core::game::{fire_missile, load_world, release_smoke, tick, update,
    update_movement};
use asteroids_core::input::KeyState;
use asteroids_core::missile::MissileMover;
use asteroids_core::smoke::SmokeMover;
use asteroids_core::store::EntityStore;

fn plain_renderable(tex: TexName, size: u32) -> Renderable {
    Renderable {
        tex_name: tex,
        i_w: 16,
        i_h: 16,
        o_w: size,
        o_h: size,
        frame: 0,
        total_frames: 1,
        rot: 0,
    }
}

#[test]
fn integration_clamps_speed_along_axis() {
    let mut pos = Position { x: 0, y: 0, rot: 0 };
    let mut pl = Player {
        impulse: Vec2 { x: 4000, y: 0 },
        cur_speed: Vec2 { x: 1000, y: 0 },
    };
    update_movement(&mut pos, &mut pl);
    // friction: 1000 * 95 / 100 = 950; plus impulse: 4950; clamped to 4500.
    assert_eq!(pl.cur_speed, Vec2 { x: 4500, y: 0 });
    assert_eq!(pl.impulse, Vec2 { x: 0, y: 0 });
    assert_eq!(pos.x, 4500);
    assert_eq!(pos.y, 0);
}

#[test]
fn integration_clamps_diagonal_speed_within_epsilon() {
    let mut pos = Position { x: 0, y: 0, rot: 0 };
    let mut pl = Player {
        impulse: Vec2 { x: 20000, y: 20000 },
        cur_speed: Vec2 { x: 0, y: 0 },
    };
    update_movement(&mut pos, &mut pl);
    assert_eq!(pl.cur_speed, Vec2 { x: 3182, y: 3182 });
    let n = pl.cur_speed.x * pl.cur_speed.x + pl.cur_speed.y * pl.cur_speed.y;
    assert!(n <= 4501 * 4501);
}

#[test]
fn integration_below_cap_is_exact() {
    let mut pos = Position { x: 100, y: 200, rot: 123_000 };
    let mut pl = Player {
        impulse: Vec2 { x: 300, y: -400 },
        cur_speed: Vec2 { x: 1000, y: 2000 },
    };
    update_movement(&mut pos, &mut pl);
    assert_eq!(pl.cur_speed, Vec2 { x: 1250, y: 1500 });
    assert_eq!(pos.x, 1350);
    assert_eq!(pos.y, 1700);
    assert_eq!(pos.rot, 123_000);
}

#[test]
fn empty_world_resets_to_initial_state() {
    let mut ecs = EntityStore::new();
    let mut keys = KeyState::none();
    update(&mut ecs, &mut keys);
    assert_eq!(ecs.entities.len(), 2);
    let ship = &ecs.entities[0];
    assert_eq!(ship.position, Some(Position { x: 350_000, y: 250_000, rot: 0 }));
    assert_eq!(
        ship.player,
        Some(Player { impulse: Vec2 { x: 0, y: 0 }, cur_speed: Vec2 { x: 0, y: 0 } })
    );
    let rend = ship.renderable.unwrap();
    assert_eq!(rend.tex_name, TexName::Ship);
    assert_eq!((rend.o_w, rend.o_h), (64, 64));
    let rock = &ecs.entities[1];
    assert_eq!(rock.position, Some(Position { x: 200_000, y: 400_000, rot: 45_000 }));
    let ast = rock.asteroid.unwrap();
    assert_eq!(ast.speed, 2_500);
    assert_eq!(ast.rot_speed, 250);
    assert!(rock.player.is_none());
    assert_eq!(ecs.next_id, 2);
}

#[test]
fn destroying_the_player_triggers_a_full_reset() {
    let mut ecs = EntityStore::new();
    let mut keys = KeyState::none();
    update(&mut ecs, &mut keys);
    // litter the world, then remove the player
    fire_missile(&mut ecs, Position { x: 100_000, y: 100_000, rot: 0 });
    assert!(ecs.destroy(0));
    ecs.apply_deferred();
    assert_eq!(ecs.player_count(), 0);
    tick(&mut ecs, &mut keys);
    assert_eq!(ecs.entities.len(), 2);
    assert_eq!(ecs.player_count(), 1);
    assert_eq!(ecs.entities[0].position, Some(Position { x: 350_000, y: 250_000, rot: 0 }));
    assert!(ecs.entities[1].asteroid.is_some());
}

#[test]
fn turn_keys_rotate_and_normalize() {
    let mut ecs = EntityStore::new();
    let mut keys = KeyState::none();
    update(&mut ecs, &mut keys);
    keys.key_d = true;
    update(&mut ecs, &mut keys);
    let pos = ecs.entities[0].position.unwrap();
    assert_eq!(pos.rot, 357_500);
    assert_eq!(ecs.entities[0].renderable.unwrap().rot, 357_500);
    keys.key_d = false;
    keys.key_a = true;
    update(&mut ecs, &mut keys);
    update(&mut ecs, &mut keys);
    let pos = ecs.entities[0].position.unwrap();
    assert_eq!(pos.rot, 2_500);
    assert!((0..360_000).contains(&pos.rot));
}

#[test]
fn player_position_wraps_at_the_right_edge() {
    let mut ecs = EntityStore::new();
    let id = ecs.create();
    ecs.attach_position(id, Position { x: 799_900, y: 300_000, rot: 0 });
    ecs.attach_renderable(id, plain_renderable(TexName::Ship, 64));
    ecs.attach_player(
        id,
        Player { impulse: Vec2 { x: 300, y: 0 }, cur_speed: Vec2 { x: 0, y: 0 } },
    );
    let mut keys = KeyState::none();
    update(&mut ecs, &mut keys);
    let pos = ecs.entities[0].position.unwrap();
    // velocity 300 milli-units: the next x lands in [0, 300)
    assert_eq!(pos.x, 200);
    assert!(pos.x < 300);
}

#[test]
fn thrust_accumulates_impulse_and_spawns_smoke_at_the_tail() {
    let mut ecs = EntityStore::new();
    let mut keys = KeyState::none();
    update(&mut ecs, &mut keys);
    keys.key_w = true;
    update(&mut ecs, &mut keys);
    // heading 0: thrust is (0, -4000); the ship starts at rest
    let pos = ecs.entities[0].position.unwrap();
    assert_eq!(pos, Position { x: 350_000, y: 246_000, rot: 0 });
    assert_eq!(ecs.smoke_count(), 1);
    let puff = &ecs.entities[2];
    let ppos = puff.position.unwrap();
    // tail: half the drawn height behind the ship, from the pre-motion position
    assert_eq!(ppos.x, 350_000);
    assert_eq!(ppos.y, 282_000);
    assert!((0..360_000).contains(&ppos.rot));
    assert!(ppos.rot < 20_000 || ppos.rot >= 340_000);
}

#[test]
fn smoke_parameters_stay_in_their_ranges() {
    let mut ecs = EntityStore::new();
    for _ in 0..20 {
        release_smoke(&mut ecs, Position { x: 100_000, y: 100_000, rot: 0 });
    }
    assert_eq!(ecs.smoke_count(), 20);
    for e in &ecs.entities {
        let sm = e.smoke.unwrap();
        assert!((4000..5000).contains(&sm.speed));
        assert!((1005..1100).contains(&sm.slack));
        assert_eq!(sm.shrink_time, 1000);
        assert!((300..1000).contains(&sm.shrink_speed));
        assert!(sm.shrink_factor == 2 || sm.shrink_factor == 3);
        let rend = e.renderable.unwrap();
        assert_eq!(rend.o_w, rend.o_h);
        assert!((16..52).contains(&rend.o_w));
        assert_eq!(rend.tex_name, TexName::SmokePuff);
    }
}

#[test]
fn missile_cap_is_ten_thousand() {
    let mut ecs = EntityStore::new();
    let spawn = Position { x: 400_000, y: 300_000, rot: 0 };
    for _ in 0..10_000 {
        assert!(fire_missile(&mut ecs, spawn));
    }
    assert_eq!(ecs.missile_count(), 10_000);
    let len_before = ecs.entities.len();
    // the next spawn request is a no-op
    assert!(!fire_missile(&mut ecs, spawn));
    assert_eq!(ecs.missile_count(), 10_000);
    assert_eq!(ecs.entities.len(), len_before);
}

#[test]
fn smoke_cap_is_sixty_four() {
    let mut ecs = EntityStore::new();
    let spawn = Position { x: 400_000, y: 300_000, rot: 0 };
    for _ in 0..64 {
        assert!(release_smoke(&mut ecs, spawn));
    }
    assert_eq!(ecs.smoke_count(), 64);
    let len_before = ecs.entities.len();
    assert!(!release_smoke(&mut ecs, spawn));
    assert_eq!(ecs.smoke_count(), 64);
    assert_eq!(ecs.entities.len(), len_before);
}

#[test]
fn fired_missile_fields_are_exact() {
    let mut ecs = EntityStore::new();
    assert!(fire_missile(&mut ecs, Position { x: 123_000, y: 45_000, rot: 90_000 }));
    let m = &ecs.entities[0];
    assert_eq!(m.missile, Some(Missile { speed: 6_000 }));
    assert_eq!(m.position, Some(Position { x: 123_000, y: 45_000, rot: 90_000 }));
    let rend = m.renderable.unwrap();
    assert_eq!(rend.tex_name, TexName::MissileShot);
    assert_eq!((rend.i_w, rend.i_h, rend.o_w, rend.o_h), (24, 8, 24, 8));
}

#[test]
fn fire_key_is_edge_triggered() {
    let mut ecs = EntityStore::new();
    let mut keys = KeyState::none();
    update(&mut ecs, &mut keys);
    keys.key_fire = true;
    update(&mut ecs, &mut keys);
    assert_eq!(ecs.missile_count(), 1);
    // the pass consumed the key: holding it adds nothing
    assert!(!keys.key_fire);
    update(&mut ecs, &mut keys);
    update(&mut ecs, &mut keys);
    assert_eq!(ecs.missile_count(), 1);
}

#[test]
fn missile_spawns_at_player_turned_half_around() {
    let mut ecs = EntityStore::new();
    let mut keys = KeyState::none();
    update(&mut ecs, &mut keys);
    keys.key_fire = true;
    update(&mut ecs, &mut keys);
    let m = &ecs.entities[2];
    let pos = m.position.unwrap();
    assert_eq!(pos, Position { x: 350_000, y: 250_000, rot: 180_000 });
}

#[test]
fn missile_advances_along_heading_and_offsets_sprite() {
    let mut ecs = EntityStore::new();
    assert!(fire_missile(&mut ecs, Position { x: 400_000, y: 300_000, rot: 90_000 }));
    let mut mover = MissileMover;
    mover.run(&mut ecs);
    let m = &ecs.entities[0];
    assert_eq!(m.position, Some(Position { x: 406_000, y: 300_000, rot: 90_000 }));
    assert_eq!(m.renderable.unwrap().rot, 0);
    assert!(!m.doomed);
}

#[test]
fn missile_leaving_the_world_is_destroyed() {
    let mut ecs = EntityStore::new();
    assert!(fire_missile(&mut ecs, Position { x: 799_000, y: 300_000, rot: 90_000 }));
    assert!(fire_missile(&mut ecs, Position { x: 400_000, y: 1_000, rot: 0 }));
    let mut mover = MissileMover;
    mover.run(&mut ecs);
    // x: 799000 + 6000 = 805000 > 800000: scheduled for deletion
    assert!(ecs.entities[0].doomed);
    // y: 1000 - 6000 * cos 0 = -5000 < 0: scheduled for deletion
    assert!(ecs.entities[1].doomed);
    ecs.apply_deferred();
    assert_eq!(ecs.missile_count(), 0);
}

#[test]
fn smoke_drifts_shrinks_and_drags() {
    let mut ecs = EntityStore::new();
    let id = ecs.create();
    ecs.attach_position(id, Position { x: 100_000, y: 100_000, rot: 90_000 });
    ecs.attach_renderable(id, plain_renderable(TexName::SmokePuff, 10));
    ecs.attach_smoke(
        id,
        Smoke { speed: 4_000, slack: 1_005, shrink_time: 300, shrink_speed: 500, shrink_factor: 2 },
    );
    let mut mover = SmokeMover;
    mover.run(&mut ecs);
    let e = &ecs.entities[0];
    // drift: opposite the heading (sin 90 = 1)
    assert_eq!(e.position, Some(Position { x: 96_000, y: 100_000, rot: 90_000 }));
    // the timer ran out and both dimensions exceed the factor: shrink, reset
    let rend = e.renderable.unwrap();
    assert_eq!((rend.o_w, rend.o_h), (8, 8));
    let sm = e.smoke.unwrap();
    assert_eq!(sm.shrink_time, 1000);
    // drag: 4000 * 1000 / 1005 = 3980
    assert_eq!(sm.speed, 3980);
    assert!(!e.doomed);
}

#[test]
fn smoke_too_small_to_shrink_is_destroyed() {
    let mut ecs = EntityStore::new();
    let id = ecs.create();
    ecs.attach_position(id, Position { x: 100_000, y: 100_000, rot: 0 });
    ecs.attach_renderable(id, plain_renderable(TexName::SmokePuff, 2));
    ecs.attach_smoke(
        id,
        Smoke { speed: 4_000, slack: 1_005, shrink_time: 300, shrink_speed: 500, shrink_factor: 2 },
    );
    let mut mover = SmokeMover;
    mover.run(&mut ecs);
    // dimensions would drop to zero: destroyed instead of shrunk
    assert!(ecs.entities[0].doomed);
    let rend = ecs.entities[0].renderable.unwrap();
    assert!(rend.o_w >= 1 && rend.o_h >= 1);
    ecs.apply_deferred();
    assert_eq!(ecs.smoke_count(), 0);
}

#[test]
fn smoke_timer_ticks_before_shrinking() {
    let mut ecs = EntityStore::new();
    let id = ecs.create();
    ecs.attach_position(id, Position { x: 100_000, y: 100_000, rot: 0 });
    ecs.attach_renderable(id, plain_renderable(TexName::SmokePuff, 20));
    ecs.attach_smoke(
        id,
        Smoke {
            speed: 4_000,
            slack: 1_100,
            shrink_time: 1_000,
            shrink_speed: 300,
            shrink_factor: 3,
        },
    );
    let mut mover = SmokeMover;
    mover.run(&mut ecs);
    let sm = ecs.entities[0].smoke.unwrap();
    assert_eq!(sm.shrink_time, 700);
    let rend = ecs.entities[0].renderable.unwrap();
    assert_eq!((rend.o_w, rend.o_h), (20, 20));
    assert_eq!(sm.speed, 3_636);
}

#[test]
fn tick_applies_deferred_deletions() {
    let mut ecs = EntityStore::new();
    let mut keys = KeyState::none();
    update(&mut ecs, &mut keys);
    assert!(fire_missile(&mut ecs, Position { x: 799_000, y: 300_000, rot: 90_000 }));
    tick(&mut ecs, &mut keys);
    // the missile left the world during the tick and is gone afterward
    assert_eq!(ecs.missile_count(), 0);
    for e in &ecs.entities {
        assert!(!e.doomed);
    }
    assert_eq!(ecs.player_count(), 1);
}

#[test]
fn load_world_appends_the_initial_pair() {
    let mut ecs = EntityStore::new();
    load_world(&mut ecs);
    assert_eq!(ecs.entities.len(), 2);
    assert_eq!(ecs.next_id, 2);
    assert!(ecs.entities[0].player.is_some());
    assert!(ecs.entities[1].asteroid.is_some());
}

#[test]
fn store_attach_get_and_stale_destroy() {
    let mut ecs = EntityStore::new();
    let id = ecs.create();
    assert_eq!(id, 0);
    assert!(ecs.attach_missile(id, Missile { speed: 6_000 }));
    assert_eq!(ecs.get_missile(id), Some(Missile { speed: 6_000 }));
    assert_eq!(ecs.get_position(id), None);
    // attaching to an absent entity reports failure
    assert!(!ecs.attach_missile(99, Missile { speed: 1 }));
    assert_eq!(ecs.get_missile(99), None);
    // destruction is deferred: the entity stays until the batch step
    assert!(ecs.destroy(id));
    assert_eq!(ecs.missile_count(), 1);
    ecs.apply_deferred();
    assert_eq!(ecs.missile_count(), 0);
    // a stale deletion is ignored, not escalated
    assert!(!ecs.destroy(id));
}

#[test]
fn drawables_pairs_position_with_renderable() {
    let mut ecs = EntityStore::new();
    let mut keys = KeyState::none();
    update(&mut ecs, &mut keys);
    let bare = ecs.create();
    ecs.attach_position(bare, Position { x: 1, y: 2, rot: 3 });
    // the bare entity has no renderable and is not handed to rendering
    let pairs = ecs.drawables();
    assert_eq!(pairs.len(), 2);
    assert_eq!(pairs[0].0, Position { x: 350_000, y: 250_000, rot: 0 });
    assert_eq!(pairs[1].1.tex_name, TexName::Rock);
}

#[test]
fn identifiers_are_never_reused() {
    let mut ecs = EntityStore::new();
    let a = ecs.create();
    let b = ecs.create();
    assert!(ecs.destroy(a));
    ecs.apply_deferred();
    let c = ecs.create();
    assert_eq!((a, b, c), (0, 1, 2));
}
