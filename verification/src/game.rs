//! The game loop state: ammunition, the destroyed-ship counter, the ship
//! spawn timer, and the frame step that runs the systems in order.

use vstd::prelude::*;
use crate::vec2::{Vec2, Rect, rect_wf};
use crate::world::{World, Bundle, EntityRec, with_ids, rec_of, remove_ids};
use crate::systems::{
    move_balls, remove_offscreen, handle_collision, shoot_bullet, spawn_ships,
    bullets_on_screen, positions_within, move_rec, keep_onscreen, collide_events,
    removal_ids, spawn_bundles, count_bullets, bullet_bundle, ships_spawn_ok, dirs_wf,
};
use crate::{POS_LIMIT, DT_LIMIT};

verus! {

/// Ships spawn whenever more than this many milliseconds have passed since
/// the last spawn.
pub const SHIP_SPAWN_INTERVAL_MS: i64 = 750;

/// The ammunition a fresh game starts with.
pub const INITIAL_BULLETS: u32 = 10;

/// What one frame makes of a store once any spawning is done: the entities
/// after movement by `dt`, the off-screen sweep and the collision pass (as
/// a sequence, together with the next fresh identifier), and the number of
/// ships the pass destroyed.
pub open spec fn frame_result(
    s: Seq<EntityRec>,
    base: u64,
    dt: int,
    rect: Rect,
    d: Seq<Vec<Vec2>>,
) -> (Seq<EntityRec>, u64, int) {
    let moved = s.map(|i: int, r: EntityRec| move_rec(r, dt));
    let kept = keep_onscreen(moved, rect);
    let evs = collide_events(kept, rect);
    let spawned = spawn_bundles(kept, evs, d);
    (
        remove_ids(kept, removal_ids(kept, evs)) + with_ids(spawned, base),
        (base + spawned.len()) as u64,
        evs.len() as int,
    )
}

/// The running game: the store plus the loop counters.
pub struct GameState {
    pub world: World,
    pub bullets_left: u32,
    pub ships_destroyed: u32,
    /// Milliseconds accumulated since the last ship spawn.
    pub since_spawn_ms: i64,
}

impl GameState {
    pub open spec fn wf(self) -> bool {
        &&& self.world.wf()
        &&& positions_within(self.world.ents@, POS_LIMIT)
        &&& 0 <= self.since_spawn_ms <= SHIP_SPAWN_INTERVAL_MS
    }

    /// Room in the counters for one frame over a viewport that can spawn at
    /// most five ships, each of whose kills bursts into at most ten bullets.
    pub open spec fn tick_room(self) -> bool {
        &&& self.world.ents@.len() + 5 < 0x1_0000_0000
        &&& self.ships_destroyed + self.world.ents@.len() + 5 <= u32::MAX
        &&& self.world.next_id + 5 + 10 * (self.world.ents@.len() + 5) <= u64::MAX
    }

    pub fn new(bullets_left: u32) -> (g: GameState)
        ensures
            g.world.ents@ == Seq::<EntityRec>::empty(),
            g.world.next_id == 0,
            g.bullets_left == bullets_left,
            g.ships_destroyed == 0,
            g.since_spawn_ms == 0,
            g.wf(),
    {
        GameState {
            world: World::new(),
            bullets_left,
            ships_destroyed: 0,
            since_spawn_ms: 0,
        }
    }

    /// The fire action: if any ammunition is left, spend one unit and fire
    /// one bullet; with none left, nothing happens.
    pub fn fire(&mut self, rect: Rect)
        requires
            old(self).wf(),
            rect_wf(rect),
            old(self).world.can_alloc(1),
        ensures
            final(self).wf(),
            old(self).bullets_left > 0 ==> {
                &&& final(self).bullets_left == old(self).bullets_left - 1
                &&& final(self).world.ents@ == old(self).world.ents@.push(
                    rec_of(bullet_bundle(rect), old(self).world.next_id))
                &&& final(self).world.next_id == old(self).world.next_id + 1
            },
            old(self).bullets_left == 0 ==> *final(self) == *old(self),
            final(self).ships_destroyed == old(self).ships_destroyed,
            final(self).since_spawn_ms == old(self).since_spawn_ms,
    {
        if self.bullets_left > 0 {
            shoot_bullet(&mut self.world, rect);
            self.bullets_left = self.bullets_left - 1;
        }
    }

    /// One frame: spawn ships if the spawn interval has elapsed, then move
    /// every entity, sweep off-screen ones, and resolve collisions; finally
    /// report whether the game is over — no ammunition left and no bullet
    /// still in flight.
    pub fn tick(&mut self, elapsed_ms: i64, rect: Rect, dirs: &Vec<Vec<Vec2>>) -> (done: bool)
        requires
            old(self).wf(),
            rect_wf(rect),
            dirs_wf(dirs@),
            0 <= elapsed_ms <= DT_LIMIT,
            old(self).tick_room(),
        ensures
            final(self).wf(),
            final(self).bullets_left == old(self).bullets_left,
            done == (final(self).bullets_left == 0 && count_bullets(final(self).world.ents@) == 0),
            old(self).since_spawn_ms + elapsed_ms <= SHIP_SPAWN_INTERVAL_MS ==> ({
                let fr = frame_result(old(self).world.ents@, old(self).world.next_id,
                    elapsed_ms as int, rect, dirs@);
                &&& final(self).since_spawn_ms == old(self).since_spawn_ms + elapsed_ms
                &&& final(self).world.ents@ == fr.0
                &&& final(self).world.next_id == fr.1
                &&& final(self).ships_destroyed == old(self).ships_destroyed + fr.2
            }),
            old(self).since_spawn_ms + elapsed_ms > SHIP_SPAWN_INTERVAL_MS ==> ({
                &&& final(self).since_spawn_ms == 0
                &&& exists|sp: Seq<Bundle>| ({
                    let fr = frame_result(
                        old(self).world.ents@ + with_ids(sp, old(self).world.next_id),
                        (old(self).world.next_id + sp.len()) as u64,
                        elapsed_ms as int, rect, dirs@);
                    &&& #[trigger] ships_spawn_ok(sp, rect)
                    &&& final(self).world.ents@ == fr.0
                    &&& final(self).world.next_id == fr.1
                    &&& final(self).ships_destroyed == old(self).ships_destroyed + fr.2
                })
            }),
    {
        let ghost orig = self.world.ents@;
        let ghost orig_base = self.world.next_id;
        let spawn_now = self.since_spawn_ms + elapsed_ms > SHIP_SPAWN_INTERVAL_MS;
        if spawn_now {
            spawn_ships(&mut self.world, rect);
            self.since_spawn_ms = 0;
        } else {
            self.since_spawn_ms = self.since_spawn_ms + elapsed_ms;
        }
        let ghost mid = self.world.ents@;
        let ghost mid_base = self.world.next_id;
        proof {
            assert(mid.len() <= orig.len() + 5);
        }
        move_balls(&mut self.world, elapsed_ms);
        remove_offscreen(&mut self.world, rect);
        let d = handle_collision(&mut self.world, rect, dirs);
        self.ships_destroyed = self.ships_destroyed + d;
        proof {
            let fr = frame_result(mid, mid_base, elapsed_ms as int, rect, dirs@);
            assert(self.world.ents@ == fr.0);
            assert(self.world.next_id == fr.1);
            if spawn_now {
                let sp = choose|sp: Seq<Bundle>| {
                    &&& ships_spawn_ok(sp, rect)
                    &&& mid == orig + with_ids(sp, orig_base)
                    &&& mid_base == orig_base + sp.len()
                };
                assert(ships_spawn_ok(sp, rect)
                    && mid == orig + with_ids(sp, orig_base)
                    && mid_base == orig_base + sp.len());
            }
        }
        let bullets = bullets_on_screen(&self.world);
        self.bullets_left == 0 && bullets == 0
    }
}

} // verus!
