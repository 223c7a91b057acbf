//! The per-frame systems: movement, off-screen culling, shooting,
//! collision resolution, ship spawning and the bullet count.

use vstd::prelude::*;
use crate::vec2::{Vec2, Rect, rect_wf};
use crate::components::{Pos, Vel, Bullet, Ship, BULLET_SPEED, SHIP_SPEED, ship_size_spec,
    bullet_size_spec, GEN_CAP};
use crate::world::{World, Bundle, EntityRec, bundle_wf, rec_wf, rec_of, with_ids, remove_ids,
    sorted_ids, vec_in};
use crate::{POS_LIMIT, POS_ROAM, VEL_LIMIT, DT_LIMIT};

verus! {

/// Every position in `s` lies in the square of radius `b`.
pub open spec fn positions_within(s: Seq<EntityRec>, b: i64) -> bool {
    forall|i: int| 0 <= i < s.len()
        ==> (#[trigger] s[i].pos matches Some(p) ==> vec_in(p.0, b))
}

/// One movement step: an entity with both a position and a velocity gains
/// `velocity * dt`; every other entity, and every other component, is left
/// as it is.
pub open spec fn move_rec(r: EntityRec, dt: int) -> EntityRec {
    if r.pos is Some && r.vel is Some {
        let p = (r.pos->0).0;
        let v = (r.vel->0).0;
        EntityRec {
            id: r.id,
            pos: Some(Pos(Vec2 { x: (p.x + v.x * dt) as i64, y: (p.y + v.y * dt) as i64 })),
            vel: r.vel,
            bullet: r.bullet,
            ship: r.ship,
        }
    } else {
        r
    }
}

/// A velocity bounded by `VEL_LIMIT` over a frame bounded by `DT_LIMIT`
/// displaces by at most `VEL_LIMIT * DT_LIMIT`.
proof fn lemma_disp_bound(c: int, dt: int)
    requires
        -(VEL_LIMIT as int) <= c <= VEL_LIMIT as int,
        0 <= dt <= DT_LIMIT as int,
    ensures
        -(VEL_LIMIT as int) * (DT_LIMIT as int) <= c * dt <= (VEL_LIMIT as int) * (DT_LIMIT as int),
{
    assert(-(VEL_LIMIT as int) * (DT_LIMIT as int) <= c * dt
        <= (VEL_LIMIT as int) * (DT_LIMIT as int)) by (nonlinear_arith)
        requires
            -(VEL_LIMIT as int) <= c <= VEL_LIMIT as int,
            0 <= dt <= DT_LIMIT as int;
}

/// Movement: every entity with a position and a velocity advances by
/// exactly `velocity * elapsed_ms`; the store is otherwise untouched.
pub fn move_balls(world: &mut World, elapsed_ms: i64)
    requires
        old(world).wf(),
        positions_within(old(world).ents@, POS_LIMIT),
        0 <= elapsed_ms <= DT_LIMIT,
    ensures
        final(world).ents@ == old(world).ents@.map(
            |i: int, r: EntityRec| move_rec(r, elapsed_ms as int)),
        final(world).next_id == old(world).next_id,
        final(world).wf(),
{
    let ghost orig = world.ents@;
    let n = world.ents.len();
    let mut out: Vec<EntityRec> = Vec::new();
    let mut i: usize = 0;
    while i < n
        invariant
            world.ents@ == orig,
            world.wf(),
            positions_within(orig, POS_LIMIT),
            0 <= elapsed_ms <= DT_LIMIT,
            n == orig.len(),
            i <= n,
            out@.len() == i,
            forall|j: int| 0 <= j < i ==> out@[j] == move_rec(orig[j], elapsed_ms as int),
            forall|j: int| 0 <= j < i ==> (#[trigger] out@[j]).id == orig[j].id,
            forall|j: int| 0 <= j < i ==> rec_wf(#[trigger] out@[j]),
        decreases n - i,
    {
        let r = world.ents[i];
        if r.pos.is_some() && r.vel.is_some() {
            let p = r.pos.unwrap().0;
            let v = r.vel.unwrap().0;
            proof {
                lemma_disp_bound(v.x as int, elapsed_ms as int);
                lemma_disp_bound(v.y as int, elapsed_ms as int);
            }
            let moved = Vec2 { x: p.x + v.x * elapsed_ms, y: p.y + v.y * elapsed_ms };
            let nr = EntityRec {
                id: r.id,
                pos: Some(Pos(moved)),
                vel: r.vel,
                bullet: r.bullet,
                ship: r.ship,
            };
            proof {
                assert(vec_in(moved, POS_ROAM));
                assert(rec_wf(nr));
            }
            out.push(nr);
        } else {
            out.push(r);
        }
        i = i + 1;
    }
    world.ents = out;
    proof {
        assert(world.ents@ =~= orig.map(|j: int, r: EntityRec| move_rec(r, elapsed_ms as int)));
        assert(world.wf());
    }
}

/// Whether an entity survives the off-screen sweep: it has no position, or
/// its position lies in the viewport (inclusive bounds).
pub open spec fn kept_rec(r: EntityRec, rect: Rect) -> bool {
    r.pos matches Some(p) ==> p.0.in_rect_spec(rect)
}

/// The records that survive the off-screen sweep, in order.
pub open spec fn keep_onscreen(s: Seq<EntityRec>, rect: Rect) -> Seq<EntityRec>
    decreases s.len(),
{
    if s.len() == 0 {
        Seq::empty()
    } else {
        keep_onscreen(s.drop_last(), rect) + if kept_rec(s.last(), rect) {
            seq![s.last()]
        } else {
            Seq::<EntityRec>::empty()
        }
    }
}

/// Removing a set of identifiers that lists every off-screen record and no
/// on-screen one keeps exactly the on-screen records.
proof fn lemma_remove_matches_keep(s: Seq<EntityRec>, ids: Seq<u64>, rect: Rect)
    requires
        sorted_ids(s),
        forall|j: int| 0 <= j < s.len() && !kept_rec(#[trigger] s[j], rect)
            ==> ids.contains(s[j].id),
        forall|j: int| 0 <= j < s.len() && kept_rec(#[trigger] s[j], rect)
            ==> !ids.contains(s[j].id),
    ensures
        remove_ids(s, ids) == keep_onscreen(s, rect),
    decreases s.len(),
{
    if s.len() == 0 {
        assert(remove_ids(s, ids) =~= keep_onscreen(s, rect));
    } else {
        let head = s.drop_last();
        assert(forall|j: int| 0 <= j < head.len() ==> head[j] == s[j]);
        lemma_remove_matches_keep(head, ids, rect);
        assert(ids.contains(s.last().id) == !kept_rec(s.last(), rect));
        assert(remove_ids(s, ids) =~= keep_onscreen(s, rect));
    }
}

/// Off-screen culling: scan every positioned entity against the viewport,
/// queue the identifiers of those strictly outside it, and remove them in
/// one bulk call once the scan is done. Entities exactly on the boundary
/// are retained.
pub fn remove_offscreen(world: &mut World, rect: Rect)
    requires
        old(world).wf(),
        rect_wf(rect),
    ensures
        final(world).ents@ == keep_onscreen(old(world).ents@, rect),
        final(world).ents@.len() <= old(world).ents@.len(),
        final(world).next_id == old(world).next_id,
        final(world).wf(),
        positions_within(final(world).ents@, POS_LIMIT),
{
    let ghost orig = world.ents@;
    let n = world.ents.len();
    let mut offscreen: Vec<u64> = Vec::new();
    let mut i: usize = 0;
    while i < n
        invariant
            world.ents@ == orig,
            world.wf(),
            rect_wf(rect),
            n == orig.len(),
            i <= n,
            forall|j: int| 0 <= j < i && !kept_rec(#[trigger] orig[j], rect)
                ==> offscreen@.contains(orig[j].id),
            forall|x: u64| offscreen@.contains(x)
                ==> exists|j: int| 0 <= j < i && (#[trigger] orig[j]).id == x
                    && !kept_rec(orig[j], rect),
        decreases n - i,
    {
        let r = world.ents[i];
        let gone = match r.pos {
            Some(p) => !p.0.in_rect(rect),
            None => false,
        };
        if gone {
            let ghost before = offscreen@;
            offscreen.push(r.id);
            proof {
                assert forall|x: u64| before.contains(x) implies offscreen@.contains(x) by {
                    let w = choose|w: int| 0 <= w < before.len() && before[w] == x;
                    assert(offscreen@[w] == x);
                }
                assert(offscreen@[before.len() as int] == orig[i as int].id);
                assert(offscreen@.contains(orig[i as int].id));
                assert forall|x: u64| offscreen@.contains(x)
                    implies exists|j: int| 0 <= j < i + 1 && (#[trigger] orig[j]).id == x
                        && !kept_rec(orig[j], rect) by {
                    let w = choose|w: int| 0 <= w < offscreen@.len() && offscreen@[w] == x;
                    if w < before.len() {
                        assert(before.contains(x));
                    } else {
                        assert(orig[i as int].id == x && !kept_rec(orig[i as int], rect));
                    }
                }
            }
        }
        i = i + 1;
    }
    proof {
        // No on-screen record's identifier was queued: identifiers are
        // unique, and every queued one belongs to an off-screen record.
        assert forall|j: int| 0 <= j < orig.len() && kept_rec(#[trigger] orig[j], rect)
            implies !offscreen@.contains(orig[j].id) by {
            if offscreen@.contains(orig[j].id) {
                let w = choose|w: int| 0 <= w < n && (#[trigger] orig[w]).id == orig[j].id
                    && !kept_rec(orig[w], rect);
                assert(w != j);
                assert(sorted_ids(orig));
            }
        }
        lemma_remove_matches_keep(orig, offscreen@, rect);
        crate::world::lemma_remove_ids_props(orig, offscreen@);
    }
    world.remove_entities(&offscreen);
    proof {
        lemma_keep_onscreen_within(orig, rect);
    }
}

/// Survivors of the sweep sit inside the viewport, hence inside the
/// `POS_LIMIT` box.
proof fn lemma_keep_onscreen_within(s: Seq<EntityRec>, rect: Rect)
    requires
        rect_wf(rect),
    ensures
        positions_within(keep_onscreen(s, rect), POS_LIMIT),
    decreases s.len(),
{
    if s.len() > 0 {
        lemma_keep_onscreen_within(s.drop_last(), rect);
    }
}

/// The bundle a fired bullet is inserted as: generation 0, at the bottom
/// centre of the viewport, moving straight up at `BULLET_SPEED`.
pub open spec fn bullet_bundle(rect: Rect) -> Bundle {
    Bundle {
        pos: Some(Pos(Vec2 { x: (rect.w as int / 2) as i64, y: (rect.y + rect.h) as i64 })),
        vel: Some(Vel(Vec2 { x: 0, y: (-BULLET_SPEED) as i64 })),
        bullet: Some(Bullet(0)),
        ship: None,
    }
}

/// Firing: inserts exactly one generation-0 bullet at the horizontal centre
/// of the viewport, on its bottom edge, with upward velocity of magnitude
/// `BULLET_SPEED`. Ammunition is the caller's concern.
pub fn shoot_bullet(world: &mut World, rect: Rect)
    requires
        old(world).wf(),
        rect_wf(rect),
        old(world).can_alloc(1),
    ensures
        final(world).ents@ == old(world).ents@.push(
            rec_of(bullet_bundle(rect), old(world).next_id)),
        final(world).next_id == old(world).next_id + 1,
        final(world).wf(),
        positions_within(old(world).ents@, POS_LIMIT)
            ==> positions_within(final(world).ents@, POS_LIMIT),
{
    let ghost orig = world.ents@;
    let pos = Pos(Vec2 { x: rect.w / 2, y: rect.y + rect.h });
    let vel = Vel(Vec2 { x: 0, y: -BULLET_SPEED });
    let mut bundles: Vec<Bundle> = Vec::new();
    bundles.push(Bundle { pos: Some(pos), vel: Some(vel), bullet: Some(Bullet(0)), ship: None });
    proof {
        assert(bundles@ =~= seq![bullet_bundle(rect)]);
    }
    world.append_components(bundles);
    proof {
        assert(world.ents@ =~= orig.push(rec_of(bullet_bundle(rect), old(world).next_id)));
    }
}

/// The number of entities carrying the bullet component.
pub open spec fn count_bullets(s: Seq<EntityRec>) -> int
    decreases s.len(),
{
    if s.len() == 0 {
        0
    } else {
        count_bullets(s.drop_last()) + if s.last().bullet is Some {
            1int
        } else {
            0int
        }
    }
}

pub proof fn lemma_count_bullets_range(s: Seq<EntityRec>)
    ensures
        0 <= count_bullets(s) <= s.len(),
    decreases s.len(),
{
    if s.len() > 0 {
        lemma_count_bullets_range(s.drop_last());
    }
}

/// The number of bullet entities currently stored.
pub fn bullets_on_screen(world: &World) -> (n: usize)
    ensures
        n == count_bullets(world.ents@),
{
    let ghost orig = world.ents@;
    let len = world.ents.len();
    let mut n: usize = 0;
    let mut i: usize = 0;
    while i < len
        invariant
            world.ents@ == orig,
            len == orig.len(),
            i <= len,
            n == count_bullets(orig.take(i as int)),
            n <= i,
        decreases len - i,
    {
        proof {
            assert(orig.take(i as int + 1).drop_last() =~= orig.take(i as int));
            assert(orig.take(i as int + 1).last() == orig[i as int]);
            lemma_count_bullets_range(orig.take(i as int));
        }
        if world.ents[i].bullet.is_some() {
            n = n + 1;
        }
        i = i + 1;
    }
    proof {
        assert(orig.take(len as int) =~= orig);
    }
    n
}

} // verus!

use rand::Rng;

verus! {

/// A ship candidate for collision: it has the ship tag and a position.
pub open spec fn is_ship_rec(r: EntityRec) -> bool {
    r.ship is Some && r.pos is Some
}

/// A bullet candidate for collision: it has the bullet tag and a position.
pub open spec fn is_bullet_rec(r: EntityRec) -> bool {
    r.bullet is Some && r.pos is Some
}

pub open spec fn rec_pos(r: EntityRec) -> Vec2 {
    (r.pos->0).0
}

pub open spec fn rec_gen(r: EntityRec) -> u32 {
    (r.bullet->0).0
}

/// The collision test, inclusive: the distance between ship and bullet is
/// at most the sum of their visual sizes, compared on squares.
pub open spec fn hit(ship: EntityRec, bul: EntityRec, ss: int) -> bool {
    rec_pos(ship).dist_sq_spec(rec_pos(bul))
        <= (bullet_size_spec(rec_gen(bul)) + ss) * (bullet_size_spec(rec_gen(bul)) + ss)
}

/// The collision threshold is inclusive: a ship and a bullet whose distance
/// equals the sum of their visual sizes exactly do collide.
pub proof fn lemma_collision_inclusive(ship: EntityRec, bul: EntityRec, ss: int)
    requires
        rec_pos(ship).dist_sq_spec(rec_pos(bul))
            == (bullet_size_spec(rec_gen(bul)) + ss) * (bullet_size_spec(rec_gen(bul)) + ss),
    ensures
        hit(ship, bul, ss),
{
}

/// The first bullet among `s[0..bi]`, in store order, that hits `ship`.
pub open spec fn first_hit_upto(s: Seq<EntityRec>, ship: EntityRec, ss: int, bi: int) -> Option<int>
    decreases bi,
{
    if bi <= 0 {
        None
    } else if first_hit_upto(s, ship, ss, bi - 1) is Some {
        first_hit_upto(s, ship, ss, bi - 1)
    } else if is_bullet_rec(s[bi - 1]) && hit(ship, s[bi - 1], ss) {
        Some(bi - 1)
    } else {
        None
    }
}

pub open spec fn first_hit(s: Seq<EntityRec>, ship: EntityRec, ss: int) -> Option<int> {
    first_hit_upto(s, ship, ss, s.len() as int)
}

/// The kill event the ship at index `si` contributes: the pair of the ship's
/// index and the index of the first bullet in store order that hits it, if
/// any. A ship is destroyed at most once per pass; other bullets in range of
/// the same ship are left alive and uncredited.
pub open spec fn ship_event(s: Seq<EntityRec>, ss: int, si: int) -> Seq<(int, int)> {
    if is_ship_rec(s[si]) && first_hit(s, s[si], ss) is Some {
        seq![(si, first_hit(s, s[si], ss)->0)]
    } else {
        Seq::empty()
    }
}

/// The kill events of the ships at indices below `si`, in store order.
pub open spec fn events_upto(s: Seq<EntityRec>, ss: int, si: int) -> Seq<(int, int)>
    decreases si,
{
    if si <= 0 {
        Seq::empty()
    } else {
        events_upto(s, ss, si - 1) + ship_event(s, ss, si - 1)
    }
}

/// All kill events of one collision pass over `s`.
pub open spec fn events(s: Seq<EntityRec>, ss: int) -> Seq<(int, int)> {
    events_upto(s, ss, s.len() as int)
}

/// The identifiers a collision pass removes: for each event the ship's and
/// then the bullet's, in event order. One bullet may occur several times
/// when it destroys several ships in the same pass.
pub open spec fn removal_ids(s: Seq<EntityRec>, evs: Seq<(int, int)>) -> Seq<u64>
    decreases evs.len(),
{
    if evs.len() == 0 {
        Seq::empty()
    } else {
        removal_ids(s, evs.drop_last()) + seq![s[evs.last().0].id, s[evs.last().1].id]
    }
}

/// The generation of the children of a destroyed generation-`g` bullet:
/// `g + 1`, capped at `GEN_CAP`.
pub open spec fn next_gen(g: u32) -> u32 {
    if g < GEN_CAP {
        (g + 1) as u32
    } else {
        GEN_CAP
    }
}

/// Generations never decrease down a bullet's line of descendants, and stay
/// clamped at `GEN_CAP`: a child's generation is at least its parent's and
/// at most the cap.
pub proof fn lemma_generation_monotone(g: u32)
    requires
        g <= GEN_CAP,
    ensures
        g <= next_gen(g) <= GEN_CAP,
{
}

/// The ring a destroyed bullet bursts into: `n + 1` bullets of generation
/// `n` at the destroyed bullet's position, the `i`-th moving along ring
/// direction `i` of the table row for `n + 1` — the direction at angle
/// `i * 2*pi / (n + 1)`, scaled to `BULLET_SPEED`.
pub open spec fn burst_bundles(p: Vec2, n: u32, dirs: Seq<Vec<Vec2>>) -> Seq<Bundle> {
    Seq::new((n + 1) as nat, |i: int| Bundle {
        pos: Some(Pos(p)),
        vel: Some(Vel(dirs[n as int + 1]@[i])),
        bullet: Some(Bullet(n)),
        ship: None,
    })
}

/// The bundles a collision pass inserts: the burst of each event's bullet,
/// in event order.
pub open spec fn spawn_bundles(s: Seq<EntityRec>, evs: Seq<(int, int)>, dirs: Seq<Vec<Vec2>>) -> Seq<Bundle>
    decreases evs.len(),
{
    if evs.len() == 0 {
        Seq::empty()
    } else {
        spawn_bundles(s, evs.drop_last(), dirs) + burst_bundles(
            rec_pos(s[evs.last().1]),
            next_gen(rec_gen(s[evs.last().1])),
            dirs,
        )
    }
}

/// A well-formed direction table: row `c`, for `c` in 2..=10, holds the `c`
/// ring directions at angles `i * 2*pi / c`, already scaled to
/// `BULLET_SPEED`, as bounded integer vectors. The trigonometry behind the
/// rows is the caller's: this module only requires the shape and the bound.
pub open spec fn dirs_wf(d: Seq<Vec<Vec2>>) -> bool {
    &&& d.len() == 11
    &&& forall|c: int| 2 <= c <= 10 ==> (#[trigger] d[c])@.len() == c
    &&& forall|c: int, i: int| 2 <= c <= 10 && 0 <= i < c
        ==> vec_in(#[trigger] d[c]@[i], VEL_LIMIT)
}

pub open spec fn collide_events(s: Seq<EntityRec>, rect: Rect) -> Seq<(int, int)> {
    events(s, ship_size_spec(rect.h as int))
}

/// The store a collision pass leaves behind: the survivors of the bulk
/// removal followed by the spawned bursts at fresh identifiers.
pub open spec fn collide_result(s: Seq<EntityRec>, rect: Rect, d: Seq<Vec<Vec2>>, base: u64) -> Seq<EntityRec> {
    remove_ids(s, removal_ids(s, collide_events(s, rect)))
        + with_ids(spawn_bundles(s, collide_events(s, rect), d), base)
}

/// Collision resolution: every ship is checked against every bullet, in
/// store order; the first bullet within the inclusive collision distance of
/// a not-yet-doomed ship destroys it. All removals and all burst spawns are
/// applied in two bulk operations after the full double scan. Returns the
/// number of ships destroyed.
pub fn handle_collision(world: &mut World, rect: Rect, dirs: &Vec<Vec<Vec2>>) -> (destroyed: u32)
    requires
        old(world).wf(),
        positions_within(old(world).ents@, POS_LIMIT),
        rect_wf(rect),
        dirs_wf(dirs@),
        old(world).ents@.len() < 0x1_0000_0000,
        old(world).can_alloc(10 * old(world).ents@.len() as int),
    ensures
        destroyed == collide_events(old(world).ents@, rect).len(),
        destroyed <= old(world).ents@.len(),
        final(world).ents@ == collide_result(old(world).ents@, rect, dirs@, old(world).next_id),
        final(world).next_id == old(world).next_id
            + spawn_bundles(old(world).ents@, collide_events(old(world).ents@, rect), dirs@).len(),
        final(world).wf(),
        positions_within(final(world).ents@, POS_LIMIT),
{
    let ghost orig = world.ents@;
    let ghost ss = ship_size_spec(rect.h as int);
    let ship_size = Ship::size(rect);
    let n = world.ents.len();
    let mut to_remove: Vec<u64> = Vec::new();
    let mut spawn: Vec<Bundle> = Vec::new();
    let mut destroyed: u32 = 0;
    let mut si: usize = 0;
    while si < n
        invariant
            world.ents@ == orig,
            world.wf(),
            positions_within(orig, POS_LIMIT),
            rect_wf(rect),
            dirs_wf(dirs@),
            n == orig.len(),
            n < 0x1_0000_0000,
            si <= n,
            ship_size as int == ss,
            0 <= ship_size <= POS_LIMIT,
            destroyed <= si,
            destroyed == events_upto(orig, ss, si as int).len(),
            to_remove@ == removal_ids(orig, events_upto(orig, ss, si as int)),
            spawn@ == spawn_bundles(orig, events_upto(orig, ss, si as int), dirs@),
            spawn@.len() <= 10 * destroyed,
            forall|k: int| 0 <= k < spawn@.len() ==> bundle_wf(#[trigger] spawn@[k]),
            forall|k: int| 0 <= k < spawn@.len()
                ==> (#[trigger] spawn@[k].pos matches Some(p) ==> vec_in(p.0, POS_LIMIT)),
        decreases n - si,
    {
        let ghost evs0 = events_upto(orig, ss, si as int);
        let shiprec = world.ents[si];
        if shiprec.ship.is_some() && shiprec.pos.is_some() {
            let sp = shiprec.pos.unwrap().0;
            let mut hit_found = false;
            let ghost mut fh: int = 0;
            let mut bi: usize = 0;
            while bi < n
                invariant
                    world.ents@ == orig,
                    world.wf(),
                    positions_within(orig, POS_LIMIT),
                    rect_wf(rect),
                    dirs_wf(dirs@),
                    n == orig.len(),
                    n < 0x1_0000_0000,
                    si < n,
                    bi <= n,
                    ship_size as int == ss,
                    0 <= ship_size <= POS_LIMIT,
                    shiprec == orig[si as int],
                    is_ship_rec(shiprec),
                    sp == rec_pos(shiprec),
                    evs0 == events_upto(orig, ss, si as int),
                    evs0.len() <= si,
                    destroyed <= si + 1,
                    !hit_found ==> {
                        &&& first_hit_upto(orig, shiprec, ss, bi as int) is None
                        &&& destroyed == evs0.len()
                        &&& to_remove@ == removal_ids(orig, evs0)
                        &&& spawn@ == spawn_bundles(orig, evs0, dirs@)
                    },
                    hit_found ==> {
                        &&& first_hit_upto(orig, shiprec, ss, bi as int) == Some(fh)
                        &&& destroyed == evs0.len() + 1
                        &&& to_remove@ == removal_ids(orig, evs0.push((si as int, fh)))
                        &&& spawn@ == spawn_bundles(orig, evs0.push((si as int, fh)), dirs@)
                    },
                    spawn@.len() <= 10 * destroyed,
                    forall|k: int| 0 <= k < spawn@.len() ==> bundle_wf(#[trigger] spawn@[k]),
                    forall|k: int| 0 <= k < spawn@.len()
                        ==> (#[trigger] spawn@[k].pos matches Some(p) ==> vec_in(p.0, POS_LIMIT)),
                decreases n - bi,
            {
                let b = world.ents[bi];
                if b.bullet.is_some() && b.pos.is_some() && !hit_found {
                    let bp = b.pos.unwrap().0;
                    let bullet = b.bullet.unwrap();
                    let bs = bullet.size();
                    let thresh = (bs + ship_size) as i128;
                    proof {
                        assert(0 <= thresh <= 2 * (POS_LIMIT as int));
                        assert(thresh * thresh <= (2 * (POS_LIMIT as int)) * (2 * (POS_LIMIT as int)))
                            by (nonlinear_arith)
                            requires 0 <= thresh <= 2 * (POS_LIMIT as int);
                    }
                    let d2 = sp.dist_sq(bp);
                    if d2 <= thresh * thresh {
                        assert(hit(shiprec, b, ss));
                        hit_found = true;
                        proof {
                            fh = bi as int;
                        }
                        let ghost ev = (si as int, fh);
                        let ghost evs1 = evs0.push(ev);
                        to_remove.push(shiprec.id);
                        to_remove.push(b.id);
                        destroyed = destroyed + 1;
                        let gen = if bullet.0 < GEN_CAP {
                            bullet.0 + 1
                        } else {
                            GEN_CAP
                        };
                        proof {
                            assert(evs1.drop_last() =~= evs0);
                            assert(to_remove@ =~= removal_ids(orig, evs1));
                        }
                        let ghost spawn0 = spawn@;
                        let ghost burst = burst_bundles(bp, gen, dirs@);
                        let count = gen + 1;
                        let row: &Vec<Vec2> = &dirs[count as usize];
                        let mut k: u32 = 0;
                        while k < count
                            invariant
                                dirs_wf(dirs@),
                                positions_within(orig, POS_LIMIT),
                                gen == next_gen(rec_gen(b)),
                                1 <= gen <= GEN_CAP,
                                count == gen + 1,
                                k <= count,
                                row@ == dirs@[count as int]@,
                                row@.len() == count,
                                b == orig[fh],
                                0 <= fh < orig.len(),
                                is_bullet_rec(b),
                                bp == rec_pos(b),
                                vec_in(bp, POS_LIMIT),
                                burst == burst_bundles(bp, gen, dirs@),
                                spawn@ == spawn0 + burst.take(k as int),
                                forall|j: int| 0 <= j < spawn@.len() ==> bundle_wf(#[trigger] spawn@[j]),
                                forall|j: int| 0 <= j < spawn@.len()
                                    ==> (#[trigger] spawn@[j].pos matches Some(p) ==> vec_in(p.0, POS_LIMIT)),
                                spawn@.len() == spawn0.len() + k,
                            decreases count - k,
                        {
                            let nb = Bundle {
                                pos: Some(Pos(bp)),
                                vel: Some(Vel(row[k as usize])),
                                bullet: Some(Bullet(gen)),
                                ship: None,
                            };
                            proof {
                                assert(bundle_wf(nb));
                                assert(burst.take(k as int + 1) =~= burst.take(k as int).push(burst[k as int]));
                            }
                            spawn.push(nb);
                            k = k + 1;
                        }
                        proof {
                            assert(burst.take(count as int) =~= burst);
                            assert(spawn@ =~= spawn_bundles(orig, evs1, dirs@));
                        }
                    }
                }
                bi = bi + 1;
            }
            proof {
                assert(first_hit(orig, shiprec, ss) == first_hit_upto(orig, shiprec, ss, n as int));
                if hit_found {
                    assert(ship_event(orig, ss, si as int) =~= seq![(si as int, fh)]);
                    assert(events_upto(orig, ss, si as int + 1) =~= evs0.push((si as int, fh)));
                } else {
                    assert(ship_event(orig, ss, si as int) =~= Seq::<(int, int)>::empty());
                    assert(events_upto(orig, ss, si as int + 1) =~= evs0);
                }
            }
        } else {
            proof {
                assert(!is_ship_rec(orig[si as int]));
                assert(ship_event(orig, ss, si as int) =~= Seq::<(int, int)>::empty());
                assert(events_upto(orig, ss, si as int + 1) =~= evs0);
            }
        }
        si = si + 1;
    }
    let ghost evs = events_upto(orig, ss, n as int);
    proof {
        assert(evs == collide_events(orig, rect));
    }
    world.remove_entities(&to_remove);
    let ghost base = world.next_id;
    world.append_components(spawn);
    proof {
        crate::world::lemma_remove_ids_props(orig, removal_ids(orig, evs));
        assert forall|j: int| 0 <= j < world.ents@.len()
            implies (#[trigger] world.ents@[j].pos matches Some(p) ==> vec_in(p.0, POS_LIMIT)) by {
            let kept = remove_ids(orig, removal_ids(orig, evs));
            if j < kept.len() {
                assert(orig.contains(kept[j]));
                let w = choose|w: int| 0 <= w < orig.len() && orig[w] == kept[j];
            }
        }
    }
    destroyed
}

} // verus!

verus! {

#[verifier::external_type_specification]
#[verifier::external_body]
pub struct ExThreadRng(rand::rngs::ThreadRng);

/// Relies on rand::thread_rng: a handle to the thread-local generator.
#[verifier::external_body]
fn fresh_rng() -> rand::rngs::ThreadRng {
    rand::thread_rng()
}

/// Relies on rand::Rng::gen_range: a uniform draw from the half-open range
/// [lo, hi); it panics unless lo < hi, so that case is excluded here.
#[verifier::external_body]
fn rng_range(rng: &mut rand::rngs::ThreadRng, lo: i64, hi: i64) -> (r: i64)
    requires
        lo < hi,
    ensures
        lo <= r < hi,
{
    rng.gen_range(lo, hi)
}

/// Relies on rand::Rng::gen at bool: a draw of either truth value; nothing
/// is promised of which.
#[verifier::external_body]
fn rng_bool(rng: &mut rand::rngs::ThreadRng) -> bool {
    rng.gen()
}

/// The bundle one spawned ship is inserted as: at the left or right screen
/// edge at height `y`, moving horizontally inward at `SHIP_SPEED`.
pub open spec fn ship_bundle(side_right: bool, y: i64, rect: Rect) -> Bundle {
    Bundle {
        pos: Some(Pos(Vec2 { x: if side_right { rect.w } else { 0 }, y })),
        vel: Some(Vel(Vec2 { x: if side_right { (-SHIP_SPEED) as i64 } else { SHIP_SPEED }, y: 0 })),
        bullet: None,
        ship: Some(Ship),
    }
}

/// A spawn height in the middle five sevenths of the screen height.
pub open spec fn ship_y_ok(y: i64, rect: Rect) -> bool {
    rect.h as int / 7 <= y < 6 * (rect.h as int) / 7
}

pub open spec fn ship_bundles(sides: Seq<bool>, ys: Seq<i64>, rect: Rect) -> Seq<Bundle> {
    Seq::new(sides.len(), |k: int| ship_bundle(sides[k], ys[k], rect))
}

/// The deterministic core of ship spawning: one ship per drawn (side,
/// height) pair, appended in order at fresh identifiers.
pub fn spawn_ships_with(world: &mut World, rect: Rect, sides: &Vec<bool>, ys: &Vec<i64>)
    requires
        old(world).wf(),
        rect_wf(rect),
        sides@.len() == ys@.len(),
        old(world).can_alloc(sides@.len() as int),
        forall|k: int| 0 <= k < ys@.len() ==> ship_y_ok(#[trigger] ys@[k], rect),
    ensures
        final(world).ents@ == old(world).ents@
            + with_ids(ship_bundles(sides@, ys@, rect), old(world).next_id),
        final(world).next_id == old(world).next_id + sides@.len(),
        final(world).wf(),
        positions_within(old(world).ents@, POS_LIMIT)
            ==> positions_within(final(world).ents@, POS_LIMIT),
{
    let ghost orig = world.ents@;
    let n = sides.len();
    let mut bundles: Vec<Bundle> = Vec::new();
    let mut k: usize = 0;
    while k < n
        invariant
            rect_wf(rect),
            n == sides@.len(),
            n == ys@.len(),
            k <= n,
            forall|j: int| 0 <= j < n ==> ship_y_ok(#[trigger] ys@[j], rect),
            bundles@.len() == k,
            forall|j: int| 0 <= j < k
                ==> bundles@[j] == ship_bundle(sides@[j], ys@[j], rect),
        decreases n - k,
    {
        let side = sides[k];
        let x = if side {
            rect.w
        } else {
            0
        };
        let vx = if side {
            -SHIP_SPEED
        } else {
            SHIP_SPEED
        };
        bundles.push(Bundle {
            pos: Some(Pos(Vec2 { x, y: ys[k] })),
            vel: Some(Vel(Vec2 { x: vx, y: 0 })),
            bullet: None,
            ship: Some(Ship),
        });
        k = k + 1;
    }
    proof {
        assert(bundles@ =~= ship_bundles(sides@, ys@, rect));
        assert forall|j: int| 0 <= j < bundles@.len()
            implies bundle_wf(#[trigger] bundles@[j]) by {
            assert(ship_y_ok(ys@[j], rect));
        }
    }
    world.append_components(bundles);
    proof {
        assert forall|j: int| 0 <= j < world.ents@.len() && positions_within(orig, POS_LIMIT)
            implies (#[trigger] world.ents@[j].pos matches Some(p) ==> vec_in(p.0, POS_LIMIT)) by {
            if j >= orig.len() {
                assert(world.ents@[j] == rec_of(bundles@[j - orig.len()],
                    (old(world).next_id + j - orig.len()) as u64));
                assert(ship_y_ok(ys@[j - orig.len()], rect));
            }
        }
    }
}

/// What holds of every spawn outcome: one to five ships, each from one of
/// the two sides with a height in the middle five sevenths of the screen.
pub open spec fn ships_spawn_ok(sp: Seq<Bundle>, rect: Rect) -> bool {
    &&& 1 <= sp.len() <= 5
    &&& forall|k: int| 0 <= k < sp.len() ==> exists|side: bool, y: i64|
            ship_y_ok(y, rect) && #[trigger] sp[k] == #[trigger] ship_bundle(side, y, rect)
}

/// Ship spawning: draws a count in 1..=5, and for each ship a uniform side
/// and a uniform height in the middle five sevenths of the screen; inserts
/// the ships in one bulk call. The draws are random, so the contract states
/// what holds of every outcome.
pub fn spawn_ships(world: &mut World, rect: Rect)
    requires
        old(world).wf(),
        rect_wf(rect),
        old(world).can_alloc(5),
    ensures
        exists|sp: Seq<Bundle>| {
            &&& ships_spawn_ok(sp, rect)
            &&& final(world).ents@ == old(world).ents@ + with_ids(sp, old(world).next_id)
            &&& final(world).next_id == old(world).next_id + sp.len()
        },
        final(world).wf(),
        positions_within(old(world).ents@, POS_LIMIT)
            ==> positions_within(final(world).ents@, POS_LIMIT),
{
    let mut rng = fresh_rng();
    let count = rng_range(&mut rng, 0, 5) + 1;
    let lo = rect.h / 7;
    let hi = 6 * rect.h / 7;
    proof {
        lemma_band_nonempty(rect.h as int);
    }
    let mut sides: Vec<bool> = Vec::new();
    let mut ys: Vec<i64> = Vec::new();
    let mut k: i64 = 0;
    while k < count
        invariant
            rect_wf(rect),
            1 <= count <= 5,
            0 <= k <= count,
            lo == rect.h as int / 7,
            hi == 6 * (rect.h as int) / 7,
            lo < hi,
            sides@.len() == k,
            ys@.len() == k,
            forall|j: int| 0 <= j < k ==> ship_y_ok(#[trigger] ys@[j], rect),
        decreases count - k,
    {
        let side = rng_bool(&mut rng);
        let y = rng_range(&mut rng, lo, hi);
        sides.push(side);
        ys.push(y);
        k = k + 1;
    }
    spawn_ships_with(world, rect, &sides, &ys);
    proof {
        let sp = ship_bundles(sides@, ys@, rect);
        assert forall|j: int| 0 <= j < sp.len() implies exists|side: bool, y: i64|
            ship_y_ok(y, rect) && #[trigger] sp[j] == #[trigger] ship_bundle(side, y, rect) by {
            assert(ship_y_ok(ys@[j], rect) && sp[j] == ship_bundle(sides@[j], ys@[j], rect));
        }
        assert(ships_spawn_ok(sp, rect));
    }
}

/// For a screen at least seven milli-units tall, the spawn band from one
/// seventh to six sevenths of its height is non-empty.
proof fn lemma_band_nonempty(h: int)
    requires
        7 <= h,
    ensures
        h / 7 < 6 * h / 7,
{
    assert(h / 7 < 6 * h / 7) by (nonlinear_arith)
        requires 7 <= h;
}

/// The burst law: destroying a bullet of generation `g` spawns exactly
/// `min(g + 1, GEN_CAP) + 1` new bullets, each of generation
/// `min(g + 1, GEN_CAP)`, each at the destroyed bullet's position, the
/// `i`-th along ring direction `i` of that fan-out's table row, so the burst
/// covers the whole ring of equally spaced directions exactly once.
pub proof fn lemma_burst_fanout(p: Vec2, g: u32, dirs: Seq<Vec<Vec2>>)
    requires
        dirs_wf(dirs),
    ensures
        ({
            let n = next_gen(g);
            let bs = burst_bundles(p, n, dirs);
            &&& n == if g + 1 <= GEN_CAP { (g + 1) as u32 } else { GEN_CAP }
            &&& bs.len() == n + 1
            &&& forall|i: int| 0 <= i < bs.len() ==> #[trigger] bs[i] == (Bundle {
                pos: Some(Pos(p)),
                vel: Some(Vel(dirs[n as int + 1]@[i])),
                bullet: Some(Bullet(n)),
                ship: None,
            })
        }),
{
}

} // verus!
