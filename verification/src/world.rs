//! The entity store: an index-based arena of entity records.
//!
//! An entity is a `u64` identifier; its components sit in one record. The
//! store appends whole bundles of components at freshly allocated
//! identifiers and removes entities by identifier in bulk, duplicates and
//! absent identifiers tolerated. Records keep strictly increasing
//! identifiers, so identifiers never repeat and iteration order is stable.

use vstd::prelude::*;
use crate::vec2::Vec2;
use crate::components::{Pos, Vel, Bullet, Ship, GEN_CAP};
use crate::{POS_ROAM, VEL_LIMIT};

verus! {

/// One new entity's full component set, before an identifier is assigned.
#[derive(Clone, Copy, PartialEq, Eq, Debug)]
pub struct Bundle {
    pub pos: Option<Pos>,
    pub vel: Option<Vel>,
    pub bullet: Option<Bullet>,
    pub ship: Option<Ship>,
}

/// A stored entity: an identifier and its components.
#[derive(Clone, Copy, PartialEq, Eq, Debug)]
pub struct EntityRec {
    pub id: u64,
    pub pos: Option<Pos>,
    pub vel: Option<Vel>,
    pub bullet: Option<Bullet>,
    pub ship: Option<Ship>,
}

pub open spec fn vec_in(v: Vec2, bound: i64) -> bool {
    &&& -bound <= v.x <= bound
    &&& -bound <= v.y <= bound
}

/// The component constraints every stored entity obeys: coordinates inside
/// the roaming box, bounded velocity, a capped bullet generation, and never
/// both tags at once.
pub open spec fn parts_wf(
    pos: Option<Pos>,
    vel: Option<Vel>,
    bullet: Option<Bullet>,
    ship: Option<Ship>,
) -> bool {
    &&& (pos matches Some(p) ==> vec_in(p.0, POS_ROAM))
    &&& (vel matches Some(v) ==> vec_in(v.0, VEL_LIMIT))
    &&& (bullet matches Some(b) ==> b.0 <= GEN_CAP)
    &&& !(bullet is Some && ship is Some)
}

pub open spec fn bundle_wf(b: Bundle) -> bool {
    parts_wf(b.pos, b.vel, b.bullet, b.ship)
}

pub open spec fn rec_wf(r: EntityRec) -> bool {
    parts_wf(r.pos, r.vel, r.bullet, r.ship)
}

/// The record a bundle becomes at identifier `id`.
pub open spec fn rec_of(b: Bundle, id: u64) -> EntityRec {
    EntityRec { id, pos: b.pos, vel: b.vel, bullet: b.bullet, ship: b.ship }
}

/// The records a bundle sequence becomes at identifiers `base`, `base + 1`, ...
pub open spec fn with_ids(bs: Seq<Bundle>, base: u64) -> Seq<EntityRec> {
    Seq::new(bs.len(), |k: int| rec_of(bs[k], (base + k) as u64))
}

/// Identifiers strictly increase along the store.
pub open spec fn sorted_ids(s: Seq<EntityRec>) -> bool {
    forall|i: int, j: int| 0 <= i < j < s.len() ==> s[i].id < s[j].id
}

/// The records that survive a bulk removal: those whose identifier is not
/// listed. Only membership in `ids` matters, so duplicate and absent
/// identifiers are harmless.
pub open spec fn remove_ids(s: Seq<EntityRec>, ids: Seq<u64>) -> Seq<EntityRec>
    decreases s.len(),
{
    if s.len() == 0 {
        Seq::empty()
    } else {
        remove_ids(s.drop_last(), ids) + if ids.contains(s.last().id) {
            Seq::<EntityRec>::empty()
        } else {
            seq![s.last()]
        }
    }
}

/// The entity store.
#[derive(Clone, PartialEq, Eq, Debug)]
pub struct World {
    /// The next identifier to hand out; larger than every stored one.
    pub next_id: u64,
    /// The stored entities, in increasing identifier order.
    pub ents: Vec<EntityRec>,
}

impl World {
    pub open spec fn wf(self) -> bool {
        &&& sorted_ids(self.ents@)
        &&& forall|i: int| 0 <= i < self.ents@.len() ==> self.ents@[i].id < self.next_id
        &&& forall|i: int| 0 <= i < self.ents@.len() ==> rec_wf(#[trigger] self.ents@[i])
    }

    /// Room to allocate `n` more identifiers.
    pub open spec fn can_alloc(self, n: int) -> bool {
        self.next_id + n <= u64::MAX
    }

    pub fn new() -> (w: World)
        ensures
            w.ents@ == Seq::<EntityRec>::empty(),
            w.next_id == 0,
            w.wf(),
    {
        World { next_id: 0, ents: Vec::new() }
    }

    /// Bulk insert: each bundle becomes one new entity at a fresh
    /// identifier, appended in order.
    pub fn append_components(&mut self, bundles: Vec<Bundle>)
        requires
            old(self).wf(),
            old(self).can_alloc(bundles@.len() as int),
            forall|k: int| 0 <= k < bundles@.len() ==> bundle_wf(#[trigger] bundles@[k]),
        ensures
            final(self).ents@ == old(self).ents@ + with_ids(bundles@, old(self).next_id),
            final(self).next_id == old(self).next_id + bundles@.len(),
            final(self).wf(),
    {
        let ghost orig = self.ents@;
        let ghost base = self.next_id;
        let n = bundles.len();
        let mut k: usize = 0;
        while k < n
            invariant
                n == bundles@.len(),
                k <= n,
                self.next_id == base + k,
                base + n <= u64::MAX,
                self.ents@.len() == orig.len() + k,
                forall|i: int| 0 <= i < orig.len() ==> self.ents@[i] == orig[i],
                forall|j: int| 0 <= j < k
                    ==> self.ents@[orig.len() + j] == rec_of(bundles@[j], (base + j) as u64),
            decreases n - k,
        {
            let b = bundles[k];
            let rec = EntityRec {
                id: self.next_id,
                pos: b.pos,
                vel: b.vel,
                bullet: b.bullet,
                ship: b.ship,
            };
            self.ents.push(rec);
            self.next_id = self.next_id + 1;
            k = k + 1;
        }
        proof {
            assert(self.ents@ =~= orig + with_ids(bundles@, base));
        }
    }

    /// Bulk removal by identifier. Duplicates in `ids`, and identifiers
    /// that are absent or already removed, are no-ops.
    pub fn remove_entities(&mut self, ids: &Vec<u64>)
        requires
            old(self).wf(),
        ensures
            final(self).ents@ == remove_ids(old(self).ents@, ids@),
            final(self).next_id == old(self).next_id,
            final(self).wf(),
    {
        let ghost orig = self.ents@;
        let n = self.ents.len();
        let mut out: Vec<EntityRec> = Vec::new();
        let mut i: usize = 0;
        while i < n
            invariant
                n == orig.len(),
                i <= n,
                self.ents@ == orig,
                out@ == remove_ids(orig.take(i as int), ids@),
            decreases n - i,
        {
            let r = self.ents[i];
            proof {
                assert(orig.take(i as int + 1).drop_last() =~= orig.take(i as int));
                assert(orig.take(i as int + 1).last() == orig[i as int]);
            }
            if !id_in(ids, r.id) {
                out.push(r);
            }
            proof {
                assert(out@ =~= remove_ids(orig.take(i as int + 1), ids@));
            }
            i = i + 1;
        }
        proof {
            assert(orig.take(n as int) =~= orig);
            lemma_remove_ids_props(orig, ids@);
        }
        self.ents = out;
    }
}

/// Whether an identifier occurs in a list.
pub fn id_in(ids: &Vec<u64>, x: u64) -> (b: bool)
    ensures
        b == ids@.contains(x),
{
    let n = ids.len();
    let mut i: usize = 0;
    while i < n
        invariant
            n == ids@.len(),
            i <= n,
            forall|j: int| 0 <= j < i ==> ids@[j] != x,
        decreases n - i,
    {
        if ids[i] == x {
            return true;
        }
        i = i + 1;
    }
    false
}

/// What a bulk removal keeps: every kept record was stored, no more records
/// than before, and increasing identifier order is preserved.
pub proof fn lemma_remove_ids_props(s: Seq<EntityRec>, ids: Seq<u64>)
    ensures
        forall|j: int| 0 <= j < remove_ids(s, ids).len() ==> s.contains(#[trigger] remove_ids(s, ids)[j]),
        remove_ids(s, ids).len() <= s.len(),
        sorted_ids(s) ==> sorted_ids(remove_ids(s, ids)),
        forall|j: int| 0 <= j < remove_ids(s, ids).len()
            ==> !ids.contains(#[trigger] remove_ids(s, ids)[j].id),
    decreases s.len(),
{
    if s.len() == 0 {
    } else {
        let head = s.drop_last();
        lemma_remove_ids_props(head, ids);
        assert(forall|j: int| 0 <= j < head.len() ==> head[j] == s[j]);
        assert(forall|j: int| 0 <= j < remove_ids(head, ids).len()
            ==> s.contains(#[trigger] remove_ids(head, ids)[j])) by {
            assert forall|j: int| 0 <= j < remove_ids(head, ids).len()
                implies s.contains(#[trigger] remove_ids(head, ids)[j]) by {
                let r = remove_ids(head, ids)[j];
                assert(head.contains(r));
                let w = choose|w: int| 0 <= w < head.len() && head[w] == r;
                assert(s[w] == r);
            }
        }
        if sorted_ids(s) {
            assert forall|i: int, j: int|
                0 <= i < j < remove_ids(s, ids).len()
                implies remove_ids(s, ids)[i].id < remove_ids(s, ids)[j].id by {
                let res = remove_ids(s, ids);
                let pre = remove_ids(head, ids);
                if j < pre.len() {
                    assert(sorted_ids(pre));
                } else {
                    // res[j] is s.last(); res[i] sits in the prefix, whose
                    // records all come from head and carry smaller ids.
                    assert(res[i] == pre[i]);
                    assert(head.contains(pre[i]));
                    let w = choose|w: int| 0 <= w < head.len() && head[w] == pre[i];
                    assert(s[w].id < s.last().id);
                }
            }
        }
    }
}

/// A bulk removal depends only on which identifiers are listed, not on how
/// often: lists with the same members remove the same records.
pub proof fn lemma_remove_ids_same_members(s: Seq<EntityRec>, ids1: Seq<u64>, ids2: Seq<u64>)
    requires
        forall|x: u64| ids1.contains(x) == ids2.contains(x),
    ensures
        remove_ids(s, ids1) == remove_ids(s, ids2),
    decreases s.len(),
{
    if s.len() == 0 {
        assert(remove_ids(s, ids1) =~= remove_ids(s, ids2));
    } else {
        lemma_remove_ids_same_members(s.drop_last(), ids1, ids2);
        assert(ids1.contains(s.last().id) == ids2.contains(s.last().id));
    }
}

/// Removing the same identifiers a second time changes nothing.
pub proof fn lemma_remove_ids_idempotent(s: Seq<EntityRec>, ids: Seq<u64>)
    ensures
        remove_ids(remove_ids(s, ids), ids) == remove_ids(s, ids),
{
    lemma_remove_ids_props(s, ids);
    lemma_remove_ids_absent(remove_ids(s, ids), ids);
}

/// Removing identifiers that no stored record carries leaves the store
/// unchanged; in particular a never-inserted identifier is a no-op.
pub proof fn lemma_remove_ids_absent(s: Seq<EntityRec>, ids: Seq<u64>)
    requires
        forall|j: int| 0 <= j < s.len() ==> !ids.contains(#[trigger] s[j].id),
    ensures
        remove_ids(s, ids) == s,
    decreases s.len(),
{
    if s.len() == 0 {
        assert(remove_ids(s, ids) =~= s);
    } else {
        let head = s.drop_last();
        assert(forall|j: int| 0 <= j < head.len() ==> head[j] == s[j]);
        lemma_remove_ids_absent(head, ids);
        assert(!ids.contains(s.last().id));
        assert(remove_ids(s, ids) =~= s);
    }
}

} // verus!
