//! The entity store: an arena of opaque identifiers with typed, optional
//! attribute records per entity.
//!
//! Destruction is deferred: `destroy` only marks an entity, and the mark is
//! invisible to in-progress passes until `apply_deferred` removes the marked
//! entities in one batch. This lets a pass iterate safely while scheduling
//! deletions.

use vstd::prelude::*;
use crate::components::{Asteroid, Missile, Player, Position, Renderable, Smoke};

verus! {

/// One entity: an identifier, the deferred-deletion mark, and one optional
/// record per attribute kind.
#[derive(Clone, Copy, Debug)]
pub struct Entity {
    pub id: u64,
    pub doomed: bool,
    pub position: Option<Position>,
    pub renderable: Option<Renderable>,
    pub player: Option<Player>,
    pub asteroid: Option<Asteroid>,
    pub missile: Option<Missile>,
    pub smoke: Option<Smoke>,
}

/// A fresh entity carrying no attributes.
pub open spec fn blank_entity(id: u64) -> Entity {
    Entity {
        id: id,
        doomed: false,
        position: None,
        renderable: None,
        player: None,
        asteroid: None,
        missile: None,
        smoke: None,
    }
}

/// How many entities of a sequence satisfy a predicate.
pub open spec fn count_if(s: Seq<Entity>, p: spec_fn(Entity) -> bool) -> int {
    s.filter(p).len() as int
}

/// How many entities carry a player record.
pub open spec fn n_players(s: Seq<Entity>) -> int {
    count_if(s, |e: Entity| e.player is Some)
}

/// How many entities carry a missile record.
pub open spec fn n_missiles(s: Seq<Entity>) -> int {
    count_if(s, |e: Entity| e.missile is Some)
}

/// How many entities carry a smoke record.
pub open spec fn n_smokes(s: Seq<Entity>) -> int {
    count_if(s, |e: Entity| e.smoke is Some)
}

/// The pairs rendering reads: position and renderable of every entity that
/// carries both, in arena order.
pub open spec fn draw_s(s: Seq<Entity>) -> Seq<(Position, Renderable)>
    decreases s.len(),
{
    if s.len() == 0 {
        Seq::empty()
    } else {
        let d = draw_s(s.drop_last());
        let e = s.last();
        if e.position is Some && e.renderable is Some {
            d.push((e.position->Some_0, e.renderable->Some_0))
        } else {
            d
        }
    }
}

/// Taking one more element appends it at the end.
proof fn lemma_take_step(s: Seq<Entity>, i: int)
    requires
        0 <= i < s.len(),
    ensures
        s.take(i + 1).drop_last() == s.take(i),
        s.take(i + 1).last() == s[i],
{
    assert(s.take(i + 1).drop_last() =~= s.take(i));
}

/// Filtering a prefix grows by at most the one element the prefix gains.
pub proof fn lemma_filter_take_step(s: Seq<Entity>, p: spec_fn(Entity) -> bool, i: int)
    requires
        0 <= i < s.len(),
    ensures
        s.take(i + 1).filter(p) == if p(s[i]) {
            s.take(i).filter(p).push(s[i])
        } else {
            s.take(i).filter(p)
        },
{
    lemma_take_step(s, i);
    reveal(Seq::filter);
}

/// A full take is the sequence itself.
pub proof fn lemma_take_all(s: Seq<Entity>)
    ensures
        s.take(s.len() as int) == s,
{
    assert(s.take(s.len() as int) =~= s);
}

/// Appending one entity changes a count by one or not at all.
pub proof fn lemma_count_push(s: Seq<Entity>, p: spec_fn(Entity) -> bool, e: Entity)
    ensures
        count_if(s.push(e), p) == count_if(s, p) + if p(e) {
            1int
        } else {
            0int
        },
{
    assert(s.push(e).drop_last() =~= s);
    assert(s.push(e).last() == e);
    reveal(Seq::filter);
}

/// Replacing an entity by one that keeps the same attribute presence keeps
/// every count: shown for the prefix orders used by in-place passes.
pub proof fn lemma_count_update(s: Seq<Entity>, p: spec_fn(Entity) -> bool, i: int, e: Entity)
    requires
        0 <= i < s.len(),
        p(e) == p(s[i]),
    ensures
        count_if(s.update(i, e), p) == count_if(s, p),
    decreases s.len(),
{
    reveal(Seq::filter);
    let t = s.update(i, e);
    if s.len() > 0 {
        if i == s.len() - 1 {
            assert(t.drop_last() =~= s.drop_last());
            assert(t.last() == e);
        } else {
            assert(t.drop_last() =~= s.drop_last().update(i, e));
            lemma_count_update(s.drop_last(), p, i, e);
            assert(t.last() == s.last());
        }
    }
}

/// Filtering never grows a count.
pub proof fn lemma_count_filter_le(
    s: Seq<Entity>,
    q: spec_fn(Entity) -> bool,
    p: spec_fn(Entity) -> bool,
)
    ensures
        count_if(s.filter(q), p) <= count_if(s, p),
    decreases s.len(),
{
    reveal(Seq::filter);
    if s.len() > 0 {
        let d = s.drop_last();
        lemma_count_filter_le(d, q, p);
        lemma_count_push(d, p, s.last());
        if q(s.last()) {
            lemma_count_push(d.filter(q), p, s.last());
        }
    }
}

/// Filtering keeps identifiers strictly increasing and bounded, and keeps
/// any per-entity property that held of the whole sequence.
pub proof fn lemma_filter_props(
    s: Seq<Entity>,
    q: spec_fn(Entity) -> bool,
    p: spec_fn(Entity) -> bool,
    bound: u64,
)
    requires
        forall|i: int, j: int|
            0 <= i < j < s.len() ==> (#[trigger] s[i].id) < (#[trigger] s[j].id),
        forall|i: int| 0 <= i < s.len() ==> (#[trigger] s[i].id) < bound,
        forall|i: int| 0 <= i < s.len() ==> p(#[trigger] s[i]),
    ensures
        forall|i: int, j: int|
            0 <= i < j < s.filter(q).len() ==> (#[trigger] s.filter(q)[i].id) < (#[trigger] s.filter(
                q,
            )[j].id),
        forall|i: int| 0 <= i < s.filter(q).len() ==> (#[trigger] s.filter(q)[i].id) < bound,
        forall|i: int| 0 <= i < s.filter(q).len() ==> p(#[trigger] s.filter(q)[i]),
    decreases s.len(),
{
    reveal(Seq::filter);
    if s.len() > 0 {
        let d = s.drop_last();
        let last = s.last();
        assert(forall|i: int| 0 <= i < d.len() ==> (#[trigger] d[i].id) < last.id) by {
            assert(forall|i: int| 0 <= i < d.len() ==> d[i] == s[i]);
        }
        lemma_filter_props(d, q, p, bound);
        lemma_filter_props(d, q, p, last.id);
    }
}

/// A positive count means some entity satisfies the predicate.
pub proof fn lemma_count_pos(s: Seq<Entity>, p: spec_fn(Entity) -> bool)
    requires
        count_if(s, p) > 0,
    ensures
        exists|i: int| 0 <= i < s.len() && p(#[trigger] s[i]),
    decreases s.len(),
{
    reveal(Seq::filter);
    if s.len() > 0 {
        if p(s.last()) {
            assert(p(s[s.len() - 1]));
        } else {
            lemma_count_pos(s.drop_last(), p);
            let i = choose|i: int| 0 <= i < s.drop_last().len() && p(#[trigger] s.drop_last()[i]);
            assert(p(s[i]));
        }
    }
}

/// The entity store.
pub struct EntityStore {
    /// The live entities, in creation order.
    pub entities: Vec<Entity>,
    /// The next identifier to hand out; identifiers are never reused.
    pub next_id: u64,
}

impl EntityStore {
    /// Identifiers are strictly increasing along the arena and below
    /// `next_id`, so they are unique and never reused.
    pub open spec fn ids_ok(self) -> bool {
        &&& forall|i: int, j: int|
            0 <= i < j < self.entities@.len()
                ==> (#[trigger] self.entities@[i].id) < (#[trigger] self.entities@[j].id)
        &&& forall|i: int|
            0 <= i < self.entities@.len() ==> (#[trigger] self.entities@[i].id) < self.next_id
    }

    /// An empty store.
    pub fn new() -> (r: EntityStore)
        ensures
            r.entities@ == Seq::<Entity>::empty(),
            r.next_id == 0,
            r.ids_ok(),
    {
        let r = EntityStore { entities: Vec::new(), next_id: 0 };
        proof {
            assert(r.entities@ =~= Seq::<Entity>::empty());
        }
        r
    }

    /// Creates a fresh entity with no attributes and returns its identifier.
    pub fn create(&mut self) -> (id: u64)
        requires
            old(self).next_id < u64::MAX,
        ensures
            id == old(self).next_id,
            final(self).next_id == old(self).next_id + 1,
            final(self).entities@ == old(self).entities@.push(blank_entity(id)),
            old(self).ids_ok() ==> final(self).ids_ok(),
    {
        let id = self.next_id;
        self.entities.push(Entity {
            id: id,
            doomed: false,
            position: None,
            renderable: None,
            player: None,
            asteroid: None,
            missile: None,
            smoke: None,
        });
        self.next_id = id + 1;
        id
    }

    /// The index of the entity with the given identifier, if it is present.
    pub fn index_of(&self, id: u64) -> (r: Option<usize>)
        ensures
            match r {
                Some(i) => i < self.entities@.len() && self.entities@[i as int].id == id,
                None => forall|j: int|
                    0 <= j < self.entities@.len() ==> (#[trigger] self.entities@[j].id) != id,
            },
    {
        let n = self.entities.len();
        let mut i: usize = 0;
        while i < n
            invariant
                i <= n,
                n == self.entities@.len(),
                forall|j: int| 0 <= j < i ==> (#[trigger] self.entities@[j].id) != id,
            decreases n - i,
        {
            if self.entities[i].id == id {
                return Some(i);
            }
            i = i + 1;
        }
        None
    }

    /// Schedules the entity with the given identifier for deletion; the
    /// entity stays visible until `apply_deferred`. Destroying an entity
    /// that is already gone is ignored and reported by the result.
    pub fn destroy(&mut self, id: u64) -> (r: bool)
        ensures
            final(self).next_id == old(self).next_id,
            r ==> exists|i: int|
                0 <= i < old(self).entities@.len()
                    && (#[trigger] old(self).entities@[i]).id == id
                    && final(self).entities@ == old(self).entities@.update(
                    i,
                    Entity { doomed: true, ..old(self).entities@[i] },
                ),
            !r ==> final(self).entities@ == old(self).entities@,
    {
        match self.index_of(id) {
            Some(i) => {
                let e = self.entities[i];
                self.entities[i] = Entity { doomed: true, ..e };
                proof {
                    assert(0 <= i < old(self).entities@.len()
                        && old(self).entities@[i as int].id == id
                        && final(self).entities@ == old(self).entities@.update(
                        i as int,
                        Entity { doomed: true, ..old(self).entities@[i as int] },
                    ));
                }
                true
            },
            None => false,
        }
    }

    /// Removes every entity scheduled for deletion, in one batch.
    pub fn apply_deferred(&mut self)
        ensures
            final(self).next_id == old(self).next_id,
            final(self).entities@ == old(self).entities@.filter(|e: Entity| !e.doomed),
    {
        let ghost s = self.entities@;
        let n = self.entities.len();
        let mut out: Vec<Entity> = Vec::new();
        proof {
            assert(out@ =~= s.take(0).filter(|e: Entity| !e.doomed));
        }
        let mut i: usize = 0;
        while i < n
            invariant
                i <= n,
                n == s.len(),
                self.entities@ == s,
                out@ == s.take(i as int).filter(|e: Entity| !e.doomed),
            decreases n - i,
        {
            let e = self.entities[i];
            if !e.doomed {
                out.push(e);
            }
            proof {
                lemma_filter_take_step(s, |e: Entity| !e.doomed, i as int);
            }
            i = i + 1;
        }
        proof {
            lemma_take_all(s);
        }
        self.entities = out;
    }

    /// How many entities carry a player record.
    pub fn player_count(&self) -> (r: usize)
        ensures
            r == n_players(self.entities@),
    {
        let ghost s = self.entities@;
        let ghost p = |e: Entity| e.player is Some;
        let n = self.entities.len();
        let mut c: usize = 0;
        proof {
            assert(s.take(0).filter(p) =~= Seq::<Entity>::empty());
            s.lemma_filter_len(p);
        }
        let mut i: usize = 0;
        while i < n
            invariant
                i <= n,
                n == s.len(),
                self.entities@ == s,
                c == count_if(s.take(i as int), p),
                c <= i,
                p == (|e: Entity| e.player is Some),
            decreases n - i,
        {
            proof {
                lemma_filter_take_step(s, p, i as int);
            }
            if self.entities[i].player.is_some() {
                c = c + 1;
            }
            i = i + 1;
        }
        proof {
            lemma_take_all(s);
        }
        c
    }

    /// How many entities carry a missile record.
    pub fn missile_count(&self) -> (r: usize)
        ensures
            r == n_missiles(self.entities@),
    {
        let ghost s = self.entities@;
        let ghost p = |e: Entity| e.missile is Some;
        let n = self.entities.len();
        let mut c: usize = 0;
        proof {
            assert(s.take(0).filter(p) =~= Seq::<Entity>::empty());
        }
        let mut i: usize = 0;
        while i < n
            invariant
                i <= n,
                n == s.len(),
                self.entities@ == s,
                c == count_if(s.take(i as int), p),
                c <= i,
                p == (|e: Entity| e.missile is Some),
            decreases n - i,
        {
            proof {
                lemma_filter_take_step(s, p, i as int);
            }
            if self.entities[i].missile.is_some() {
                c = c + 1;
            }
            i = i + 1;
        }
        proof {
            lemma_take_all(s);
        }
        c
    }

    /// How many entities carry a smoke record.
    pub fn smoke_count(&self) -> (r: usize)
        ensures
            r == n_smokes(self.entities@),
    {
        let ghost s = self.entities@;
        let ghost p = |e: Entity| e.smoke is Some;
        let n = self.entities.len();
        let mut c: usize = 0;
        proof {
            assert(s.take(0).filter(p) =~= Seq::<Entity>::empty());
        }
        let mut i: usize = 0;
        while i < n
            invariant
                i <= n,
                n == s.len(),
                self.entities@ == s,
                c == count_if(s.take(i as int), p),
                c <= i,
                p == (|e: Entity| e.smoke is Some),
            decreases n - i,
        {
            proof {
                lemma_filter_take_step(s, p, i as int);
            }
            if self.entities[i].smoke.is_some() {
                c = c + 1;
            }
            i = i + 1;
        }
        proof {
            lemma_take_all(s);
        }
        c
    }

    /// Attaches (or replaces) the position record of the entity with the given
    /// identifier; reports whether the entity was found.
    pub fn attach_position(&mut self, id: u64, c: Position) -> (r: bool)
        ensures
            final(self).next_id == old(self).next_id,
            r ==> exists|i: int|
                0 <= i < old(self).entities@.len()
                    && (#[trigger] old(self).entities@[i]).id == id
                    && final(self).entities@ == old(self).entities@.update(
                    i,
                    Entity { position: Some(c), ..old(self).entities@[i] },
                ),
            !r ==> final(self).entities@ == old(self).entities@
                && (forall|j: int|
                0 <= j < old(self).entities@.len() ==> (#[trigger] old(
                    self,
                ).entities@[j].id) != id),
    {
        match self.index_of(id) {
            Some(i) => {
                let e = self.entities[i];
                self.entities[i] = Entity { position: Some(c), ..e };
                proof {
                    assert(0 <= i < old(self).entities@.len()
                        && old(self).entities@[i as int].id == id
                        && final(self).entities@ == old(self).entities@.update(
                        i as int,
                        Entity { position: Some(c), ..old(self).entities@[i as int] },
                    ));
                }
                true
            },
            None => false,
        }
    }

    /// Attaches (or replaces) the renderable record of the entity with the given
    /// identifier; reports whether the entity was found.
    pub fn attach_renderable(&mut self, id: u64, c: Renderable) -> (r: bool)
        ensures
            final(self).next_id == old(self).next_id,
            r ==> exists|i: int|
                0 <= i < old(self).entities@.len()
                    && (#[trigger] old(self).entities@[i]).id == id
                    && final(self).entities@ == old(self).entities@.update(
                    i,
                    Entity { renderable: Some(c), ..old(self).entities@[i] },
                ),
            !r ==> final(self).entities@ == old(self).entities@
                && (forall|j: int|
                0 <= j < old(self).entities@.len() ==> (#[trigger] old(
                    self,
                ).entities@[j].id) != id),
    {
        match self.index_of(id) {
            Some(i) => {
                let e = self.entities[i];
                self.entities[i] = Entity { renderable: Some(c), ..e };
                proof {
                    assert(0 <= i < old(self).entities@.len()
                        && old(self).entities@[i as int].id == id
                        && final(self).entities@ == old(self).entities@.update(
                        i as int,
                        Entity { renderable: Some(c), ..old(self).entities@[i as int] },
                    ));
                }
                true
            },
            None => false,
        }
    }

    /// Attaches (or replaces) the player record of the entity with the given
    /// identifier; reports whether the entity was found.
    pub fn attach_player(&mut self, id: u64, c: Player) -> (r: bool)
        ensures
            final(self).next_id == old(self).next_id,
            r ==> exists|i: int|
                0 <= i < old(self).entities@.len()
                    && (#[trigger] old(self).entities@[i]).id == id
                    && final(self).entities@ == old(self).entities@.update(
                    i,
                    Entity { player: Some(c), ..old(self).entities@[i] },
                ),
            !r ==> final(self).entities@ == old(self).entities@
                && (forall|j: int|
                0 <= j < old(self).entities@.len() ==> (#[trigger] old(
                    self,
                ).entities@[j].id) != id),
    {
        match self.index_of(id) {
            Some(i) => {
                let e = self.entities[i];
                self.entities[i] = Entity { player: Some(c), ..e };
                proof {
                    assert(0 <= i < old(self).entities@.len()
                        && old(self).entities@[i as int].id == id
                        && final(self).entities@ == old(self).entities@.update(
                        i as int,
                        Entity { player: Some(c), ..old(self).entities@[i as int] },
                    ));
                }
                true
            },
            None => false,
        }
    }

    /// Attaches (or replaces) the asteroid record of the entity with the given
    /// identifier; reports whether the entity was found.
    pub fn attach_asteroid(&mut self, id: u64, c: Asteroid) -> (r: bool)
        ensures
            final(self).next_id == old(self).next_id,
            r ==> exists|i: int|
                0 <= i < old(self).entities@.len()
                    && (#[trigger] old(self).entities@[i]).id == id
                    && final(self).entities@ == old(self).entities@.update(
                    i,
                    Entity { asteroid: Some(c), ..old(self).entities@[i] },
                ),
            !r ==> final(self).entities@ == old(self).entities@
                && (forall|j: int|
                0 <= j < old(self).entities@.len() ==> (#[trigger] old(
                    self,
                ).entities@[j].id) != id),
    {
        match self.index_of(id) {
            Some(i) => {
                let e = self.entities[i];
                self.entities[i] = Entity { asteroid: Some(c), ..e };
                proof {
                    assert(0 <= i < old(self).entities@.len()
                        && old(self).entities@[i as int].id == id
                        && final(self).entities@ == old(self).entities@.update(
                        i as int,
                        Entity { asteroid: Some(c), ..old(self).entities@[i as int] },
                    ));
                }
                true
            },
            None => false,
        }
    }

    /// Attaches (or replaces) the missile record of the entity with the given
    /// identifier; reports whether the entity was found.
    pub fn attach_missile(&mut self, id: u64, c: Missile) -> (r: bool)
        ensures
            final(self).next_id == old(self).next_id,
            r ==> exists|i: int|
                0 <= i < old(self).entities@.len()
                    && (#[trigger] old(self).entities@[i]).id == id
                    && final(self).entities@ == old(self).entities@.update(
                    i,
                    Entity { missile: Some(c), ..old(self).entities@[i] },
                ),
            !r ==> final(self).entities@ == old(self).entities@
                && (forall|j: int|
                0 <= j < old(self).entities@.len() ==> (#[trigger] old(
                    self,
                ).entities@[j].id) != id),
    {
        match self.index_of(id) {
            Some(i) => {
                let e = self.entities[i];
                self.entities[i] = Entity { missile: Some(c), ..e };
                proof {
                    assert(0 <= i < old(self).entities@.len()
                        && old(self).entities@[i as int].id == id
                        && final(self).entities@ == old(self).entities@.update(
                        i as int,
                        Entity { missile: Some(c), ..old(self).entities@[i as int] },
                    ));
                }
                true
            },
            None => false,
        }
    }

    /// Attaches (or replaces) the smoke record of the entity with the given
    /// identifier; reports whether the entity was found.
    pub fn attach_smoke(&mut self, id: u64, c: Smoke) -> (r: bool)
        ensures
            final(self).next_id == old(self).next_id,
            r ==> exists|i: int|
                0 <= i < old(self).entities@.len()
                    && (#[trigger] old(self).entities@[i]).id == id
                    && final(self).entities@ == old(self).entities@.update(
                    i,
                    Entity { smoke: Some(c), ..old(self).entities@[i] },
                ),
            !r ==> final(self).entities@ == old(self).entities@
                && (forall|j: int|
                0 <= j < old(self).entities@.len() ==> (#[trigger] old(
                    self,
                ).entities@[j].id) != id),
    {
        match self.index_of(id) {
            Some(i) => {
                let e = self.entities[i];
                self.entities[i] = Entity { smoke: Some(c), ..e };
                proof {
                    assert(0 <= i < old(self).entities@.len()
                        && old(self).entities@[i as int].id == id
                        && final(self).entities@ == old(self).entities@.update(
                        i as int,
                        Entity { smoke: Some(c), ..old(self).entities@[i as int] },
                    ));
                }
                true
            },
            None => false,
        }
    }

    /// The position record of the entity with the given identifier, if both the
    /// entity and the record are present.
    pub fn get_position(&self, id: u64) -> (r: Option<Position>)
        requires
            self.ids_ok(),
        ensures
            match r {
                Some(c) => exists|i: int|
                    0 <= i < self.entities@.len()
                        && (#[trigger] self.entities@[i]).id == id
                        && self.entities@[i].position == Some(c),
                None => forall|j: int|
                    0 <= j < self.entities@.len()
                        ==> (#[trigger] self.entities@[j].id) != id
                        || self.entities@[j].position is None,
            },
    {
        match self.index_of(id) {
            Some(i) => self.entities[i].position,
            None => None,
        }
    }

    /// The renderable record of the entity with the given identifier, if both the
    /// entity and the record are present.
    pub fn get_renderable(&self, id: u64) -> (r: Option<Renderable>)
        requires
            self.ids_ok(),
        ensures
            match r {
                Some(c) => exists|i: int|
                    0 <= i < self.entities@.len()
                        && (#[trigger] self.entities@[i]).id == id
                        && self.entities@[i].renderable == Some(c),
                None => forall|j: int|
                    0 <= j < self.entities@.len()
                        ==> (#[trigger] self.entities@[j].id) != id
                        || self.entities@[j].renderable is None,
            },
    {
        match self.index_of(id) {
            Some(i) => self.entities[i].renderable,
            None => None,
        }
    }

    /// The player record of the entity with the given identifier, if both the
    /// entity and the record are present.
    pub fn get_player(&self, id: u64) -> (r: Option<Player>)
        requires
            self.ids_ok(),
        ensures
            match r {
                Some(c) => exists|i: int|
                    0 <= i < self.entities@.len()
                        && (#[trigger] self.entities@[i]).id == id
                        && self.entities@[i].player == Some(c),
                None => forall|j: int|
                    0 <= j < self.entities@.len()
                        ==> (#[trigger] self.entities@[j].id) != id
                        || self.entities@[j].player is None,
            },
    {
        match self.index_of(id) {
            Some(i) => self.entities[i].player,
            None => None,
        }
    }

    /// The asteroid record of the entity with the given identifier, if both the
    /// entity and the record are present.
    pub fn get_asteroid(&self, id: u64) -> (r: Option<Asteroid>)
        requires
            self.ids_ok(),
        ensures
            match r {
                Some(c) => exists|i: int|
                    0 <= i < self.entities@.len()
                        && (#[trigger] self.entities@[i]).id == id
                        && self.entities@[i].asteroid == Some(c),
                None => forall|j: int|
                    0 <= j < self.entities@.len()
                        ==> (#[trigger] self.entities@[j].id) != id
                        || self.entities@[j].asteroid is None,
            },
    {
        match self.index_of(id) {
            Some(i) => self.entities[i].asteroid,
            None => None,
        }
    }

    /// The missile record of the entity with the given identifier, if both the
    /// entity and the record are present.
    pub fn get_missile(&self, id: u64) -> (r: Option<Missile>)
        requires
            self.ids_ok(),
        ensures
            match r {
                Some(c) => exists|i: int|
                    0 <= i < self.entities@.len()
                        && (#[trigger] self.entities@[i]).id == id
                        && self.entities@[i].missile == Some(c),
                None => forall|j: int|
                    0 <= j < self.entities@.len()
                        ==> (#[trigger] self.entities@[j].id) != id
                        || self.entities@[j].missile is None,
            },
    {
        match self.index_of(id) {
            Some(i) => self.entities[i].missile,
            None => None,
        }
    }

    /// The smoke record of the entity with the given identifier, if both the
    /// entity and the record are present.
    pub fn get_smoke(&self, id: u64) -> (r: Option<Smoke>)
        requires
            self.ids_ok(),
        ensures
            match r {
                Some(c) => exists|i: int|
                    0 <= i < self.entities@.len()
                        && (#[trigger] self.entities@[i]).id == id
                        && self.entities@[i].smoke == Some(c),
                None => forall|j: int|
                    0 <= j < self.entities@.len()
                        ==> (#[trigger] self.entities@[j].id) != id
                        || self.entities@[j].smoke is None,
            },
    {
        match self.index_of(id) {
            Some(i) => self.entities[i].smoke,
            None => None,
        }
    }

    /// Destroys every entity at once, keeping the identifier counter so that
    /// identifiers are never reused.
    pub fn delete_all(&mut self)
        ensures
            final(self).entities@ == Seq::<Entity>::empty(),
            final(self).next_id == old(self).next_id,
            final(self).ids_ok(),
    {
        self.entities = Vec::new();
        proof {
            assert(final(self).entities@ =~= Seq::<Entity>::empty());
        }
    }

    /// The read-only hand-off to rendering: every entity's position and
    /// renderable record, in arena order, for the entities that have both.
    pub fn drawables(&self) -> (r: Vec<(Position, Renderable)>)
        ensures
            r@ == draw_s(self.entities@),
    {
        let ghost s = self.entities@;
        let n = self.entities.len();
        let mut out: Vec<(Position, Renderable)> = Vec::new();
        proof {
            assert(s.take(0) =~= Seq::<Entity>::empty());
        }
        let mut i: usize = 0;
        while i < n
            invariant
                i <= n,
                n == s.len(),
                self.entities@ == s,
                out@ == draw_s(s.take(i as int)),
            decreases n - i,
        {
            let e = self.entities[i];
            match (e.position, e.renderable) {
                (Some(p), Some(rend)) => {
                    out.push((p, rend));
                },
                _ => {},
            }
            proof {
                lemma_take_step(s, i as int);
            }
            i = i + 1;
        }
        proof {
            lemma_take_all(s);
        }
        out
    }
}

} // verus!
