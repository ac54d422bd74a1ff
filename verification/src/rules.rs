//! The rules of the match, stated over the mathematical content of the game.
//!
//! A [`GameView`] is the table of entities as a map, together with the
//! requests made to the engine. The functions here say what each operation
//! of the game makes of a `GameView`; the proof functions state what holds of
//! them whatever the game is.

use crate::body::{defeated_player, BodyClass, BodyView, Vec3, SCALE};
use crate::physics_world::{
    BodyHandle, BodyReport, BodyState, CollisionEvent, Command, PhysicsWorldView,
};
use vstd::prelude::*;
use vstd::set_lib::lemma_set_subset_finite;

verus! {

/// What the table keeps of an entity beside its body in the engine, with
/// its names read as sequences of characters.
pub struct MetadataView {
    pub id: Seq<char>,
    pub team_id: Option<Seq<char>>,
    pub owner_id: Option<Seq<char>>,
    pub class: BodyClass,
    pub rotation: Vec3,
    pub dimensions: Vec3,
    pub hp: i32,
}

/// The part of a body that the table keeps.
pub open spec fn metadata_of(body: BodyView) -> MetadataView {
    MetadataView {
        id: body.id,
        team_id: body.team_id,
        owner_id: body.owner_id,
        class: body.class,
        rotation: body.rotation,
        dimensions: body.dimensions,
        hp: body.hp,
    }
}

/// The request that overwrites the motion of a known body with that of
/// `body`. A player without hit points is left asleep.
pub open spec fn overwrite_of(handle: BodyHandle, body: BodyView) -> Command {
    Command::SetBody {
        handle,
        translation: body.translation,
        linvel: body.linvel,
        angvel: body.angvel,
        yaw: body.rotation.z,
        sleeping: defeated_player(body),
    }
}

/// Hit points after one hit: one less, and never below zero.
pub open spec fn damaged(hp: i32) -> i32 {
    if hp > 0 {
        (hp - 1) as i32
    } else {
        0
    }
}

/// `after` is `before` but for the hit points: these are no more than they
/// were, or zero, and only a player's have changed at all.
pub open spec fn only_hit_points_fell(before: MetadataView, after: MetadataView) -> bool {
    &&& after == (MetadataView { hp: after.hp, ..before })
    &&& after.hp <= before.hp || after.hp == 0
    &&& before.class != BodyClass::Player ==> after == before
}

/// Two entities stand on one team: both name a team, and the same one. An
/// entity without a team stands on nobody's side.
pub open spec fn same_team(a: Option<Seq<char>>, b: Option<Seq<char>>) -> bool {
    a is Some && a == b
}

/// The entity that the engine's report and the table's metadata make together.
pub open spec fn materialize(state: BodyState, metadata: MetadataView) -> BodyView {
    BodyView {
        id: metadata.id,
        team_id: metadata.team_id,
        owner_id: metadata.owner_id,
        translation: state.translation,
        rotation: metadata.rotation,
        linvel: state.linvel,
        angvel: state.angvel,
        dimensions: metadata.dimensions,
        mass: state.mass,
        class: metadata.class,
        hp: metadata.hp,
    }
}

/// A speed that rounds to zero units: less than half a unit either way.
pub open spec fn rounds_to_zero(speed: int) -> bool {
    -SCALE < 2 * speed < SCALE
}

/// The body moves at less than half a unit along every axis.
pub open spec fn at_rest(body: BodyView) -> bool {
    &&& rounds_to_zero(body.linvel.x as int)
    &&& rounds_to_zero(body.linvel.y as int)
    &&& rounds_to_zero(body.linvel.z as int)
}

/// The body's centre is no higher than half its own height.
pub open spec fn on_floor(body: BodyView) -> bool {
    2 * body.translation.z <= body.dimensions.z
}

/// The body is a bullet that lies on the floor or has come to rest.
pub open spec fn stale(body: BodyView) -> bool {
    body.class == BodyClass::Bullet && (on_floor(body) || at_rest(body))
}

/// The mathematical content of a game: the engine's end and the table.
pub struct GameView {
    pub world: PhysicsWorldView,
    /// The entities by the handles of their bodies.
    pub entities: Map<BodyHandle, MetadataView>,
}

impl GameView {
    /// The table and the engine hold the same bodies, and no two entities
    /// share a name.
    pub open spec fn wf(self) -> bool {
        &&& self.world.wf()
        &&& self.entities.dom() == self.world.bodies()
        &&& self.entities.dom().finite()
        &&& forall|a: BodyHandle, b: BodyHandle|
            #[trigger] self.entities.dom().contains(a) && #[trigger] self.entities.dom().contains(b)
                && self.entities[a].id == self.entities[b].id ==> a == b
    }

    /// The entity named `id` has the body `handle`.
    pub open spec fn holds(self, handle: BodyHandle, id: Seq<char>) -> bool {
        self.entities.dom().contains(handle) && self.entities[handle].id == id
    }

    /// An entity named `id` is in the table.
    pub open spec fn knows(self, id: Seq<char>) -> bool {
        exists|h: BodyHandle| self.holds(h, id)
    }

    /// The body of the entity named `id`, where the table knows one.
    pub open spec fn handle_of(self, id: Seq<char>) -> BodyHandle {
        choose|h: BodyHandle| self.holds(h, id)
    }

    /// One more request to the engine, the table as it is.
    pub open spec fn request(self, command: Command) -> GameView {
        GameView { world: self.world.request(command), ..self }
    }

    /// The entity with the body `handle` gone from the table and from the engine.
    pub open spec fn remove(self, handle: BodyHandle) -> GameView {
        GameView {
            world: self.world.remove_body(handle),
            entities: self.entities.remove(handle),
        }
    }

    /// A snapshot of an entity taken in: a known name has its metadata and
    /// its motion overwritten; an unknown one gets a new body.
    pub open spec fn upsert(self, body: BodyView) -> GameView {
        if self.knows(body.id) {
            GameView {
                world: self.world.request(overwrite_of(self.handle_of(body.id), body)),
                entities: self.entities.insert(self.handle_of(body.id), metadata_of(body)),
            }
        } else {
            GameView {
                world: self.world.add_body(body),
                entities: self.entities.insert(self.world.fresh_handle(), metadata_of(body)),
            }
        }
    }

    /// The entity named `id` gone, if there is one.
    pub open spec fn delete(self, id: Seq<char>) -> GameView {
        if self.knows(id) {
            self.remove(self.handle_of(id))
        } else {
            self
        }
    }
}

impl GameView {
    /// `player` is a player, `bullet` is a bullet, both are in the table,
    /// and they do not stand on one team.
    pub open spec fn hostile(self, player: BodyHandle, bullet: BodyHandle) -> bool {
        &&& self.entities.dom().contains(player)
        &&& self.entities.dom().contains(bullet)
        &&& self.entities[player].class == BodyClass::Player
        &&& self.entities[bullet].class == BodyClass::Bullet
        &&& !same_team(self.entities[player].team_id, self.entities[bullet].team_id)
    }

    /// A bullet has hit a player: the player loses one hit point, down to
    /// zero at the lowest, and the bullet is gone.
    pub open spec fn hit(self, player: BodyHandle, bullet: BodyHandle) -> GameView {
        GameView {
            world: self.world.remove_body(bullet),
            entities: self.entities.insert(
                player,
                MetadataView { hp: damaged(self.entities[player].hp), ..self.entities[player] },
            ).remove(bullet),
        }
    }

    /// What one event of the engine does to the game. Only the start of a
    /// contact between a player and a bullet of another side counts.
    pub open spec fn contact(self, event: CollisionEvent) -> GameView {
        match event {
            CollisionEvent::Started(Some(a), Some(b)) => {
                if self.hostile(a, b) {
                    self.hit(a, b)
                } else if self.hostile(b, a) {
                    self.hit(b, a)
                } else {
                    self
                }
            },
            _ => self,
        }
    }

    /// What a run of events does, first to last.
    pub open spec fn contacts(self, events: Seq<CollisionEvent>) -> GameView
        decreases events.len(),
    {
        if events.len() == 0 {
            self
        } else {
            self.contacts(events.drop_last()).contact(events.last())
        }
    }
}

impl GameView {
    /// The entity with the body `handle` as the engine's report `state`
    /// shows it; none where the report or the entity is missing.
    pub open spec fn body_at(self, handle: BodyHandle, state: Option<BodyState>) -> Option<
        BodyView,
    > {
        if state is Some && self.entities.dom().contains(handle) {
            Some(materialize(state.unwrap(), self.entities[handle]))
        } else {
            None
        }
    }

    /// The report shows an entity of the table, and that entity is stale.
    pub open spec fn stale_at(self, report: BodyReport) -> bool {
        self.body_at(report.handle, report.state) is Some && stale(
            self.body_at(report.handle, report.state).unwrap(),
        )
    }

    /// One reported body looked at: a stale one is removed.
    pub open spec fn sweep_one(self, report: BodyReport) -> GameView {
        if self.stale_at(report) {
            self.remove(report.handle)
        } else {
            self
        }
    }

    /// The reported bodies looked at, first to last.
    pub open spec fn sweep(self, reports: Seq<BodyReport>) -> GameView
        decreases reports.len(),
    {
        if reports.len() == 0 {
            self
        } else {
            self.sweep(reports.drop_last()).sweep_one(reports.last())
        }
    }

    /// Looking at the reported bodies first to last removes at least one.
    pub open spec fn sweep_removes(self, reports: Seq<BodyReport>) -> bool
        decreases reports.len(),
    {
        if reports.len() == 0 {
            false
        } else {
            self.sweep_removes(reports.drop_last()) || self.sweep(reports.drop_last()).stale_at(
                reports.last(),
            )
        }
    }

    /// The entities that the reports show, in the order of the reports.
    pub open spec fn bodies_of(self, reports: Seq<BodyReport>) -> Seq<BodyView>
        decreases reports.len(),
    {
        if reports.len() == 0 {
            Seq::empty()
        } else {
            let last = self.body_at(reports.last().handle, reports.last().state);
            if last is Some {
                self.bodies_of(reports.drop_last()).push(last.unwrap())
            } else {
                self.bodies_of(reports.drop_last())
            }
        }
    }

    /// The handles among `reports` whose bodies are in the table, in the
    /// order of the reports.
    pub open spec fn remaining(self, reports: Seq<BodyReport>) -> Seq<BodyHandle>
        decreases reports.len(),
    {
        if reports.len() == 0 {
            Seq::empty()
        } else if self.entities.dom().contains(reports.last().handle) {
            self.remaining(reports.drop_last()).push(reports.last().handle)
        } else {
            self.remaining(reports.drop_last())
        }
    }

    /// The entity with the body `handle` is on the team `team` and has hit
    /// points left.
    pub open spec fn fights_for(self, handle: BodyHandle, team: Seq<char>) -> bool {
        &&& self.entities.dom().contains(handle)
        &&& self.entities[handle].team_id == Some(team)
        &&& self.entities[handle].hp > 0
    }

    /// The teams that still have an entity with hit points left.
    pub open spec fn teams_alive(self) -> Set<Seq<char>> {
        Set::new(|team: Seq<char>| exists|h: BodyHandle| self.fights_for(h, team))
    }

    /// Exactly one team is still alive.
    pub open spec fn won(self) -> bool {
        self.teams_alive().finite() && self.teams_alive().len() == 1
    }
}

impl GameView {
    /// A name has at most one body: whatever holds the name is the handle
    /// that `handle_of` gives.
    pub proof fn lemma_handle_unique(self, handle: BodyHandle, id: Seq<char>)
        requires
            self.wf(),
            self.holds(handle, id),
        ensures
            self.knows(id),
            self.handle_of(id) == handle,
    {
        let h = self.handle_of(id);
        assert(self.holds(h, id));
        assert(self.entities.dom().contains(h) && self.entities.dom().contains(handle));
    }

    /// Taking in a snapshot keeps the table sound, and afterwards the table
    /// knows the name: under the handle it had, or under a fresh one.
    pub proof fn lemma_upsert(self, body: BodyView)
        requires
            self.wf(),
            self.knows(body.id) || self.world.next_handle < u64::MAX,
        ensures
            self.upsert(body).wf(),
            self.upsert(body).knows(body.id),
            self.upsert(body).handle_of(body.id) == if self.knows(body.id) {
                self.handle_of(body.id)
            } else {
                self.world.fresh_handle()
            },
            self.upsert(body).entities[self.upsert(body).handle_of(body.id)] == metadata_of(body),
    {
        let after = self.upsert(body);
        let h = if self.knows(body.id) {
            self.handle_of(body.id)
        } else {
            self.world.fresh_handle()
        };
        if self.knows(body.id) {
            assert(self.holds(h, body.id));
            self.world.lemma_request_keeps_bodies(overwrite_of(h, body));
            assert(after.entities.dom() =~= self.entities.dom());
        } else {
            self.world.lemma_add_body(body);
            assert(after.entities.dom() =~= self.entities.dom().insert(h));
            assert forall|a: BodyHandle, b: BodyHandle|
                #[trigger] after.entities.dom().contains(a)
                    && #[trigger] after.entities.dom().contains(b)
                    && after.entities[a].id == after.entities[b].id
            implies
                a == b
            by {
                if a == h && b != h {
                    assert(self.holds(b, body.id));
                }
                if b == h && a != h {
                    assert(self.holds(a, body.id));
                }
            }
        }
        assert(after.holds(h, body.id));
        after.lemma_handle_unique(h, body.id);
    }

    /// Taking in a snapshot leaves every other name alone: known as before,
    /// and under the handle it had.
    pub proof fn lemma_upsert_keeps_others(self, body: BodyView, other: Seq<char>)
        requires
            self.wf(),
            self.knows(body.id) || self.world.next_handle < u64::MAX,
            other != body.id,
        ensures
            self.upsert(body).knows(other) == self.knows(other),
            self.knows(other) ==> self.upsert(body).handle_of(other) == self.handle_of(other),
            self.knows(other) ==> self.upsert(body).entities[self.handle_of(other)]
                == self.entities[self.handle_of(other)],
    {
        let after = self.upsert(body);
        self.lemma_upsert(body);
        let changed = after.handle_of(body.id);
        assert(after.holds(changed, body.id));
        if self.knows(other) {
            let h = self.handle_of(other);
            assert(self.holds(h, other));
            assert(h != changed) by {
                if self.knows(body.id) {
                    assert(self.holds(self.handle_of(body.id), body.id));
                } else {
                    self.world.lemma_add_body(body);
                }
            }
            assert(after.holds(h, other));
            after.lemma_handle_unique(h, other);
        }
        if after.knows(other) {
            let h = after.handle_of(other);
            assert(after.holds(h, other));
            assert(h != changed);
            assert(self.holds(h, other));
        }
    }

    /// Taking in the same snapshot twice is as good as once: the second
    /// time the name is known, the table and the bodies of the engine stay
    /// as the first left them, and the name has exactly one handle.
    pub proof fn lemma_upsert_idempotent(self, body: BodyView)
        requires
            self.wf(),
            self.knows(body.id) || self.world.next_handle < u64::MAX,
        ensures
            self.upsert(body).knows(body.id),
            self.upsert(body).upsert(body).entities == self.upsert(body).entities,
            self.upsert(body).upsert(body).world.bodies() == self.upsert(body).world.bodies(),
            self.upsert(body).upsert(body).world.next_handle == self.upsert(body).world.next_handle,
            forall|a: BodyHandle, b: BodyHandle|
                self.upsert(body).upsert(body).holds(a, body.id) && self.upsert(body).upsert(
                    body,
                ).holds(b, body.id) ==> a == b,
    {
        let once = self.upsert(body);
        self.lemma_upsert(body);
        let twice = once.upsert(body);
        once.lemma_upsert(body);
        once.world.lemma_request_keeps_bodies(overwrite_of(once.handle_of(body.id), body));
        assert(twice.entities =~= once.entities);
    }

    /// Removing a body keeps the table sound.
    pub proof fn lemma_remove(self, handle: BodyHandle)
        requires
            self.wf(),
        ensures
            self.remove(handle).wf(),
    {
        self.world.lemma_remove_body(handle);
    }

    /// Deleting a name keeps the table sound, and afterwards the table does
    /// not know the name.
    pub proof fn lemma_delete(self, id: Seq<char>)
        requires
            self.wf(),
        ensures
            self.delete(id).wf(),
            !self.delete(id).knows(id),
    {
        let after = self.delete(id);
        if self.knows(id) {
            let gone = self.handle_of(id);
            self.lemma_remove(gone);
            if after.knows(id) {
                let h = after.handle_of(id);
                assert(after.holds(h, id));
                assert(self.holds(h, id));
                self.lemma_handle_unique(h, id);
            }
        }
    }

    /// A hit keeps the table sound.
    pub proof fn lemma_hit(self, player: BodyHandle, bullet: BodyHandle)
        requires
            self.wf(),
            self.entities.dom().contains(player),
        ensures
            self.hit(player, bullet).wf(),
    {
        let after = self.hit(player, bullet);
        self.world.lemma_remove_body(bullet);
        assert(after.entities.dom() =~= self.entities.dom().remove(bullet));
        assert forall|a: BodyHandle, b: BodyHandle|
            #[trigger] after.entities.dom().contains(a)
                && #[trigger] after.entities.dom().contains(b)
                && after.entities[a].id == after.entities[b].id
        implies
            a == b
        by {
            assert(self.entities.dom().contains(a) && self.entities.dom().contains(b));
            assert(after.entities[a].id == self.entities[a].id);
            assert(after.entities[b].id == self.entities[b].id);
        }
    }

    /// Whatever the engine reports, the table stays sound.
    pub proof fn lemma_contacts(self, events: Seq<CollisionEvent>)
        requires
            self.wf(),
        ensures
            self.contacts(events).wf(),
        decreases events.len(),
    {
        if events.len() > 0 {
            let before = self.contacts(events.drop_last());
            self.lemma_contacts(events.drop_last());
            match events.last() {
                CollisionEvent::Started(Some(a), Some(b)) => {
                    if before.hostile(a, b) {
                        before.lemma_hit(a, b);
                    } else if before.hostile(b, a) {
                        before.lemma_hit(b, a);
                    }
                },
                _ => {},
            }
        }
    }

    /// Removing what is stale keeps the table sound.
    pub proof fn lemma_sweep(self, reports: Seq<BodyReport>)
        requires
            self.wf(),
        ensures
            self.sweep(reports).wf(),
        decreases reports.len(),
    {
        if reports.len() > 0 {
            let before = self.sweep(reports.drop_last());
            self.lemma_sweep(reports.drop_last());
            if before.stale_at(reports.last()) {
                before.lemma_remove(reports.last().handle);
            }
        }
    }

    /// A bullet never harms a player of its own team: where the two stand
    /// on one team, their contact changes nothing, whichever side the
    /// engine names first.
    pub proof fn lemma_friendly_fire(self, player: BodyHandle, bullet: BodyHandle)
        requires
            self.entities.dom().contains(player),
            self.entities.dom().contains(bullet),
            self.entities[player].class == BodyClass::Player,
            self.entities[bullet].class == BodyClass::Bullet,
            same_team(self.entities[player].team_id, self.entities[bullet].team_id),
        ensures
            self.contact(CollisionEvent::Started(Some(player), Some(bullet))) == self,
            self.contact(CollisionEvent::Started(Some(bullet), Some(player))) == self,
    {
    }

    /// An event that names a body which the table does not have changes
    /// nothing. So a bullet that one event removed is not hit again by the
    /// next.
    pub proof fn lemma_gone_body_is_ignored(self, gone: BodyHandle, other: Option<BodyHandle>)
        requires
            !self.entities.dom().contains(gone),
        ensures
            self.contact(CollisionEvent::Started(Some(gone), other)) == self,
            self.contact(CollisionEvent::Started(other, Some(gone))) == self,
    {
    }

    /// `team` has an entity with hit points left, and no other team has one.
    pub open spec fn sole_team_alive(self, team: Seq<char>) -> bool {
        &&& exists|h: BodyHandle| self.fights_for(h, team)
        &&& forall|h: BodyHandle, other: Seq<char>| #[trigger]
            self.fights_for(h, other) ==> other == team
    }

    /// The match is won exactly when some team has an entity with hit
    /// points left and no other team has one.
    pub proof fn lemma_won(self)
        requires
            self.wf(),
        ensures
            self.teams_alive().finite(),
            self.won() <==> exists|team: Seq<char>| self.sole_team_alive(team),
    {
        let alive = self.teams_alive();
        let team_at = |h: BodyHandle| self.entities[h].team_id.unwrap_or(Seq::<char>::empty());
        let named = self.entities.dom().map(team_at);
        self.entities.dom().lemma_map_finite(team_at);
        assert forall|team: Seq<char>| alive.contains(team) implies named.contains(team) by {
            let h = choose|h: BodyHandle| self.fights_for(h, team);
            assert(self.entities.dom().contains(h) && team_at(h) == team);
        }
        lemma_set_subset_finite(named, alive);
        Set::lemma_is_singleton(alive);
        if self.won() {
            let team = alive.choose();
            assert(alive.contains(team));
            let h = choose|h: BodyHandle| self.fights_for(h, team);
            assert(self.fights_for(h, team));
            assert forall|h: BodyHandle, other: Seq<char>| #[trigger]
                self.fights_for(h, other) implies other == team by {
                assert(alive.contains(other));
            }
            assert(self.sole_team_alive(team));
        }
        if exists|team: Seq<char>| self.sole_team_alive(team) {
            let team = choose|team: Seq<char>| self.sole_team_alive(team);
            let h = choose|h: BodyHandle| self.fights_for(h, team);
            assert(alive.contains(team));
            assert(alive.len() > 0) by {
                if alive.len() == 0 {
                    assert(alive =~= Set::empty());
                }
            }
            assert forall|x: Seq<char>, y: Seq<char>| alive.contains(x) && alive.contains(
                y,
            ) implies x == y by {
                let hx = choose|h: BodyHandle| self.fights_for(h, x);
                assert(self.fights_for(hx, x));
                let hy = choose|h: BodyHandle| self.fights_for(h, y);
                assert(self.fights_for(hy, y));
            }
            assert(alive.is_singleton());
        }
    }

    /// Events change only what the one rule says: afterwards every entity
    /// left was there before and is as it was but for its hit points, which
    /// only a player can have lost; and whatever is gone was a bullet.
    pub proof fn lemma_contacts_touch_little(self, events: Seq<CollisionEvent>)
        ensures
            forall|h: BodyHandle| #[trigger]
                self.contacts(events).entities.dom().contains(h) ==> self.entities.dom().contains(h)
                    && only_hit_points_fell(self.entities[h], self.contacts(events).entities[h]),
            forall|h: BodyHandle| #[trigger]
                self.entities.dom().contains(h) && self.entities[h].class != BodyClass::Bullet
                    ==> self.contacts(events).entities.dom().contains(h),
        decreases events.len(),
    {
        if events.len() > 0 {
            let before = self.contacts(events.drop_last());
            self.lemma_contacts_touch_little(events.drop_last());
            let after = before.contact(events.last());
            assert forall|h: BodyHandle| #[trigger] after.entities.dom().contains(h) implies {
                &&& self.entities.dom().contains(h)
                &&& only_hit_points_fell(self.entities[h], after.entities[h])
            } by {
                assert(before.entities.dom().contains(h));
            }
            assert forall|h: BodyHandle| #[trigger]
                self.entities.dom().contains(h) && self.entities[h].class
                    != BodyClass::Bullet implies after.entities.dom().contains(h) by {
                assert(before.entities.dom().contains(h));
            }
        }
    }

    /// The sweep removes bullets only: whatever else was in the table
    /// stays, and what stays is as it was.
    pub proof fn lemma_sweep_takes_bullets_only(self, reports: Seq<BodyReport>)
        ensures
            forall|h: BodyHandle| #[trigger]
                self.sweep(reports).entities.dom().contains(h) ==> self.entities.dom().contains(h)
                    && self.sweep(reports).entities[h] == self.entities[h],
            forall|h: BodyHandle| #[trigger]
                self.entities.dom().contains(h) && self.entities[h].class != BodyClass::Bullet
                    ==> self.sweep(reports).entities.dom().contains(h),
        decreases reports.len(),
    {
        if reports.len() > 0 {
            let before = self.sweep(reports.drop_last());
            self.lemma_sweep_takes_bullets_only(reports.drop_last());
            let after = before.sweep_one(reports.last());
            assert forall|h: BodyHandle| #[trigger] after.entities.dom().contains(h) implies {
                &&& self.entities.dom().contains(h)
                &&& after.entities[h] == self.entities[h]
            } by {
                assert(before.entities.dom().contains(h));
            }
            assert forall|h: BodyHandle| #[trigger]
                self.entities.dom().contains(h) && self.entities[h].class
                    != BodyClass::Bullet implies after.entities.dom().contains(h) by {
                assert(before.entities.dom().contains(h));
            }
        }
    }

    /// Where no entity is on a team with hit points left, the match is not
    /// won.
    pub proof fn lemma_no_team_no_win(self)
        requires
            forall|h: BodyHandle| #[trigger]
                self.entities.dom().contains(h) ==> self.entities[h].team_id is None
                    || self.entities[h].hp <= 0,
        ensures
            !self.won(),
    {
        assert(self.teams_alive() =~= Set::<Seq<char>>::empty());
    }

    /// No entity has hit points below zero.
    pub open spec fn hit_points_valid(self) -> bool {
        forall|h: BodyHandle| #[trigger]
            self.entities.dom().contains(h) ==> self.entities[h].hp >= 0
    }

    /// Hits never drive hit points below zero. After any run of events,
    /// every entity left was there before, and its hit points are at least
    /// zero or are what they were. So where none was below zero, none is.
    pub proof fn lemma_damage_floor(self, events: Seq<CollisionEvent>)
        ensures
            forall|h: BodyHandle| #[trigger]
                self.contacts(events).entities.dom().contains(h) ==> self.entities.dom().contains(h)
                    && (self.contacts(events).entities[h].hp >= 0 || self.contacts(
                    events,
                ).entities[h].hp == self.entities[h].hp),
            self.hit_points_valid() ==> self.contacts(events).hit_points_valid(),
        decreases events.len(),
    {
        if events.len() > 0 {
            let before = self.contacts(events.drop_last());
            self.lemma_damage_floor(events.drop_last());
            let after = before.contact(events.last());
            assert forall|h: BodyHandle| #[trigger] after.entities.dom().contains(h) implies {
                &&& self.entities.dom().contains(h)
                &&& after.entities[h].hp >= 0 || after.entities[h].hp == self.entities[h].hp
            } by {
                assert(before.entities.dom().contains(h));
            }
        }
    }

    /// A hit leaves the player with one hit point less, or with none where
    /// it had none.
    pub proof fn lemma_hit_takes_one(self, player: BodyHandle, bullet: BodyHandle)
        requires
            self.hostile(player, bullet),
        ensures
            self.contact(CollisionEvent::Started(Some(player), Some(bullet))) == self.hit(
                player,
                bullet,
            ),
            self.contact(CollisionEvent::Started(Some(bullet), Some(player))) == self.hit(
                player,
                bullet,
            ),
            self.hit(player, bullet).entities[player].hp == damaged(self.entities[player].hp),
            self.hit(player, bullet).entities[player].hp >= 0,
            !self.hit(player, bullet).entities.dom().contains(bullet),
            !self.hit(player, bullet).world.bodies().contains(bullet),
    {
        self.world.lemma_request(Command::RemoveBody { handle: bullet });
    }
}

/// A body whose centre is at exactly half its height is on the floor,
/// however fast it moves; a bullet there is stale.
pub proof fn lemma_grounded_is_on_floor(body: BodyView)
    requires
        2 * body.translation.z == body.dimensions.z,
    ensures
        on_floor(body),
        body.class == BodyClass::Bullet ==> stale(body),
{
}

/// A body that moves at no more than 0.49 units along every axis is at
/// rest, wherever it is; a bullet that slow is stale.
pub proof fn lemma_slow_is_at_rest(body: BodyView)
    requires
        -490 <= body.linvel.x <= 490,
        -490 <= body.linvel.y <= 490,
        -490 <= body.linvel.z <= 490,
    ensures
        at_rest(body),
        body.class == BodyClass::Bullet ==> stale(body),
{
}

/// Only bullets are ever stale.
pub proof fn lemma_only_bullets_stale(body: BodyView)
    requires
        body.class != BodyClass::Bullet,
    ensures
        !stale(body),
{
}

} // verus!
