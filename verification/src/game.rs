//! The table of entities.
//!
//! A [`Game`] couples each entity's name with the handle of its body in the
//! engine and with what the engine does not keep: team, owner, class, hit
//! points, footprint and the turn last asked for. Its content is a
//! [`GameView`]; every function here says which `GameView` it leaves behind.

use crate::body::{
    clone_name, is_defeated_player, name_view, views_of, Body, BodyClass, Vec3, SCALE,
};
use crate::physics_world;
use crate::physics_world::{
    BodyHandle, BodyReport, BodyState, CollisionEvent, Command, PhysicsWorld, PhysicsWorldView,
};
use crate::rules::{
    at_rest, materialize, metadata_of, on_floor, rounds_to_zero, same_team, stale, GameView,
    MetadataView,
};
use vstd::prelude::*;
use vstd::seq_lib::seq_to_set_is_finite;

verus! {

/// What the table keeps of an entity beside its body in the engine.
#[derive(Debug)]
pub struct BodyMetadata {
    pub id: String,
    pub team_id: Option<String>,
    pub owner_id: Option<String>,
    pub class: BodyClass,
    pub rotation: Vec3,
    pub dimensions: Vec3,
    pub hp: i32,
}

impl View for BodyMetadata {
    type V = MetadataView;

    open spec fn view(&self) -> MetadataView {
        MetadataView {
            id: self.id@,
            team_id: name_view(self.team_id),
            owner_id: name_view(self.owner_id),
            class: self.class,
            rotation: self.rotation,
            dimensions: self.dimensions,
            hp: self.hp,
        }
    }
}

impl Clone for BodyMetadata {
    fn clone(&self) -> (r: BodyMetadata)
        ensures
            r == *self,
    {
        BodyMetadata {
            id: self.id.clone(),
            team_id: clone_name(&self.team_id),
            owner_id: clone_name(&self.owner_id),
            class: self.class,
            rotation: self.rotation,
            dimensions: self.dimensions,
            hp: self.hp,
        }
    }
}

struct Entry {
    handle: BodyHandle,
    metadata: BodyMetadata,
}

/// The table of entities together with the game's end of the engine.
pub struct Game {
    world: PhysicsWorld,
    entries: Vec<Entry>,
}

spec fn has_handle(entries: Seq<Entry>, handle: BodyHandle) -> bool {
    exists|i: int| 0 <= i < entries.len() && (#[trigger] entries[i]).handle == handle
}

spec fn index_of(entries: Seq<Entry>, handle: BodyHandle) -> int {
    choose|i: int| 0 <= i < entries.len() && (#[trigger] entries[i]).handle == handle
}

spec fn entity_map(entries: Seq<Entry>) -> Map<BodyHandle, MetadataView> {
    Map::new(
        |h: BodyHandle| has_handle(entries, h),
        |h: BodyHandle| entries[index_of(entries, h)].metadata@,
    )
}

spec fn distinct_handles(entries: Seq<Entry>) -> bool {
    forall|i: int, j: int|
        0 <= i < j < entries.len() ==> (#[trigger] entries[i]).handle != (
        #[trigger] entries[j]).handle
}

spec fn distinct_ids(entries: Seq<Entry>) -> bool {
    forall|i: int, j: int|
        0 <= i < j < entries.len() ==> (#[trigger] entries[i]).metadata.id@ != (
        #[trigger] entries[j]).metadata.id@
}

spec fn has_id(entries: Seq<Entry>, id: Seq<char>) -> bool {
    exists|i: int| 0 <= i < entries.len() && (#[trigger] entries[i]).metadata.id@ == id
}

spec fn alive(entry: Entry) -> bool {
    entry.metadata.team_id is Some && entry.metadata.hp > 0
}

spec fn team_of(entry: Entry) -> Seq<char> {
    entry.metadata@.team_id.unwrap()
}

proof fn lemma_entry(entries: Seq<Entry>, i: int)
    requires
        distinct_handles(entries),
        0 <= i < entries.len(),
    ensures
        has_handle(entries, entries[i].handle),
        index_of(entries, entries[i].handle) == i,
        entity_map(entries).dom().contains(entries[i].handle),
        entity_map(entries)[entries[i].handle] == entries[i].metadata@,
{
    let h = entries[i].handle;
    assert(has_handle(entries, h));
    let k = index_of(entries, h);
    assert(0 <= k < entries.len() && entries[k].handle == h);
    if k < i {
        assert(entries[k].handle != entries[i].handle);
    } else if i < k {
        assert(entries[i].handle != entries[k].handle);
    }
}

proof fn lemma_push(entries: Seq<Entry>, e: Entry)
    requires
        distinct_handles(entries),
        !has_handle(entries, e.handle),
    ensures
        distinct_handles(entries.push(e)),
        entity_map(entries.push(e)) == entity_map(entries).insert(e.handle, e.metadata@),
{
    let after = entries.push(e);
    assert forall|i: int, j: int| 0 <= i < j < after.len() implies (#[trigger] after[i]).handle != (
    #[trigger] after[j]).handle by {
        if j == entries.len() {
            assert(entries[i].handle != e.handle);
        } else {
            assert(entries[i].handle != entries[j].handle);
        }
    }
    let left = entity_map(after);
    let right = entity_map(entries).insert(e.handle, e.metadata@);
    assert forall|h: BodyHandle| left.dom().contains(h) <==> right.dom().contains(h) by {
        if has_handle(after, h) {
            let k = index_of(after, h);
            if k < entries.len() {
                assert(entries[k].handle == h);
            }
        }
        if has_handle(entries, h) {
            let k = index_of(entries, h);
            assert(after[k].handle == h);
        }
        if h == e.handle {
            assert(after[entries.len() as int].handle == h);
        }
    }
    assert forall|h: BodyHandle| left.dom().contains(h) implies left[h] == right[h] by {
        let k = index_of(after, h);
        lemma_entry(after, k);
        if k < entries.len() {
            assert(entries[k].handle == h);
            lemma_entry(entries, k);
        }
    }
    assert(left =~= right);
}

proof fn lemma_update(entries: Seq<Entry>, i: int, e: Entry)
    requires
        distinct_handles(entries),
        0 <= i < entries.len(),
        e.handle == entries[i].handle,
    ensures
        distinct_handles(entries.update(i, e)),
        entity_map(entries.update(i, e)) == entity_map(entries).insert(e.handle, e.metadata@),
{
    let after = entries.update(i, e);
    assert forall|a: int, b: int| 0 <= a < b < after.len() implies (#[trigger] after[a]).handle != (
    #[trigger] after[b]).handle by {
        assert(entries[a].handle != entries[b].handle);
    }
    let left = entity_map(after);
    let right = entity_map(entries).insert(e.handle, e.metadata@);
    assert forall|h: BodyHandle| left.dom().contains(h) <==> right.dom().contains(h) by {
        if has_handle(after, h) {
            let k = index_of(after, h);
            assert(entries[k].handle == h);
        }
        if has_handle(entries, h) {
            let k = index_of(entries, h);
            assert(after[k].handle == h);
        }
        if h == e.handle {
            assert(after[i].handle == h);
        }
    }
    assert forall|h: BodyHandle| left.dom().contains(h) implies left[h] == right[h] by {
        let k = index_of(after, h);
        lemma_entry(after, k);
        assert(entries[k].handle == h);
        lemma_entry(entries, k);
    }
    assert(left =~= right);
}

proof fn lemma_remove(entries: Seq<Entry>, i: int)
    requires
        distinct_handles(entries),
        distinct_ids(entries),
        0 <= i < entries.len(),
    ensures
        distinct_handles(entries.remove(i)),
        distinct_ids(entries.remove(i)),
        entity_map(entries.remove(i)) == entity_map(entries).remove(entries[i].handle),
{
    let after = entries.remove(i);
    assert forall|a: int| 0 <= a < after.len() implies #[trigger] after[a] == entries[if a < i {
        a
    } else {
        a + 1
    }] by {}
    assert forall|a: int, b: int| 0 <= a < b < after.len() implies (#[trigger] after[a]).handle != (
    #[trigger] after[b]).handle by {
        let a0 = if a < i { a } else { a + 1 };
        let b0 = if b < i { b } else { b + 1 };
        assert(entries[a0].handle != entries[b0].handle);
    }
    assert forall|a: int, b: int| 0 <= a < b < after.len() implies (
    #[trigger] after[a]).metadata.id@ != (#[trigger] after[b]).metadata.id@ by {
        let a0 = if a < i { a } else { a + 1 };
        let b0 = if b < i { b } else { b + 1 };
        assert(entries[a0].metadata.id@ != entries[b0].metadata.id@);
    }
    let gone = entries[i].handle;
    let left = entity_map(after);
    let right = entity_map(entries).remove(gone);
    assert forall|h: BodyHandle| left.dom().contains(h) <==> right.dom().contains(h) by {
        if has_handle(after, h) {
            let k = index_of(after, h);
            let k0 = if k < i { k } else { k + 1 };
            assert(entries[k0].handle == h);
            if h == gone {
                lemma_entry(entries, k0);
                lemma_entry(entries, i);
            }
        }
        if has_handle(entries, h) && h != gone {
            let k = index_of(entries, h);
            let k1 = if k < i { k } else { k - 1 };
            assert(after[k1].handle == h);
        }
    }
    assert forall|h: BodyHandle| left.dom().contains(h) implies left[h] == right[h] by {
        let k = index_of(after, h);
        lemma_entry(after, k);
        let k0 = if k < i { k } else { k + 1 };
        assert(entries[k0].handle == h);
        lemma_entry(entries, k0);
    }
    assert(left =~= right);
}

proof fn lemma_dom_finite(entries: Seq<Entry>)
    ensures
        entity_map(entries).dom().finite(),
    decreases entries.len(),
{
    if entries.len() == 0 {
        assert(entity_map(entries).dom() =~= Set::empty());
    } else {
        let rest = entries.drop_last();
        lemma_dom_finite(rest);
        let last = entries.last();
        assert forall|h: BodyHandle|
            entity_map(entries).dom().contains(h) <==> entity_map(rest).dom().insert(
                last.handle,
            ).contains(h) by {
            if has_handle(entries, h) {
                let k = index_of(entries, h);
                if k < rest.len() {
                    assert(rest[k].handle == h);
                }
            }
            if has_handle(rest, h) {
                let k = index_of(rest, h);
                assert(entries[k].handle == h);
            }
            if h == last.handle {
                assert(entries[entries.len() - 1].handle == h);
            }
        }
        assert(entity_map(entries).dom() =~= entity_map(rest).dom().insert(last.handle));
    }
}

impl View for Game {
    type V = GameView;

    closed spec fn view(&self) -> GameView {
        GameView { world: self.world@, entities: entity_map(self.entries@) }
    }
}

impl Game {
    /// The table is sound: no handle and no name stands twice in it, and
    /// its content is well formed.
    pub closed spec fn wf(&self) -> bool {
        &&& distinct_handles(self.entries@)
        &&& distinct_ids(self.entries@)
        &&& self.world@.wf()
        &&& entity_map(self.entries@).dom() == self.world@.bodies()
    }

    /// A sound table has well-formed content.
    pub proof fn lemma_wf(&self)
        requires
            self.wf(),
        ensures
            self@.wf(),
    {
        let entries = self.entries@;
        let view = self@;
        lemma_dom_finite(entries);
        assert forall|a: BodyHandle, b: BodyHandle|
            #[trigger] view.entities.dom().contains(a) && #[trigger] view.entities.dom().contains(b)
                && view.entities[a].id == view.entities[b].id implies a == b by {
            let i = index_of(entries, a);
            let j = index_of(entries, b);
            lemma_entry(entries, i);
            lemma_entry(entries, j);
            if i < j {
                assert(entries[i].metadata.id@ != entries[j].metadata.id@);
            } else if j < i {
                assert(entries[j].metadata.id@ != entries[i].metadata.id@);
            }
        }
    }

    proof fn lemma_known(&self, i: int)
        requires
            self.wf(),
            0 <= i < self.entries@.len(),
        ensures
            self@.knows(self.entries@[i].metadata.id@),
            self@.handle_of(self.entries@[i].metadata.id@) == self.entries@[i].handle,
            self@.entities[self.entries@[i].handle] == self.entries@[i].metadata@,
            self@.entities.dom().contains(self.entries@[i].handle),
    {
        let entries = self.entries@;
        let id = entries[i].metadata.id@;
        lemma_entry(entries, i);
        self.lemma_wf();
        assert(self@.holds(entries[i].handle, id));
        let h = self@.handle_of(id);
        assert(self@.holds(h, id));
        assert(self@.entities.dom().contains(entries[i].handle));
    }

    proof fn lemma_unknown(&self, id: Seq<char>)
        requires
            self.wf(),
            !has_id(self.entries@, id),
        ensures
            !self@.knows(id),
    {
        let entries = self.entries@;
        if self@.knows(id) {
            let h = self@.handle_of(id);
            assert(self@.holds(h, id));
            let k = index_of(entries, h);
            lemma_entry(entries, k);
            assert(entries[k].metadata.id@ == id);
        }
    }
}

/// An empty table over an empty engine.
pub fn init() -> (game: Game)
    ensures
        game.wf(),
        game@.entities == Map::<BodyHandle, MetadataView>::empty(),
        game@.world == (PhysicsWorldView {
            next_handle: 0,
            settled: Set::empty(),
            commands: Seq::empty(),
        }),
{
    let game = Game { world: physics_world::init(), entries: Vec::new() };
    assert(entity_map(game.entries@) =~= Map::<BodyHandle, MetadataView>::empty());
    assert(entity_map(game.entries@).dom() =~= game.world@.bodies());
    game
}

/// Whether the engine can name one more body.
pub fn has_spare_handle(game_state: &Game) -> (r: bool)
    ensures
        r == (game_state@.world.next_handle < u64::MAX),
{
    physics_world::has_spare_handle(&game_state.world)
}

/// Hands out the requests to the engine made since the last call, oldest
/// first.
pub fn take_commands(game_state: &mut Game) -> (commands: Vec<Command>)
    requires
        old(game_state).wf(),
    ensures
        final(game_state).wf(),
        commands@ == old(game_state)@.world.commands,
        final(game_state)@ == (GameView {
            world: old(game_state)@.world.taken(),
            entities: old(game_state)@.entities,
        }),
{
    physics_world::take_commands(&mut game_state.world)
}

fn find_entry(entries: &Vec<Entry>, id: &String) -> (r: Option<usize>)
    ensures
        match r {
            Some(i) => i < entries.len() && entries@[i as int].metadata.id@ == id@,
            None => !has_id(entries@, id@),
        },
{
    let mut i: usize = 0;
    while i < entries.len()
        invariant
            i <= entries.len(),
            forall|j: int| 0 <= j < i ==> (#[trigger] entries@[j]).metadata.id@ != id@,
        decreases entries.len() - i,
    {
        if entries[i].metadata.id == *id {
            return Some(i);
        }
        i += 1;
    }
    None
}

fn find_handle_entry(entries: &Vec<Entry>, handle: BodyHandle) -> (r: Option<usize>)
    ensures
        match r {
            Some(i) => i < entries.len() && entries@[i as int].handle == handle,
            None => !has_handle(entries@, handle),
        },
{
    let mut i: usize = 0;
    while i < entries.len()
        invariant
            i <= entries.len(),
            forall|j: int| 0 <= j < i ==> (#[trigger] entries@[j]).handle != handle,
        decreases entries.len() - i,
    {
        if entries[i].handle == handle {
            return Some(i);
        }
        i += 1;
    }
    None
}

fn metadata_from(body: &Body) -> (metadata: BodyMetadata)
    ensures
        metadata@ == metadata_of(body@),
{
    BodyMetadata {
        id: body.id.clone(),
        team_id: clone_name(&body.team_id),
        owner_id: clone_name(&body.owner_id),
        class: body.class,
        rotation: body.rotation,
        dimensions: body.dimensions,
        hp: body.hp,
    }
}

fn remove_entry(game_state: &mut Game, i: usize)
    requires
        old(game_state).wf(),
        i < old(game_state).entries@.len(),
    ensures
        final(game_state).wf(),
        final(game_state)@ == old(game_state)@.remove(old(game_state).entries@[i as int].handle),
{
    let handle = game_state.entries[i].handle;
    proof {
        lemma_remove(game_state.entries@, i as int);
    }
    physics_world::remove_body(&mut game_state.world, handle);
    game_state.entries.remove(i);
}

/// Takes in a snapshot of an entity. A name that the table does not know
/// gets a new body in the engine, and the call returns `true`. A known name
/// keeps its body: the snapshot overwrites its metadata, the engine is asked
/// to overwrite its motion, and the call returns `false`.
pub fn upsert_body(game_state: &mut Game, body: &Body) -> (is_new: bool)
    requires
        old(game_state).wf(),
        old(game_state)@.knows(body@.id) || old(game_state)@.world.next_handle < u64::MAX,
    ensures
        final(game_state).wf(),
        is_new == !old(game_state)@.knows(body@.id),
        final(game_state)@ == old(game_state)@.upsert(body@),
        final(game_state)@.knows(body@.id),
        final(game_state)@.handle_of(body@.id) == if is_new {
            old(game_state)@.world.fresh_handle()
        } else {
            old(game_state)@.handle_of(body@.id)
        },
{
    proof {
        old(game_state).lemma_wf();
        old(game_state)@.lemma_upsert(body@);
    }
    let metadata = metadata_from(body);
    match find_entry(&game_state.entries, &body.id) {
        Some(i) => {
            let handle = game_state.entries[i].handle;
            proof {
                game_state.lemma_known(i as int);
                lemma_update(game_state.entries@, i as int, Entry { handle, metadata });
            }
            physics_world::set_body(
                &mut game_state.world,
                handle,
                body.translation,
                body.linvel,
                body.angvel,
                body.rotation.z,
                is_defeated_player(body),
            );
            game_state.entries.set(i, Entry { handle, metadata });
            proof {
                let before = old(game_state).entries@;
                let after = game_state.entries@;
                assert forall|a: int, b: int| 0 <= a < b < after.len() implies (
                #[trigger] after[a]).metadata.id@ != (#[trigger] after[b]).metadata.id@ by {
                    assert(before[a].metadata.id@ != before[b].metadata.id@);
                }
                assert(entity_map(after).dom() =~= entity_map(before).dom());
            }
            false
        },
        None => {
            proof {
                game_state.lemma_unknown(body@.id);
            }
            let handle = physics_world::add_body(&mut game_state.world, body);
            proof {
                let before = old(game_state).entries@;
                if has_handle(before, handle) {
                    let k = index_of(before, handle);
                    lemma_entry(before, k);
                }
                lemma_push(before, Entry { handle, metadata });
            }
            game_state.entries.push(Entry { handle, metadata });
            proof {
                let before = old(game_state).entries@;
                let after = game_state.entries@;
                assert forall|a: int, b: int| 0 <= a < b < after.len() implies (
                #[trigger] after[a]).metadata.id@ != (#[trigger] after[b]).metadata.id@ by {
                    if b < before.len() {
                        assert(before[a].metadata.id@ != before[b].metadata.id@);
                    } else {
                        assert(before[a].metadata.id@ != body@.id);
                    }
                }
            }
            true
        },
    }
}

/// Takes the entity named like `body` out of the table and asks the engine
/// to drop its body. Nothing happens where the table knows no such name.
pub fn delete_body(body: Body, game_state: &mut Game)
    requires
        old(game_state).wf(),
    ensures
        final(game_state).wf(),
        final(game_state)@ == old(game_state)@.delete(body@.id),
        !final(game_state)@.knows(body@.id),
{
    proof {
        old(game_state).lemma_wf();
        old(game_state)@.lemma_delete(body@.id);
    }
    match find_entry(&game_state.entries, &body.id) {
        Some(i) => {
            proof {
                game_state.lemma_known(i as int);
            }
            remove_entry(game_state, i);
        },
        None => {
            proof {
                game_state.lemma_unknown(body@.id);
            }
        },
    }
}

/// The handle of the body of the entity named `body_id`, or `None` where
/// the table knows no such name.
pub fn find_handle(body_id: &String, game_state: &Game) -> (r: Option<BodyHandle>)
    requires
        game_state.wf(),
    ensures
        r is Some == game_state@.knows(body_id@),
        r is Some ==> r.unwrap() == game_state@.handle_of(body_id@),
{
    match find_entry(&game_state.entries, body_id) {
        Some(i) => {
            proof {
                game_state.lemma_known(i as int);
            }
            Some(game_state.entries[i].handle)
        },
        None => {
            proof {
                game_state.lemma_unknown(body_id@);
            }
            None
        },
    }
}

/// The handle of the body of the entity named `body_id`, which the table
/// must know.
pub fn get_handle(body_id: &String, game_state: &Game) -> (handle: BodyHandle)
    requires
        game_state.wf(),
        game_state@.knows(body_id@),
    ensures
        handle == game_state@.handle_of(body_id@),
        game_state@.holds(handle, body_id@),
{
    let found = find_handle(body_id, game_state);
    found.unwrap()
}

/// The handles of all bodies in the table, each once.
pub fn get_handles(game_state: &Game) -> (handles: Vec<BodyHandle>)
    requires
        game_state.wf(),
    ensures
        handles@.no_duplicates(),
        handles@.to_set() == game_state@.entities.dom(),
{
    let mut handles: Vec<BodyHandle> = Vec::new();
    let mut i: usize = 0;
    while i < game_state.entries.len()
        invariant
            i <= game_state.entries.len(),
            handles@.len() == i,
            forall|j: int| 0 <= j < i ==> #[trigger] handles@[j] == game_state.entries@[j].handle,
        decreases game_state.entries.len() - i,
    {
        handles.push(game_state.entries[i].handle);
        i += 1;
    }
    proof {
        let entries = game_state.entries@;
        assert forall|a: int, b: int| 0 <= a < handles@.len() && 0 <= b < handles@.len() && a
            != b implies handles@[a] != handles@[b] by {
            if a < b {
                assert(entries[a].handle != entries[b].handle);
            } else {
                assert(entries[b].handle != entries[a].handle);
            }
        }
        assert forall|h: BodyHandle|
            handles@.to_set().contains(h) <==> game_state@.entities.dom().contains(h) by {
            if handles@.contains(h) {
                let k = choose|k: int| 0 <= k < handles@.len() && handles@[k] == h;
                assert(entries[k].handle == h);
            }
            if has_handle(entries, h) {
                let k = index_of(entries, h);
                assert(handles@[k] == h);
            }
        }
        assert(handles@.to_set() =~= game_state@.entities.dom());
    }
    handles
}

/// Asks the engine to move the body of the entity named `body_id`, which
/// the table must know, to `(x, y)` at the height it has.
pub fn move_body(game_state: &mut Game, body_id: &String, x: i32, y: i32)
    requires
        old(game_state).wf(),
        old(game_state)@.knows(body_id@),
    ensures
        final(game_state).wf(),
        final(game_state)@ == old(game_state)@.request(
            Command::MoveBody { handle: old(game_state)@.handle_of(body_id@), x, y },
        ),
{
    let handle = get_handle(body_id, game_state);
    physics_world::move_body(&mut game_state.world, handle, x, y);
}

/// Asks the engine to turn the body of the entity named `body_id`, which
/// the table must know, about the z axis.
pub fn rotate_body(game_state: &mut Game, body_id: &String, rotation_angle: i32)
    requires
        old(game_state).wf(),
        old(game_state)@.knows(body_id@),
    ensures
        final(game_state).wf(),
        final(game_state)@ == old(game_state)@.request(
            Command::RotateBody {
                handle: old(game_state)@.handle_of(body_id@),
                yaw: rotation_angle,
            },
        ),
{
    let handle = get_handle(body_id, game_state);
    physics_world::rotate_body(&mut game_state.world, handle, rotation_angle);
}

/// Asks the engine to set the upward speed of the body of the entity named
/// `body_id`, which the table must know.
pub fn jump_body(game_state: &mut Game, body_id: &String, linvel_z: i32)
    requires
        old(game_state).wf(),
        old(game_state)@.knows(body_id@),
    ensures
        final(game_state).wf(),
        final(game_state)@ == old(game_state)@.request(
            Command::JumpBody { handle: old(game_state)@.handle_of(body_id@), linvel_z },
        ),
{
    let handle = get_handle(body_id, game_state);
    physics_world::jump_body(&mut game_state.world, handle, linvel_z);
}

/// Puts a report of the engine and the metadata of the table together.
pub fn rigid_body_to_body(body: &BodyState, metadata: &BodyMetadata) -> (r: Body)
    ensures
        r@ == materialize(*body, metadata@),
{
    Body {
        id: metadata.id.clone(),
        team_id: clone_name(&metadata.team_id),
        owner_id: clone_name(&metadata.owner_id),
        translation: body.translation,
        rotation: metadata.rotation,
        linvel: body.linvel,
        angvel: body.angvel,
        dimensions: metadata.dimensions,
        mass: body.mass,
        class: metadata.class,
        hp: metadata.hp,
    }
}

/// The entity behind `handle`, made of the engine's report `state` and the
/// table's metadata. There is none where either half is missing.
pub fn get_body_from_handle(
    game_state: &Game,
    handle: &BodyHandle,
    state: Option<BodyState>,
) -> (r: Option<Body>)
    requires
        game_state.wf(),
    ensures
        r is Some == game_state@.body_at(*handle, state) is Some,
        r is Some ==> r.unwrap()@ == game_state@.body_at(*handle, state).unwrap(),
{
    match (state, find_handle_entry(&game_state.entries, *handle)) {
        (Some(body), Some(i)) => {
            proof {
                game_state.lemma_known(i as int);
            }
            Some(rigid_body_to_body(&body, &game_state.entries[i].metadata))
        },
        _ => None,
    }
}

/// The entities that the reports show, in the order of the reports. A
/// report without a state, or about a body that the table no longer has,
/// shows none.
pub fn get_bodies_from_reports(game_state: &Game, reports: &Vec<BodyReport>) -> (bodies: Vec<Body>)
    requires
        game_state.wf(),
    ensures
        views_of(bodies@) == game_state@.bodies_of(reports@),
{
    let mut bodies: Vec<Body> = Vec::new();
    let mut i: usize = 0;
    while i < reports.len()
        invariant
            i <= reports.len(),
            game_state.wf(),
            views_of(bodies@) == game_state@.bodies_of(reports@.take(i as int)),
        decreases reports.len() - i,
    {
        proof {
            assert(reports@.take(i + 1).drop_last() =~= reports@.take(i as int));
        }
        let ghost before = bodies@;
        if let Some(body) = get_body_from_handle(game_state, &reports[i].handle, reports[i].state) {
            bodies.push(body);
            proof {
                assert(views_of(bodies@) =~= views_of(before).push(body@));
            }
        }
        i += 1;
    }
    proof {
        assert(reports@.take(reports.len() as int) =~= reports@);
    }
    bodies
}

/// Whether two optional team names are the same team.
pub fn on_same_team(a: &Option<String>, b: &Option<String>) -> (r: bool)
    ensures
        r == same_team(name_view(*a), name_view(*b)),
{
    match (a, b) {
        (Some(x), Some(y)) => *x == *y,
        _ => false,
    }
}

/// The handle and the metadata of the body behind one side of a contact, or
/// `None` where the engine named no body or the table no longer has it.
pub fn get_metadata_for_collider_handle(
    side: Option<BodyHandle>,
    game: &Game,
) -> (r: Option<(BodyHandle, BodyMetadata)>)
    requires
        game.wf(),
    ensures
        r is Some == (side is Some && game@.entities.dom().contains(side.unwrap())),
        r is Some ==> r.unwrap().0 == side.unwrap(),
        r is Some ==> r.unwrap().1@ == game@.entities[side.unwrap()],
{
    match side {
        Some(handle) => match find_handle_entry(&game.entries, handle) {
            Some(i) => {
                proof {
                    game.lemma_known(i as int);
                }
                Some((handle, game.entries[i].metadata.clone()))
            },
            None => None,
        },
        None => None,
    }
}

/// Applies a hit of the bullet `bullet_handle` on the player
/// `player_handle`. Without the player in the table nothing happens.
pub fn handle_player_bullet_collision(
    player_handle: BodyHandle,
    bullet_handle: BodyHandle,
    game_state: &mut Game,
)
    requires
        old(game_state).wf(),
    ensures
        final(game_state).wf(),
        final(game_state)@ == if old(game_state)@.entities.dom().contains(player_handle) {
            old(game_state)@.hit(player_handle, bullet_handle)
        } else {
            old(game_state)@
        },
{
    match find_handle_entry(&game_state.entries, player_handle) {
        Some(ip) => {
            let hp: i32 = game_state.entries[ip].metadata.hp;
            let mut metadata = game_state.entries[ip].metadata.clone();
            metadata.hp = if hp > 0 {
                hp - 1
            } else {
                0
            };
            proof {
                game_state.lemma_known(ip as int);
                lemma_update(
                    game_state.entries@,
                    ip as int,
                    Entry { handle: player_handle, metadata },
                );
            }
            game_state.entries.set(ip, Entry { handle: player_handle, metadata });
            proof {
                let before = old(game_state).entries@;
                let after = game_state.entries@;
                assert forall|a: int, b: int| 0 <= a < b < after.len() implies (
                #[trigger] after[a]).metadata.id@ != (#[trigger] after[b]).metadata.id@ by {
                    assert(before[a].metadata.id@ != before[b].metadata.id@);
                }
                assert(entity_map(after).dom() =~= entity_map(before).dom());
            }
            match find_handle_entry(&game_state.entries, bullet_handle) {
                Some(ib) => {
                    remove_entry(game_state, ib);
                },
                None => {
                    physics_world::remove_body(&mut game_state.world, bullet_handle);
                    proof {
                        let entities = entity_map(game_state.entries@);
                        assert(!entities.dom().contains(bullet_handle));
                        assert(entities.remove(bullet_handle) =~= entities);
                        assert(game_state.world@.bodies() =~= entities.dom());
                    }
                },
            }
        },
        None => {},
    }
}

/// Turns one event of the engine into its effect on the game. Where a
/// player and a bullet that are not on one team begin to touch, the player
/// loses a hit point and the bullet is removed. Every other event, and one
/// that names a body the table no longer has, changes nothing.
pub fn handle_contact(collision_event: CollisionEvent, game_state: &mut Game)
    requires
        old(game_state).wf(),
    ensures
        final(game_state).wf(),
        final(game_state)@ == old(game_state)@.contact(collision_event),
{
    match collision_event {
        CollisionEvent::Started(side_a, side_b) => {
            let ((body_handle_a, metadata_a), (body_handle_b, metadata_b)) = match (
                get_metadata_for_collider_handle(side_a, game_state),
                get_metadata_for_collider_handle(side_b, game_state),
            ) {
                (Some(a), Some(b)) => (a, b),
                _ => {
                    return ;
                },
            };
            let are_objects_on_same_team = on_same_team(&metadata_a.team_id, &metadata_b.team_id);
            match (metadata_a.class, metadata_b.class) {
                (BodyClass::Player, BodyClass::Bullet) => {
                    if !are_objects_on_same_team {
                        handle_player_bullet_collision(body_handle_a, body_handle_b, game_state);
                    }
                },
                (BodyClass::Bullet, BodyClass::Player) => {
                    if !are_objects_on_same_team {
                        handle_player_bullet_collision(body_handle_b, body_handle_a, game_state);
                    }
                },
                _ => {},
            };
        },
        _ => {},
    };
}

fn speed_rounds_to_zero(speed: i32) -> (r: bool)
    ensures
        r == rounds_to_zero(speed as int),
{
    let twice: i64 = 2 * (speed as i64);
    -(SCALE as i64) < twice && twice < SCALE as i64
}

/// Whether `body` moves at a speed that rounds to zero along every axis.
pub fn is_at_rest(body: &Body) -> (r: bool)
    ensures
        r == at_rest(body@),
{
    speed_rounds_to_zero(body.linvel.x) && speed_rounds_to_zero(body.linvel.y)
        && speed_rounds_to_zero(body.linvel.z)
}

/// Whether `body` has sunk to its resting height.
pub fn is_on_floor(body: &Body) -> (r: bool)
    ensures
        r == on_floor(body@),
{
    let origin_height: i64 = body.translation.z as i64;
    let object_height: i64 = body.dimensions.z as i64;
    2 * origin_height <= object_height
}

/// Whether `body` is to be removed: a bullet on the floor or at rest. No
/// other class is ever stale.
pub fn is_stale(body: &Body) -> (r: bool)
    ensures
        r == stale(body@),
{
    match body.class {
        BodyClass::Bullet => is_on_floor(body) || is_at_rest(body),
        _ => false,
    }
}

/// Looks at the reported bodies in turn and removes each stale one from the
/// table and from the engine. Returns whether any was removed.
pub fn remove_stale_objects(game_state: &mut Game, bodies: &Vec<BodyReport>) -> (any_removed: bool)
    requires
        old(game_state).wf(),
    ensures
        final(game_state).wf(),
        final(game_state)@ == old(game_state)@.sweep(bodies@),
        any_removed == old(game_state)@.sweep_removes(bodies@),
{
    let mut any_removed = false;
    let mut i: usize = 0;
    while i < bodies.len()
        invariant
            i <= bodies.len(),
            game_state.wf(),
            game_state@ == old(game_state)@.sweep(bodies@.take(i as int)),
            any_removed == old(game_state)@.sweep_removes(bodies@.take(i as int)),
        decreases bodies.len() - i,
    {
        let report = bodies[i];
        proof {
            assert(bodies@.take(i + 1).drop_last() =~= bodies@.take(i as int));
            game_state.lemma_wf();
        }
        if let Some(body) = get_body_from_handle(game_state, &report.handle, report.state) {
            if is_stale(&body) {
                proof {
                    let view = game_state@;
                    assert(view.holds(report.handle, body@.id));
                    assert(view.handle_of(body@.id) == report.handle);
                }
                delete_body(body, game_state);
                any_removed = true;
            }
        }
        i += 1;
    }
    proof {
        assert(bodies@.take(bodies.len() as int) =~= bodies@);
    }
    any_removed
}

fn is_alive(entry: &Entry) -> (r: bool)
    ensures
        r == alive(*entry),
{
    match entry.metadata.team_id {
        Some(_) => entry.metadata.hp > 0,
        None => false,
    }
}

fn names_team_of(entries: &Vec<Entry>, teams: &Vec<usize>, i: usize) -> (r: bool)
    requires
        i < entries.len(),
        alive(entries@[i as int]),
        forall|k: int|
            0 <= k < teams.len() ==> #[trigger] teams@[k] < entries.len() && alive(
                entries@[teams@[k] as int],
            ),
    ensures
        r == exists|k: int|
            0 <= k < teams.len() && team_of(entries@[#[trigger] teams@[k] as int]) == team_of(
                entries@[i as int],
            ),
{
    let mut k: usize = 0;
    while k < teams.len()
        invariant
            k <= teams.len(),
            i < entries.len(),
            alive(entries@[i as int]),
            forall|m: int|
                0 <= m < teams.len() ==> #[trigger] teams@[m] < entries.len() && alive(
                    entries@[teams@[m] as int],
                ),
            forall|m: int|
                0 <= m < k ==> team_of(entries@[#[trigger] teams@[m] as int]) != team_of(
                    entries@[i as int],
                ),
        decreases teams.len() - k,
    {
        if on_same_team(&entries[teams[k]].metadata.team_id, &entries[i].metadata.team_id) {
            return true;
        }
        k += 1;
    }
    false
}

/// The number of teams that still have an entity with hit points left.
/// Entities without a team, and those without hit points, count for nothing.
pub fn get_num_teams_alive(game_state: &Game) -> (n: usize)
    requires
        game_state.wf(),
    ensures
        game_state@.teams_alive().finite(),
        n == game_state@.teams_alive().len(),
{
    let entries = &game_state.entries;
    let mut teams: Vec<usize> = Vec::new();
    let mut i: usize = 0;
    while i < entries.len()
        invariant
            i <= entries.len(),
            forall|k: int|
                0 <= k < teams.len() ==> #[trigger] teams@[k] < i && alive(
                    entries@[teams@[k] as int],
                ),
            forall|a: int, b: int|
                0 <= a < b < teams.len() ==> team_of(entries@[#[trigger] teams@[a] as int])
                    != team_of(entries@[#[trigger] teams@[b] as int]),
            forall|j: int|
                0 <= j < i && alive(#[trigger] entries@[j]) ==> exists|k: int|
                    0 <= k < teams.len() && team_of(entries@[#[trigger] teams@[k] as int])
                        == team_of(entries@[j]),
        decreases entries.len() - i,
    {
        if is_alive(&entries[i]) {
            if !names_team_of(entries, &teams, i) {
                let ghost before = teams@;
                teams.push(i);
                proof {
                    assert forall|j: int|
                        0 <= j < i + 1 && alive(#[trigger] entries@[j]) implies exists|k: int|
                        0 <= k < teams.len() && team_of(entries@[#[trigger] teams@[k] as int])
                            == team_of(entries@[j]) by {
                        if j < i {
                            let k = choose|k: int|
                                0 <= k < before.len() && team_of(
                                    entries@[#[trigger] before[k] as int],
                                ) == team_of(entries@[j]);
                            assert(teams@[k] == before[k]);
                        } else {
                            assert(teams@[before.len() as int] == i);
                        }
                    }
                }
            }
        }
        i += 1;
    }
    proof {
        let view = game_state@;
        let names = Seq::new(teams@.len(), |k: int| team_of(entries@[teams@[k] as int]));
        assert forall|a: int, b: int| 0 <= a < names.len() && 0 <= b < names.len() && a
            != b implies names[a] != names[b] by {
            if a < b {
                assert(team_of(entries@[teams@[a] as int]) != team_of(entries@[teams@[b] as int]));
            } else {
                assert(team_of(entries@[teams@[b] as int]) != team_of(entries@[teams@[a] as int]));
            }
        }
        assert forall|team: Seq<char>|
            names.to_set().contains(team) <==> view.teams_alive().contains(team) by {
            if names.contains(team) {
                let k = choose|k: int| 0 <= k < names.len() && names[k] == team;
                let j = teams@[k] as int;
                game_state.lemma_known(j);
                assert(view.fights_for(entries@[j].handle, team));
            }
            if view.teams_alive().contains(team) {
                let h = choose|h: BodyHandle| view.fights_for(h, team);
                let j = index_of(entries@, h);
                lemma_entry(entries@, j);
                assert(alive(entries@[j]));
                let k = choose|k: int|
                    0 <= k < teams.len() && team_of(entries@[#[trigger] teams@[k] as int])
                        == team_of(entries@[j]);
                assert(names[k] == team);
            }
        }
        assert(names.to_set() =~= view.teams_alive());
        seq_to_set_is_finite(names);
        names.unique_seq_to_set();
    }
    teams.len()
}

/// Whether the match is over: exactly one team is still alive. With no
/// team left alive the match is not won.
pub fn is_won(game_state: &Game) -> (won: bool)
    requires
        game_state.wf(),
    ensures
        won == game_state@.won(),
{
    get_num_teams_alive(game_state) == 1
}

/// Takes in what one step of the engine brought: the contacts it reported
/// and the bodies it holds active. Contacts are resolved first, in order;
/// then every stale body among the active ones is removed. Returns the
/// handles of the active bodies that are still in the table.
pub fn step(
    game_state: &mut Game,
    collisions: &Vec<CollisionEvent>,
    active: &Vec<BodyReport>,
) -> (touched: Vec<BodyHandle>)
    requires
        old(game_state).wf(),
    ensures
        final(game_state).wf(),
        final(game_state)@ == old(game_state)@.contacts(collisions@).sweep(active@),
        touched@ == final(game_state)@.remaining(active@),
{
    let mut i: usize = 0;
    while i < collisions.len()
        invariant
            i <= collisions.len(),
            game_state.wf(),
            game_state@ == old(game_state)@.contacts(collisions@.take(i as int)),
        decreases collisions.len() - i,
    {
        proof {
            assert(collisions@.take(i + 1).drop_last() =~= collisions@.take(i as int));
        }
        handle_contact(collisions[i], game_state);
        i += 1;
    }
    proof {
        assert(collisions@.take(collisions.len() as int) =~= collisions@);
    }
    let _any_removed = remove_stale_objects(game_state, active);

    let mut touched: Vec<BodyHandle> = Vec::new();
    let mut j: usize = 0;
    while j < active.len()
        invariant
            j <= active.len(),
            game_state.wf(),
            touched@ == game_state@.remaining(active@.take(j as int)),
        decreases active.len() - j,
    {
        proof {
            assert(active@.take(j + 1).drop_last() =~= active@.take(j as int));
        }
        if find_handle_entry(&game_state.entries, active[j].handle).is_some() {
            touched.push(active[j].handle);
        }
        j += 1;
    }
    proof {
        assert(active@.take(active.len() as int) =~= active@);
    }
    touched
}

} // verus!
