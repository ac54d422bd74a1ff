//! The rigid-body engine as the game sees it.
//!
//! The engine itself works outside this library. Here stands what the game
//! keeps of it: the handles it has given out and the requests that the
//! engine has not been handed yet. Which bodies the engine holds follows
//! from the requests alone. Whoever runs the engine takes the requests with
//! [`take_commands`], carries them out in order, and reports back with
//! [`BodyReport`] and [`CollisionEvent`] values.

use crate::body::{
    collider_of, get_collider, rigid_body_of, to_rigid_body, Body, BodyView, ColliderDesc,
    RigidBodyDesc, Vec3,
};
use vstd::prelude::*;

verus! {

/// Names one body of the engine.
#[derive(Clone, Copy, Debug, PartialEq, Eq, Hash, Structural)]
pub struct BodyHandle(pub u64);

/// What the engine reports of one body.
#[derive(Clone, Copy, Debug, PartialEq, Eq, Structural)]
pub struct BodyState {
    pub translation: Vec3,
    pub linvel: Vec3,
    pub angvel: Vec3,
    pub mass: i32,
}

/// The engine's answer about one body: its state, or `None` where the
/// engine holds no body under that handle.
#[derive(Clone, Copy, Debug, PartialEq, Eq, Structural)]
pub struct BodyReport {
    pub handle: BodyHandle,
    pub state: Option<BodyState>,
}

/// One request to the engine.
#[derive(Clone, Copy, Debug, PartialEq, Eq, Structural)]
pub enum Command {
    /// Build a body with its collider and know it as `handle`.
    AddBody { handle: BodyHandle, rigid_body: RigidBodyDesc, collider: ColliderDesc },
    /// Overwrite position, velocities and the turn about the z axis, and
    /// put the body to sleep where `sleeping` says so.
    SetBody {
        handle: BodyHandle,
        translation: Vec3,
        linvel: Vec3,
        angvel: Vec3,
        yaw: i32,
        sleeping: bool,
    },
    /// Drop the body and its collider.
    RemoveBody { handle: BodyHandle },
    /// Move the body to `(x, y)` at the height it has.
    MoveBody { handle: BodyHandle, x: i32, y: i32 },
    /// Turn the body about the z axis to `yaw`.
    RotateBody { handle: BodyHandle, yaw: i32 },
    /// Set the upward speed and keep the other two components.
    JumpBody { handle: BodyHandle, linvel_z: i32 },
}

/// A contact between two colliders, each named by the body it belongs to, or
/// by `None` where the engine no longer knows that body.
#[derive(Clone, Copy, Debug, PartialEq, Eq, Structural)]
pub enum CollisionEvent {
    Started(Option<BodyHandle>, Option<BodyHandle>),
    Stopped(Option<BodyHandle>, Option<BodyHandle>),
}

/// The game's end of the engine.
pub struct PhysicsWorld {
    next_handle: u64,
    commands: Vec<Command>,
    settled: Ghost<Set<BodyHandle>>,
}

/// The mathematical content of a [`PhysicsWorld`].
pub struct PhysicsWorldView {
    /// The number of handles given out so far; the next one carries it.
    pub next_handle: nat,
    /// The bodies the engine holds when it has carried out the requests
    /// taken so far.
    pub settled: Set<BodyHandle>,
    /// The requests not yet taken, oldest first.
    pub commands: Seq<Command>,
}

/// The bodies the engine holds after it has carried out one request.
pub open spec fn carried_out(bodies: Set<BodyHandle>, command: Command) -> Set<BodyHandle> {
    match command {
        Command::AddBody { handle, .. } => bodies.insert(handle),
        Command::RemoveBody { handle } => bodies.remove(handle),
        _ => bodies,
    }
}

/// The bodies the engine holds after it has carried out a run of requests,
/// oldest first.
pub open spec fn carried_out_all(bodies: Set<BodyHandle>, commands: Seq<Command>) -> Set<BodyHandle>
    decreases commands.len(),
{
    if commands.len() == 0 {
        bodies
    } else {
        carried_out(carried_out_all(bodies, commands.drop_last()), commands.last())
    }
}

impl PhysicsWorldView {
    /// The bodies the engine holds once it has carried out every request.
    pub open spec fn bodies(self) -> Set<BodyHandle> {
        carried_out_all(self.settled, self.commands)
    }

    /// Every body was named by a handle already given out.
    pub open spec fn wf(self) -> bool {
        &&& self.next_handle <= u64::MAX
        &&& forall|h: BodyHandle| #[trigger] self.bodies().contains(h) ==> h.0 < self.next_handle
    }

    /// The handle that the next new body gets.
    pub open spec fn fresh_handle(self) -> BodyHandle {
        BodyHandle(self.next_handle as u64)
    }

    /// One more request at the end of the queue.
    pub open spec fn request(self, command: Command) -> PhysicsWorldView {
        PhysicsWorldView { commands: self.commands.push(command), ..self }
    }

    /// The request to build a new body under a fresh handle.
    pub open spec fn add_body(self, body: BodyView) -> PhysicsWorldView {
        PhysicsWorldView {
            next_handle: self.next_handle + 1,
            settled: self.settled,
            commands: self.commands.push(
                Command::AddBody {
                    handle: self.fresh_handle(),
                    rigid_body: rigid_body_of(body),
                    collider: collider_of(body),
                },
            ),
        }
    }

    /// The request to drop a body.
    pub open spec fn remove_body(self, handle: BodyHandle) -> PhysicsWorldView {
        self.request(Command::RemoveBody { handle })
    }

    /// The requests handed out: the engine is taken to carry them out.
    pub open spec fn taken(self) -> PhysicsWorldView {
        PhysicsWorldView {
            next_handle: self.next_handle,
            settled: self.bodies(),
            commands: Seq::empty(),
        }
    }

    /// One more request changes the engine's bodies by what that request does.
    pub proof fn lemma_request(self, command: Command)
        ensures
            self.request(command).bodies() == carried_out(self.bodies(), command),
    {
        assert(self.commands.push(command).drop_last() =~= self.commands);
    }

    /// A request that neither builds nor drops a body leaves the engine's
    /// bodies as they are.
    pub proof fn lemma_request_keeps_bodies(self, command: Command)
        requires
            !(command is AddBody),
            !(command is RemoveBody),
        ensures
            self.request(command).bodies() == self.bodies(),
            self.wf() ==> self.request(command).wf(),
    {
        self.lemma_request(command);
    }

    /// A new body is one more body, under a handle that no body had.
    pub proof fn lemma_add_body(self, body: BodyView)
        requires
            self.wf(),
            self.next_handle < u64::MAX,
        ensures
            !self.bodies().contains(self.fresh_handle()),
            self.add_body(body).bodies() == self.bodies().insert(self.fresh_handle()),
            self.add_body(body).wf(),
    {
        let command = Command::AddBody {
            handle: self.fresh_handle(),
            rigid_body: rigid_body_of(body),
            collider: collider_of(body),
        };
        self.lemma_request(command);
        assert(self.add_body(body).bodies() == self.request(command).bodies());
    }

    /// A body dropped is one body less.
    pub proof fn lemma_remove_body(self, handle: BodyHandle)
        requires
            self.wf(),
        ensures
            self.remove_body(handle).bodies() == self.bodies().remove(handle),
            self.remove_body(handle).wf(),
    {
        self.lemma_request(Command::RemoveBody { handle });
        assert forall|h: BodyHandle| #[trigger]
            self.remove_body(handle).bodies().contains(h) implies h.0 < self.next_handle by {
            assert(self.bodies().contains(h));
        }
    }

    /// Handing out the requests leaves the engine's bodies as they are.
    pub proof fn lemma_taken(self)
        ensures
            self.taken().bodies() == self.bodies(),
    {
    }
}

impl View for PhysicsWorld {
    type V = PhysicsWorldView;

    closed spec fn view(&self) -> PhysicsWorldView {
        PhysicsWorldView {
            next_handle: self.next_handle as nat,
            settled: self.settled@,
            commands: self.commands@,
        }
    }
}

/// A world without bodies and without requests.
pub fn init() -> (world: PhysicsWorld)
    ensures
        world@ == (PhysicsWorldView {
            next_handle: 0,
            settled: Set::empty(),
            commands: Seq::empty(),
        }),
        world@.wf(),
{
    PhysicsWorld { next_handle: 0, commands: Vec::new(), settled: Ghost(Set::empty()) }
}

/// Whether a handle is left for one more body.
pub fn has_spare_handle(world: &PhysicsWorld) -> (r: bool)
    ensures
        r == (world@.next_handle < u64::MAX),
{
    world.next_handle < u64::MAX
}

/// Asks the engine for a new body built after `body`, and returns the
/// handle under which it is known from now on.
pub fn add_body(world: &mut PhysicsWorld, body: &Body) -> (handle: BodyHandle)
    requires
        old(world)@.wf(),
        old(world)@.next_handle < u64::MAX,
    ensures
        handle == old(world)@.fresh_handle(),
        !old(world)@.bodies().contains(handle),
        final(world)@ == old(world)@.add_body(body@),
        final(world)@.bodies() == old(world)@.bodies().insert(handle),
        final(world)@.wf(),
{
    proof {
        world@.lemma_add_body(body@);
    }
    let handle = BodyHandle(world.next_handle);
    let command = Command::AddBody {
        handle,
        rigid_body: to_rigid_body(body),
        collider: get_collider(body),
    };
    world.commands.push(command);
    world.next_handle = world.next_handle + 1;
    handle
}

/// Asks the engine to drop the body `handle` with its collider.
pub fn remove_body(world: &mut PhysicsWorld, handle: BodyHandle)
    requires
        old(world)@.wf(),
    ensures
        final(world)@ == old(world)@.remove_body(handle),
        final(world)@.bodies() == old(world)@.bodies().remove(handle),
        final(world)@.wf(),
{
    proof {
        world@.lemma_remove_body(handle);
    }
    world.commands.push(Command::RemoveBody { handle });
}

/// Asks the engine to overwrite where the body `handle` is and how it
/// moves, and to let it sleep or not.
pub fn set_body(
    world: &mut PhysicsWorld,
    handle: BodyHandle,
    translation: Vec3,
    linvel: Vec3,
    angvel: Vec3,
    yaw: i32,
    sleeping: bool,
)
    ensures
        final(world)@ == old(world)@.request(
            Command::SetBody { handle, translation, linvel, angvel, yaw, sleeping },
        ),
        final(world)@.bodies() == old(world)@.bodies(),
        old(world)@.wf() ==> final(world)@.wf(),
{
    proof {
        world@.lemma_request_keeps_bodies(
            Command::SetBody { handle, translation, linvel, angvel, yaw, sleeping },
        );
    }
    world.commands.push(Command::SetBody { handle, translation, linvel, angvel, yaw, sleeping });
}

/// Asks the engine to move the body `handle` to `(x, y)` at its height.
pub fn move_body(world: &mut PhysicsWorld, handle: BodyHandle, x: i32, y: i32)
    ensures
        final(world)@ == old(world)@.request(Command::MoveBody { handle, x, y }),
        final(world)@.bodies() == old(world)@.bodies(),
        old(world)@.wf() ==> final(world)@.wf(),
{
    proof {
        world@.lemma_request_keeps_bodies(Command::MoveBody { handle, x, y });
    }
    world.commands.push(Command::MoveBody { handle, x, y });
}

/// Asks the engine to turn the body `handle` about the z axis.
pub fn rotate_body(world: &mut PhysicsWorld, handle: BodyHandle, rotation_angle: i32)
    ensures
        final(world)@ == old(world)@.request(Command::RotateBody { handle, yaw: rotation_angle }),
        final(world)@.bodies() == old(world)@.bodies(),
        old(world)@.wf() ==> final(world)@.wf(),
{
    proof {
        world@.lemma_request_keeps_bodies(Command::RotateBody { handle, yaw: rotation_angle });
    }
    world.commands.push(Command::RotateBody { handle, yaw: rotation_angle });
}

/// Asks the engine to set the upward speed of the body `handle`.
pub fn jump_body(world: &mut PhysicsWorld, handle: BodyHandle, linvelz: i32)
    ensures
        final(world)@ == old(world)@.request(Command::JumpBody { handle, linvel_z: linvelz }),
        final(world)@.bodies() == old(world)@.bodies(),
        old(world)@.wf() ==> final(world)@.wf(),
{
    proof {
        world@.lemma_request_keeps_bodies(Command::JumpBody { handle, linvel_z: linvelz });
    }
    world.commands.push(Command::JumpBody { handle, linvel_z: linvelz });
}

/// Hands out the requests made since the last call, oldest first, and
/// leaves none behind. The engine is taken to carry them out in that order.
pub fn take_commands(world: &mut PhysicsWorld) -> (commands: Vec<Command>)
    ensures
        commands@ == old(world)@.commands,
        final(world)@ == old(world)@.taken(),
        final(world)@.bodies() == old(world)@.bodies(),
        old(world)@.wf() ==> final(world)@.wf(),
{
    let mut taken: Vec<Command> = Vec::new();
    std::mem::swap(&mut taken, &mut world.commands);
    world.settled = Ghost(old(world)@.bodies());
    taken
}

/// Whether `handle` is among `handles`.
pub fn holds_handle(handles: &Vec<BodyHandle>, handle: BodyHandle) -> (r: bool)
    ensures
        r == handles@.contains(handle),
{
    let mut i: usize = 0;
    while i < handles.len()
        invariant
            i <= handles.len(),
            forall|j: int| 0 <= j < i ==> handles@[j] != handle,
        decreases handles.len() - i,
    {
        if handles[i] == handle {
            return true;
        }
        i += 1;
    }
    false
}

/// Adds `handle` to `handles` unless it is among them already.
pub fn note_handle(handles: &mut Vec<BodyHandle>, handle: BodyHandle)
    ensures
        old(handles)@.no_duplicates() ==> final(handles)@.no_duplicates(),
        final(handles)@.to_set() == old(handles)@.to_set().insert(handle),
        final(handles)@ == if old(handles)@.contains(handle) {
            old(handles)@
        } else {
            old(handles)@.push(handle)
        },
{
    if !holds_handle(handles, handle) {
        handles.push(handle);
    }
    proof {
        let before = old(handles)@;
        let after = handles@;
        assert forall|h: BodyHandle| after.contains(h) <==> (before.contains(h) || h
            == handle) by {
            if after.len() > before.len() {
                if before.contains(h) {
                    let k = choose|k: int| 0 <= k < before.len() && before[k] == h;
                    assert(after[k] == h);
                }
                if h == handle {
                    assert(after[before.len() as int] == h);
                }
            }
        }
        assert(after.to_set() =~= before.to_set().insert(handle));
    }
}

} // verus!
