//! Bodies: the entities of the arena as the outside world names them.
//!
//! Every length, speed, angle and mass is a signed count of thousandths of a
//! unit. A body two units tall has `dimensions.z == 2_000`.

use vstd::prelude::*;

verus! {

/// Thousandths in one unit.
pub const SCALE: i32 = 1_000;

/// Radius of the capsule that stands for a player, in thousandths.
pub const PLAYER_COLLIDER_RADIUS: i32 = 525;

/// Three components along the x, y and z axes.
#[derive(Clone, Copy, Debug, PartialEq, Eq, Structural)]
pub struct Vec3 {
    pub x: i32,
    pub y: i32,
    pub z: i32,
}

/// What kind of thing a body is: it settles the shape of its collider,
/// whether the engine moves it, and whether it takes part in combat.
#[derive(Clone, Copy, Debug, PartialEq, Eq, Structural)]
pub enum BodyClass {
    Player,
    Bullet,
    Obstacle,
    Test,
}

/// One entity with its physical and its gameplay side.
#[derive(Debug)]
pub struct Body {
    pub id: String,
    pub team_id: Option<String>,
    pub owner_id: Option<String>,
    pub translation: Vec3,
    pub rotation: Vec3,
    pub linvel: Vec3,
    pub angvel: Vec3,
    pub dimensions: Vec3,
    pub mass: i32,
    pub class: BodyClass,
    pub hp: i32,
}

/// A body with its names read as sequences of characters.
pub struct BodyView {
    pub id: Seq<char>,
    pub team_id: Option<Seq<char>>,
    pub owner_id: Option<Seq<char>>,
    pub translation: Vec3,
    pub rotation: Vec3,
    pub linvel: Vec3,
    pub angvel: Vec3,
    pub dimensions: Vec3,
    pub mass: i32,
    pub class: BodyClass,
    pub hp: i32,
}

/// The characters of an optional name.
pub open spec fn name_view(name: Option<String>) -> Option<Seq<char>> {
    match name {
        Some(s) => Some(s@),
        None => None,
    }
}

impl View for Body {
    type V = BodyView;

    open spec fn view(&self) -> BodyView {
        BodyView {
            id: self.id@,
            team_id: name_view(self.team_id),
            owner_id: name_view(self.owner_id),
            translation: self.translation,
            rotation: self.rotation,
            linvel: self.linvel,
            angvel: self.angvel,
            dimensions: self.dimensions,
            mass: self.mass,
            class: self.class,
            hp: self.hp,
        }
    }
}

/// The bodies one after the other, each by its view.
pub open spec fn views_of(bodies: Seq<Body>) -> Seq<BodyView> {
    Seq::new(bodies.len(), |i: int| bodies[i]@)
}

/// A copy of an optional name.
pub fn clone_name(name: &Option<String>) -> (r: Option<String>)
    ensures
        r == *name,
{
    match name {
        Some(s) => Some(s.clone()),
        None => None,
    }
}

impl Clone for Body {
    fn clone(&self) -> (r: Body)
        ensures
            r == *self,
    {
        Body {
            id: self.id.clone(),
            team_id: clone_name(&self.team_id),
            owner_id: clone_name(&self.owner_id),
            translation: self.translation,
            rotation: self.rotation,
            linvel: self.linvel,
            angvel: self.angvel,
            dimensions: self.dimensions,
            mass: self.mass,
            class: self.class,
            hp: self.hp,
        }
    }
}

/// Two intervals, each given by its centre and its full length, share an
/// inner point. Both sides are doubled, so that no half is ever taken:
/// `centre - length / 2 < other_centre + other_length / 2` and the mirror of it.
pub open spec fn spans_overlap(centre_a: int, length_a: int, centre_b: int, length_b: int) -> bool {
    &&& 2 * centre_a - length_a < 2 * centre_b + length_b
    &&& 2 * centre_a + length_a > 2 * centre_b - length_b
}

/// The axis-aligned boxes of two bodies overlap on all three axes at once.
pub open spec fn boxes_overlap(a: BodyView, b: BodyView) -> bool {
    &&& spans_overlap(
        a.translation.x as int,
        a.dimensions.x as int,
        b.translation.x as int,
        b.dimensions.x as int,
    )
    &&& spans_overlap(
        a.translation.y as int,
        a.dimensions.y as int,
        b.translation.y as int,
        b.dimensions.y as int,
    )
    &&& spans_overlap(
        a.translation.z as int,
        a.dimensions.z as int,
        b.translation.z as int,
        b.dimensions.z as int,
    )
}

/// The box of `body` overlaps the box of at least one of `bodies`.
pub open spec fn overlaps_any(body: BodyView, bodies: Seq<Body>) -> bool {
    exists|i: int| 0 <= i < bodies.len() && boxes_overlap(body, #[trigger] bodies[i]@)
}

fn axis_overlaps(centre_a: i32, length_a: i32, centre_b: i32, length_b: i32) -> (r: bool)
    ensures
        r == spans_overlap(centre_a as int, length_a as int, centre_b as int, length_b as int),
{
    let a_min: i64 = 2 * (centre_a as i64) - (length_a as i64);
    let a_max: i64 = 2 * (centre_a as i64) + (length_a as i64);
    let b_min: i64 = 2 * (centre_b as i64) - (length_b as i64);
    let b_max: i64 = 2 * (centre_b as i64) + (length_b as i64);
    a_min < b_max && a_max > b_min
}

/// Whether the axis-aligned boxes of `a` and `b` overlap. Boxes that only
/// touch do not.
pub fn bounding_boxes_overlap(a: &Body, b: &Body) -> (r: bool)
    ensures
        r == boxes_overlap(a@, b@),
{
    axis_overlaps(a.translation.x, a.dimensions.x, b.translation.x, b.dimensions.x)
        && axis_overlaps(a.translation.y, a.dimensions.y, b.translation.y, b.dimensions.y)
        && axis_overlaps(a.translation.z, a.dimensions.z, b.translation.z, b.dimensions.z)
}

/// Whether the box of `body` overlaps the box of any body in `bodies`.
pub fn overlaps_existing_bodies(body: &Body, bodies: &Vec<Body>) -> (r: bool)
    ensures
        r == overlaps_any(body@, bodies@),
{
    let mut i: usize = 0;
    while i < bodies.len()
        invariant
            i <= bodies.len(),
            forall|j: int| 0 <= j < i ==> !boxes_overlap(body@, #[trigger] bodies@[j]@),
        decreases bodies.len() - i,
    {
        if bounding_boxes_overlap(body, &bodies[i]) {
            return true;
        }
        i += 1;
    }
    false
}

/// The shape of a collider. Lengths are full lengths in thousandths; the
/// engine's half-lengths are the halves of these.
#[derive(Clone, Copy, Debug, PartialEq, Eq, Structural)]
pub enum ColliderShape {
    /// An upright capsule: a segment of length `axis_length` along the z
    /// axis, swept by a ball of radius `radius`.
    Capsule { axis_length: i64, radius: i64 },
    /// A ball.
    Ball { diameter: i64 },
    /// A box with its full length along each axis.
    Cuboid { size_x: i64, size_y: i64, size_z: i64 },
}

/// What the engine needs in order to build the collider of a body.
#[derive(Clone, Copy, Debug, PartialEq, Eq, Structural)]
pub struct ColliderDesc {
    pub shape: ColliderShape,
    /// Whether contacts of this collider are reported.
    pub collision_events: bool,
}

/// The collider that belongs to a body: an upright capsule for a player, a
/// ball for a bullet or a test body, a box for an obstacle. Only players and
/// bullets report their contacts.
pub open spec fn collider_of(body: BodyView) -> ColliderDesc {
    match body.class {
        BodyClass::Player => ColliderDesc {
            shape: ColliderShape::Capsule {
                axis_length: (body.dimensions.z - 2 * PLAYER_COLLIDER_RADIUS) as i64,
                radius: PLAYER_COLLIDER_RADIUS as i64,
            },
            collision_events: true,
        },
        BodyClass::Bullet => ColliderDesc {
            shape: ColliderShape::Ball { diameter: body.dimensions.z as i64 },
            collision_events: true,
        },
        BodyClass::Test => ColliderDesc {
            shape: ColliderShape::Ball { diameter: body.dimensions.z as i64 },
            collision_events: false,
        },
        BodyClass::Obstacle => ColliderDesc {
            shape: ColliderShape::Cuboid {
                size_x: body.dimensions.x as i64,
                size_y: body.dimensions.y as i64,
                size_z: body.dimensions.z as i64,
            },
            collision_events: false,
        },
    }
}

/// Describes the collider of `body`.
pub fn get_collider(body: &Body) -> (r: ColliderDesc)
    ensures
        r == collider_of(body@),
{
    let height: i64 = body.dimensions.z as i64;
    match body.class {
        BodyClass::Player => ColliderDesc {
            shape: ColliderShape::Capsule {
                axis_length: height - 2 * (PLAYER_COLLIDER_RADIUS as i64),
                radius: PLAYER_COLLIDER_RADIUS as i64,
            },
            collision_events: true,
        },
        BodyClass::Bullet => ColliderDesc {
            shape: ColliderShape::Ball { diameter: height },
            collision_events: true,
        },
        BodyClass::Test => ColliderDesc {
            shape: ColliderShape::Ball { diameter: height },
            collision_events: false,
        },
        BodyClass::Obstacle => ColliderDesc {
            shape: ColliderShape::Cuboid {
                size_x: body.dimensions.x as i64,
                size_y: body.dimensions.y as i64,
                size_z: height,
            },
            collision_events: false,
        },
    }
}

/// Whether the engine moves a body or holds it in place.
#[derive(Clone, Copy, Debug, PartialEq, Eq, Structural)]
pub enum BodyKind {
    Dynamic,
    Fixed,
}

/// What the engine needs in order to build the rigid body of a body.
#[derive(Clone, Copy, Debug, PartialEq, Eq, Structural)]
pub struct RigidBodyDesc {
    pub kind: BodyKind,
    pub translation: Vec3,
    /// The orientation as an axis scaled by the angle.
    pub rotation: Vec3,
    pub rotations_locked: bool,
    pub linvel: Vec3,
    pub angvel: Vec3,
    pub additional_mass: i32,
    pub sleeping: bool,
    pub ccd_enabled: bool,
}

/// A player without hit points: its body need not be simulated.
pub open spec fn defeated_player(body: BodyView) -> bool {
    body.class == BodyClass::Player && body.hp == 0
}

/// The rigid body of a body that the engine moves. It carries the body's
/// velocities, detects collisions continuously, and sleeps from the start
/// when it is a player without hit points.
pub open spec fn dynamic_rigid_body_of(body: BodyView) -> RigidBodyDesc {
    RigidBodyDesc {
        kind: BodyKind::Dynamic,
        translation: body.translation,
        rotation: body.rotation,
        rotations_locked: true,
        linvel: body.linvel,
        angvel: body.angvel,
        additional_mass: body.mass,
        sleeping: defeated_player(body),
        ccd_enabled: true,
    }
}

/// The rigid body of a body that the engine holds in place: at rest, turned
/// about the z axis only.
pub open spec fn static_rigid_body_of(body: BodyView) -> RigidBodyDesc {
    RigidBodyDesc {
        kind: BodyKind::Fixed,
        translation: body.translation,
        rotation: Vec3 { x: 0, y: 0, z: body.rotation.z },
        rotations_locked: true,
        linvel: Vec3 { x: 0, y: 0, z: 0 },
        angvel: Vec3 { x: 0, y: 0, z: 0 },
        additional_mass: body.mass,
        sleeping: false,
        ccd_enabled: false,
    }
}

/// The rigid body that belongs to a body: fixed for an obstacle, dynamic for
/// every other class.
pub open spec fn rigid_body_of(body: BodyView) -> RigidBodyDesc {
    match body.class {
        BodyClass::Obstacle => static_rigid_body_of(body),
        _ => dynamic_rigid_body_of(body),
    }
}

/// Describes the rigid body of `body`.
pub fn to_rigid_body(body: &Body) -> (r: RigidBodyDesc)
    ensures
        r == rigid_body_of(body@),
{
    match body.class {
        BodyClass::Player => to_dynamic_rigid_body(body),
        BodyClass::Bullet => to_dynamic_rigid_body(body),
        BodyClass::Test => to_dynamic_rigid_body(body),
        BodyClass::Obstacle => to_static_rigid_body(body),
    }
}

/// Whether `body` is a player without hit points.
pub fn is_defeated_player(body: &Body) -> (r: bool)
    ensures
        r == defeated_player(body@),
{
    match (body.class, body.hp) {
        (BodyClass::Player, 0) => true,
        _ => false,
    }
}

/// Describes `body` as a rigid body that the engine moves.
pub fn to_dynamic_rigid_body(body: &Body) -> (r: RigidBodyDesc)
    ensures
        r == dynamic_rigid_body_of(body@),
{
    RigidBodyDesc {
        kind: BodyKind::Dynamic,
        translation: body.translation,
        rotation: body.rotation,
        rotations_locked: true,
        linvel: body.linvel,
        angvel: body.angvel,
        additional_mass: body.mass,
        sleeping: is_defeated_player(body),
        ccd_enabled: true,
    }
}

/// Describes `body` as a rigid body that the engine holds in place.
pub fn to_static_rigid_body(body: &Body) -> (r: RigidBodyDesc)
    ensures
        r == static_rigid_body_of(body@),
{
    RigidBodyDesc {
        kind: BodyKind::Fixed,
        translation: body.translation,
        rotation: Vec3 { x: 0, y: 0, z: body.rotation.z },
        rotations_locked: true,
        linvel: Vec3 { x: 0, y: 0, z: 0 },
        angvel: Vec3 { x: 0, y: 0, z: 0 },
        additional_mass: body.mass,
        sleeping: false,
        ccd_enabled: false,
    }
}

} // verus!
