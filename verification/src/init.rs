//! The bodies a match starts with: the floor and the obstacles strewn over it.

use crate::body::{
    boxes_overlap, overlaps_any, overlaps_existing_bodies, Body, BodyClass, BodyView, Vec3,
};
use rand::Rng;
use vstd::prelude::*;
use vstd::string::StringExecFns;

verus! {

/// Width of the square arena, in thousandths.
pub const ARENA_WIDTH: i32 = 200_000;

/// How many obstacles a new arena gets at most.
pub const MAX_OBSTACLES: usize = 500;

/// Obstacles keep this far from the edge of the arena, in thousandths.
pub const MARGIN: i32 = 25_000;

/// Height of the floor's centre: half its thickness below zero.
pub const FLOOR_HEIGHT: i32 = -500;

/// How often one obstacle is drawn anew before its place is given up.
pub const MAX_ATTEMPTS: u64 = 0xffff_ffff_ffff_ffff;

/// The floor: a flat box a little wider than the arena, one unit thick, its
/// top at height zero, held in place.
pub open spec fn floor_view() -> BodyView {
    BodyView {
        id: "floor"@,
        team_id: None,
        owner_id: None,
        translation: Vec3 { x: 0, y: 0, z: FLOOR_HEIGHT },
        rotation: Vec3 { x: 0, y: 0, z: 0 },
        linvel: Vec3 { x: 0, y: 0, z: 0 },
        angvel: Vec3 { x: 0, y: 0, z: 0 },
        dimensions: Vec3 { x: 200_100, y: 200_100, z: 1_000 },
        mass: 0,
        class: BodyClass::Obstacle,
        hp: 0,
    }
}

/// What every drawn obstacle is: a box without team or owner, at rest, with
/// its centre inside the arena less the margin, one to five units long and
/// wide, a fifth of a unit to five units high, and standing on the floor.
pub open spec fn is_obstacle(body: BodyView) -> bool {
    &&& body.team_id is None
    &&& body.owner_id is None
    &&& body.class == BodyClass::Obstacle
    &&& body.hp == 0
    &&& body.mass == 100_000
    &&& body.rotation == Vec3 { x: 0, y: 0, z: 0 }
    &&& body.linvel == Vec3 { x: 0, y: 0, z: 0 }
    &&& body.angvel == Vec3 { x: 0, y: 0, z: 0 }
    &&& MARGIN - ARENA_WIDTH / 2 <= body.translation.x < ARENA_WIDTH / 2 - MARGIN
    &&& MARGIN - ARENA_WIDTH / 2 <= body.translation.y < ARENA_WIDTH / 2 - MARGIN
    &&& 1_000 <= body.dimensions.x < 5_000
    &&& 1_000 <= body.dimensions.y < 5_000
    &&& 200 <= body.dimensions.z < 5_000
    &&& body.dimensions.z == 2 * body.translation.z
}

/// No two of the bodies overlap.
pub open spec fn pairwise_clear(bodies: Seq<Body>) -> bool {
    forall|i: int, j: int|
        0 <= i < bodies.len() && 0 <= j < bodies.len() && i != j ==> !boxes_overlap(
            #[trigger] bodies[i]@,
            #[trigger] bodies[j]@,
        )
}

/// Overlap does not depend on which box is named first.
pub proof fn lemma_overlap_symmetric(a: BodyView, b: BodyView)
    ensures
        boxes_overlap(a, b) == boxes_overlap(b, a),
{
}

/// Some obstacle that can be drawn would overlap one of `bodies`. Where
/// this does not hold, every draw finds its place.
pub open spec fn contested(bodies: Seq<Body>) -> bool {
    exists|candidate: BodyView| #[trigger] is_obstacle(candidate) && overlaps_any(candidate, bodies)
}

/// Each of the bodies from `from` on overlaps none of those before it.
pub open spec fn clear_of_earlier(bodies: Seq<Body>, from: int) -> bool {
    forall|i: int, j: int|
        from <= i < bodies.len() && 0 <= j < i ==> !boxes_overlap(
            #[trigger] bodies[i]@,
            #[trigger] bodies[j]@,
        )
}

/// Space that is contested stays so when a body is added.
pub proof fn lemma_contested_grows(bodies: Seq<Body>, added: Body)
    requires
        contested(bodies),
    ensures
        contested(bodies.push(added)),
{
    let candidate = choose|candidate: BodyView| #[trigger]
        is_obstacle(candidate) && overlaps_any(candidate, bodies);
    let i = choose|i: int| 0 <= i < bodies.len() && boxes_overlap(candidate, #[trigger] bodies[i]@);
    assert(bodies.push(added)[i] == bodies[i]);
    assert(overlaps_any(candidate, bodies.push(added)));
}

/// No obstacle that can be drawn overlaps the floor: it stands on it. So on
/// the bare floor the first draw is placed.
pub proof fn lemma_floor_is_uncontested(bodies: Seq<Body>)
    requires
        bodies.len() == 1,
        bodies[0]@ == floor_view(),
    ensures
        !contested(bodies),
{
    assert forall|candidate: BodyView| #[trigger] is_obstacle(candidate) implies !overlaps_any(
        candidate,
        bodies,
    ) by {
        assert(!boxes_overlap(candidate, bodies[0]@));
    }
}

/// The generator of `rand` that belongs to the running thread.
#[verifier::external_type_specification]
#[verifier::external_body]
pub struct ExThreadRng(rand::rngs::ThreadRng);

/// `rand::thread_rng` hands out the thread's generator. Nothing is assumed
/// of it. It panics only where the system gives it no seed.
pub assume_specification[ rand::thread_rng ]() -> (rng: rand::rngs::ThreadRng)
;

/// Calls `Rng::gen_range` on the half-open range `low..high`. Assumed: the
/// number drawn lies in that range. The range must not be empty, or
/// `gen_range` panics. Which number comes is left open. On no input, but
/// where the system gives the generator no bytes to seed itself anew, the
/// call panics.
#[verifier::external_body]
fn random_between(rng: &mut rand::rngs::ThreadRng, low: i32, high: i32) -> (r: i32)
    requires
        low < high,
    ensures
        low <= r < high,
{
    rng.gen_range(low..high)
}

/// An identifier of 128 bits.
#[verifier::external_type_specification]
#[verifier::external_body]
pub struct ExUuid(uuid::Uuid);

/// `Uuid::new_v4` makes an identifier at random. Nothing is assumed of it.
/// It panics only where the system gives it no random bytes.
pub assume_specification[ uuid::Uuid::new_v4 ]() -> (id: uuid::Uuid)
;

/// Builds the floor.
pub fn create_floor() -> (floor: Body)
    ensures
        floor@ == floor_view(),
{
    Body {
        id: String::from_str("floor"),
        team_id: None,
        owner_id: None,
        translation: Vec3 { x: 0, y: 0, z: FLOOR_HEIGHT },
        rotation: Vec3 { x: 0, y: 0, z: 0 },
        linvel: Vec3 { x: 0, y: 0, z: 0 },
        angvel: Vec3 { x: 0, y: 0, z: 0 },
        dimensions: Vec3 { x: ARENA_WIDTH + 100, y: ARENA_WIDTH + 100, z: 1_000 },
        mass: 0,
        class: BodyClass::Obstacle,
        hp: 0,
    }
}

/// The obstacle that the drawn numbers make: a box named `id`, centred at
/// `(position_x, position_y)`, `length` long, `width` wide and twice
/// `half_height` high, with its base at height zero.
pub open spec fn obstacle_view(
    id: Seq<char>,
    position_x: i32,
    position_y: i32,
    length: i32,
    width: i32,
    half_height: i32,
) -> BodyView {
    BodyView {
        id,
        team_id: None,
        owner_id: None,
        translation: Vec3 { x: position_x, y: position_y, z: half_height },
        rotation: Vec3 { x: 0, y: 0, z: 0 },
        linvel: Vec3 { x: 0, y: 0, z: 0 },
        angvel: Vec3 { x: 0, y: 0, z: 0 },
        dimensions: Vec3 { x: length, y: width, z: (2 * half_height) as i32 },
        mass: 100_000,
        class: BodyClass::Obstacle,
        hp: 0,
    }
}

/// Builds the obstacle that the drawn numbers make. Twice the half height
/// must fit the height.
pub fn obstacle_from(
    id: String,
    position_x: i32,
    position_y: i32,
    length: i32,
    width: i32,
    half_height: i32,
) -> (obstacle: Body)
    requires
        -0x4000_0000 <= half_height <= 0x3fff_ffff,
    ensures
        obstacle@ == obstacle_view(id@, position_x, position_y, length, width, half_height),
{
    Body {
        id,
        team_id: None,
        owner_id: None,
        translation: Vec3 { x: position_x, y: position_y, z: half_height },
        rotation: Vec3 { x: 0, y: 0, z: 0 },
        linvel: Vec3 { x: 0, y: 0, z: 0 },
        angvel: Vec3 { x: 0, y: 0, z: 0 },
        dimensions: Vec3 { x: length, y: width, z: 2 * half_height },
        mass: 100_000,
        class: BodyClass::Obstacle,
        hp: 0,
    }
}

/// Draws an obstacle at random: its name, the place of its centre, its
/// length, its width and half its height, which is drawn so that the
/// obstacle stands on the floor to the thousandth.
pub fn create_random_obstacle() -> (obstacle: Body)
    ensures
        is_obstacle(obstacle@),
{
    let position_max: i32 = ARENA_WIDTH / 2 - MARGIN;
    let position_min: i32 = -position_max;
    let mut rng = rand::thread_rng();
    let position_x: i32 = random_between(&mut rng, position_min, position_max);
    let position_y: i32 = random_between(&mut rng, position_min, position_max);
    let length: i32 = random_between(&mut rng, 1_000, 5_000);
    let width: i32 = random_between(&mut rng, 1_000, 5_000);
    let half_height: i32 = random_between(&mut rng, 100, 2_500);
    let id = uuid::Uuid::new_v4().to_string();
    obstacle_from(id, position_x, position_y, length, width, half_height)
}

/// Adds `obstacle` to `bodies` if its box overlaps none of theirs, and says
/// whether it did.
pub fn place_in_open_space(bodies: &mut Vec<Body>, obstacle: Body) -> (placed: bool)
    ensures
        placed == !overlaps_any(obstacle@, old(bodies)@),
        placed ==> final(bodies)@ == old(bodies)@.push(obstacle),
        !placed ==> final(bodies)@ == old(bodies)@,
{
    if !overlaps_existing_bodies(&obstacle, bodies) {
        bodies.push(obstacle);
        true
    } else {
        false
    }
}

/// Draws obstacles until one overlaps none of `bodies`, and adds that one.
/// Returns `false`, with `bodies` as they were, only if `MAX_ATTEMPTS`
/// draws in a row all overlapped. So where no obstacle that can be drawn
/// overlaps any of `bodies`, the first draw is placed.
pub fn seed_obstacle_in_open_space(bodies: &mut Vec<Body>) -> (placed: bool)
    ensures
        placed ==> final(bodies)@.len() == old(bodies)@.len() + 1,
        placed ==> final(bodies)@.drop_last() == old(bodies)@,
        placed ==> is_obstacle(final(bodies)@.last()@),
        placed ==> !overlaps_any(final(bodies)@.last()@, old(bodies)@),
        !placed ==> final(bodies)@ == old(bodies)@,
        !placed ==> contested(old(bodies)@),
{
    let mut attempts: u64 = 0;
    while attempts < MAX_ATTEMPTS
        invariant
            bodies@ == old(bodies)@,
            attempts > 0 ==> contested(old(bodies)@),
        decreases MAX_ATTEMPTS - attempts,
    {
        let obstacle = create_random_obstacle();
        let ghost drawn = obstacle@;
        if place_in_open_space(bodies, obstacle) {
            proof {
                assert(bodies@.drop_last() =~= old(bodies)@);
            }
            return true;
        }
        proof {
            assert(is_obstacle(drawn) && overlaps_any(drawn, old(bodies)@));
        }
        attempts += 1;
    }
    false
}

/// Adds up to `MAX_OBSTACLES` obstacles to `bodies`, each clear of all bodies
/// before it. What was there stays in front. Fewer than `MAX_OBSTACLES` are
/// added only where a draw could overlap what is there in the end. That is
/// so as soon as one obstacle stands, so what is owed is the first one, and
/// that only where no draw can overlap what was there; how many more come
/// rests with the draws.
pub fn seed_obstacles(bodies: &mut Vec<Body>)
    ensures
        old(bodies)@.len() <= final(bodies)@.len() <= old(bodies)@.len() + MAX_OBSTACLES,
        final(bodies)@.take(old(bodies)@.len() as int) == old(bodies)@,
        forall|i: int|
            old(bodies)@.len() <= i < final(bodies)@.len() ==> is_obstacle(
                #[trigger] final(bodies)@[i]@,
            ),
        clear_of_earlier(final(bodies)@, old(bodies)@.len() as int),
        pairwise_clear(old(bodies)@) ==> pairwise_clear(final(bodies)@),
        final(bodies)@.len() == old(bodies)@.len() + MAX_OBSTACLES || contested(final(bodies)@),
        !contested(old(bodies)@) ==> final(bodies)@.len() > old(bodies)@.len(),
{
    let ghost start = bodies@;
    let mut n: usize = 0;
    while n < MAX_OBSTACLES
        invariant
            n <= MAX_OBSTACLES,
            start == old(bodies)@,
            start.len() <= bodies@.len() <= start.len() + n,
            bodies@.take(start.len() as int) == start,
            forall|i: int| start.len() <= i < bodies@.len() ==> is_obstacle(#[trigger] bodies@[i]@),
            clear_of_earlier(bodies@, start.len() as int),
            pairwise_clear(start) ==> pairwise_clear(bodies@),
            bodies@.len() == start.len() + n || contested(bodies@),
        decreases MAX_OBSTACLES - n,
    {
        let ghost before = bodies@;
        let placed = seed_obstacle_in_open_space(bodies);
        proof {
            if placed {
                let after = bodies@;
                let added = after.last();
                assert(after.drop_last() == before);
                assert(after =~= before.push(added));
                assert forall|i: int| 0 <= i < before.len() implies #[trigger] after[i]
                    == before[i] by {
                    assert(after.drop_last()[i] == after[i]);
                }
                assert(after.take(start.len() as int) =~= start) by {
                    assert forall|i: int| 0 <= i < start.len() implies after.take(
                        start.len() as int,
                    )[i] == start[i] by {
                        assert(before.take(start.len() as int)[i] == before[i]);
                    }
                }
                assert forall|i: int, j: int| start.len() <= i < after.len() && 0 <= j < i
                implies
                    !boxes_overlap(#[trigger] after[i]@, #[trigger] after[j]@)
                by {
                    if i < before.len() {
                        assert(!boxes_overlap(before[i]@, before[j]@));
                    } else {
                        assert(!boxes_overlap(added@, before[j]@));
                    }
                }
                if pairwise_clear(start) {
                    assert forall|i: int, j: int|
                        0 <= i < after.len() && 0 <= j < after.len() && i != j
                    implies
                        !boxes_overlap(#[trigger] after[i]@, #[trigger] after[j]@)
                    by {
                        if i < before.len() && j < before.len() {
                            assert(!boxes_overlap(before[i]@, before[j]@));
                        } else if i < before.len() {
                            assert(!boxes_overlap(added@, before[i]@));
                            lemma_overlap_symmetric(added@, before[i]@);
                        } else {
                            assert(!boxes_overlap(added@, before[j]@));
                        }
                    }
                }
                if contested(before) {
                    lemma_contested_grows(before, added);
                }
            }
        }
        n += 1;
    }
    proof {
        if bodies@.len() == start.len() {
            assert(bodies@ =~= bodies@.take(start.len() as int));
        }
    }
}

/// The bodies of a new arena: the floor first, then the obstacles, of
/// which there is at least one. No two of the bodies overlap. Fewer than
/// `MAX_OBSTACLES` obstacles stand only where a draw could overlap what
/// stands.
pub fn get_initial_bodies() -> (bodies: Vec<Body>)
    ensures
        2 <= bodies@.len() <= MAX_OBSTACLES + 1,
        bodies@[0]@ == floor_view(),
        forall|i: int| 1 <= i < bodies@.len() ==> is_obstacle(#[trigger] bodies@[i]@),
        pairwise_clear(bodies@),
        bodies@.len() == MAX_OBSTACLES + 1 || contested(bodies@),
{
    let mut initial_bodies: Vec<Body> = Vec::new();
    let floor = create_floor();
    initial_bodies.push(floor);
    let ghost start = initial_bodies@;
    proof {
        lemma_floor_is_uncontested(start);
    }
    seed_obstacles(&mut initial_bodies);
    proof {
        assert(initial_bodies@.take(1)[0] == initial_bodies@[0]);
    }
    initial_bodies
}

} // verus!
