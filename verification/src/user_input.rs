//! Commands of the players, and what each does to the game.

use crate::body::{Body, BodyView};
use crate::game;
use crate::game::Game;
use crate::rules::GameView;
use crate::physics_world::{note_handle, BodyHandle, Command};
use vstd::prelude::*;

verus! {

/// One command as it comes from outside.
#[derive(Debug)]
pub enum UserInput {
    /// Move an entity to `(x, y)` at the height it has.
    Move { id: String, x: i32, y: i32 },
    /// Turn an entity about the z axis.
    Rotate { id: String, rotation_angle: i32 },
    /// Set the upward speed of an entity.
    Jump { id: String, linvel_z: i32 },
    /// Bring a bullet into the game, or overwrite one.
    Shoot { body: Body },
    /// Bring a player into the game, or overwrite one.
    AddPlayer { body: Body },
}

/// A [`UserInput`] with its names read as sequences of characters.
pub enum UserInputView {
    Move { id: Seq<char>, x: i32, y: i32 },
    Rotate { id: Seq<char>, rotation_angle: i32 },
    Jump { id: Seq<char>, linvel_z: i32 },
    Shoot { body: BodyView },
    AddPlayer { body: BodyView },
}

impl View for UserInput {
    type V = UserInputView;

    open spec fn view(&self) -> UserInputView {
        match *self {
            UserInput::Move { id, x, y } => UserInputView::Move { id: id@, x, y },
            UserInput::Rotate { id, rotation_angle } => UserInputView::Rotate {
                id: id@,
                rotation_angle,
            },
            UserInput::Jump { id, linvel_z } => UserInputView::Jump { id: id@, linvel_z },
            UserInput::Shoot { body } => UserInputView::Shoot { body: body@ },
            UserInput::AddPlayer { body } => UserInputView::AddPlayer { body: body@ },
        }
    }
}

/// A command could not be applied: it names an entity that the table does
/// not know, or it needs a new body and no handle is left.
#[derive(Clone, Copy, Debug, PartialEq, Eq, Structural)]
pub struct InputError {
    /// Where the command stands in the run.
    pub position: usize,
}

impl UserInputView {
    /// The name of the entity that the command is about.
    pub open spec fn target(self) -> Seq<char> {
        match self {
            UserInputView::Move { id, .. } => id,
            UserInputView::Rotate { id, .. } => id,
            UserInputView::Jump { id, .. } => id,
            UserInputView::Shoot { body } => body.id,
            UserInputView::AddPlayer { body } => body.id,
        }
    }

    /// The command brings a whole entity with it.
    pub open spec fn upserts(self) -> bool {
        self is Shoot || self is AddPlayer
    }
}

/// The command can be applied: what it moves, turns or lifts is in the
/// table, and what it brings in is known or can get a handle.
pub open spec fn applicable(game: GameView, input: UserInputView) -> bool {
    game.knows(input.target()) || (input.upserts() && game.world.next_handle < u64::MAX)
}

/// The game after the command.
pub open spec fn applied(game: GameView, input: UserInputView) -> GameView {
    match input {
        UserInputView::Move { id, x, y } => game.request(
            Command::MoveBody { handle: game.handle_of(id), x, y },
        ),
        UserInputView::Rotate { id, rotation_angle } => game.request(
            Command::RotateBody { handle: game.handle_of(id), yaw: rotation_angle },
        ),
        UserInputView::Jump { id, linvel_z } => game.request(
            Command::JumpBody { handle: game.handle_of(id), linvel_z },
        ),
        UserInputView::Shoot { body } => game.upsert(body),
        UserInputView::AddPlayer { body } => game.upsert(body),
    }
}

/// The game after a run of commands, first to last.
pub open spec fn applied_all(game: GameView, inputs: Seq<UserInput>) -> GameView
    decreases inputs.len(),
{
    if inputs.len() == 0 {
        game
    } else {
        applied(applied_all(game, inputs.drop_last()), inputs.last()@)
    }
}

/// How many of the commands, from the first on, can be applied in turn.
pub open spec fn accepted(game: GameView, inputs: Seq<UserInput>) -> nat
    decreases inputs.len(),
{
    if inputs.len() == 0 {
        0
    } else {
        let before = accepted(game, inputs.drop_last());
        if before == inputs.len() - 1 && applicable(
            applied_all(game, inputs.drop_last()),
            inputs.last()@,
        ) {
            inputs.len()
        } else {
            before
        }
    }
}

/// The bodies that a run of commands touches.
pub open spec fn touched_all(game: GameView, inputs: Seq<UserInput>) -> Set<BodyHandle>
    decreases inputs.len(),
{
    if inputs.len() == 0 {
        Set::empty()
    } else {
        touched_all(game, inputs.drop_last()).insert(
            applied_all(game, inputs).handle_of(inputs.last()@.target()),
        )
    }
}

/// Whether `input` can be applied to the game as it stands.
pub fn can_apply(input: &UserInput, game_state: &Game) -> (r: bool)
    requires
        game_state.wf(),
    ensures
        r == applicable(game_state@, input@),
{
    match input {
        UserInput::Move { id, .. } => game::find_handle(id, game_state).is_some(),
        UserInput::Rotate { id, .. } => game::find_handle(id, game_state).is_some(),
        UserInput::Jump { id, .. } => game::find_handle(id, game_state).is_some(),
        UserInput::Shoot { body } => game::find_handle(&body.id, game_state).is_some()
            || game::has_spare_handle(game_state),
        UserInput::AddPlayer { body } => game::find_handle(&body.id, game_state).is_some()
            || game::has_spare_handle(game_state),
    }
}

/// Applies one command and returns the handle of the body it touched.
pub fn apply_user_input(input: &UserInput, game_state: &mut Game) -> (touched: BodyHandle)
    requires
        old(game_state).wf(),
        applicable(old(game_state)@, input@),
    ensures
        final(game_state).wf(),
        final(game_state)@ == applied(old(game_state)@, input@),
        final(game_state)@.holds(touched, input@.target()),
        touched == final(game_state)@.handle_of(input@.target()),
{
    let touched = match input {
        UserInput::Move { id, x, y } => {
            let handle = game::get_handle(id, game_state);
            game::move_body(game_state, id, *x, *y);
            handle
        },
        UserInput::Rotate { id, rotation_angle } => {
            let handle = game::get_handle(id, game_state);
            game::rotate_body(game_state, id, *rotation_angle);
            handle
        },
        UserInput::Jump { id, linvel_z } => {
            let handle = game::get_handle(id, game_state);
            game::jump_body(game_state, id, *linvel_z);
            handle
        },
        UserInput::Shoot { body } => {
            game::upsert_body(game_state, body);
            proof {
                old(game_state).lemma_wf();
                old(game_state)@.lemma_upsert(body@);
            }
            game::get_handle(&body.id, game_state)
        },
        UserInput::AddPlayer { body } => {
            game::upsert_body(game_state, body);
            proof {
                old(game_state).lemma_wf();
                old(game_state)@.lemma_upsert(body@);
            }
            game::get_handle(&body.id, game_state)
        },
    };
    proof {
        game_state.lemma_wf();
        game_state@.lemma_handle_unique(touched, input@.target());
    }
    touched
}

proof fn lemma_stuck(game: GameView, inputs: Seq<UserInput>, i: int, k: int)
    requires
        0 <= i < k <= inputs.len(),
        accepted(game, inputs.take(i)) == i,
        !applicable(applied_all(game, inputs.take(i)), inputs[i]@),
    ensures
        accepted(game, inputs.take(k)) == i,
    decreases k,
{
    assert(inputs.take(k).drop_last() =~= inputs.take(k - 1));
    if k > i + 1 {
        lemma_stuck(game, inputs, i, k - 1);
    }
}

/// Applies the commands in order and returns the handles of the bodies
/// they touched, each once. The first command that cannot be applied stops
/// the run: those before it stay applied, and the error names its position.
pub fn handle_user_input(
    inputs: &Vec<UserInput>,
    game_state: &mut Game,
) -> (r: Result<Vec<BodyHandle>, InputError>)
    requires
        old(game_state).wf(),
    ensures
        final(game_state).wf(),
        final(game_state)@ == applied_all(
            old(game_state)@,
            inputs@.take(accepted(old(game_state)@, inputs@) as int),
        ),
        r is Ok == (accepted(old(game_state)@, inputs@) == inputs@.len()),
        r is Ok ==> r.unwrap()@.no_duplicates(),
        r is Ok ==> r.unwrap()@.to_set() == touched_all(old(game_state)@, inputs@),
        r is Err ==> r.unwrap_err().position == accepted(old(game_state)@, inputs@),
{
    let mut user_updated_handles: Vec<BodyHandle> = Vec::new();
    let mut i: usize = 0;
    while i < inputs.len()
        invariant
            i <= inputs.len(),
            game_state.wf(),
            accepted(old(game_state)@, inputs@.take(i as int)) == i,
            game_state@ == applied_all(old(game_state)@, inputs@.take(i as int)),
            user_updated_handles@.no_duplicates(),
            user_updated_handles@.to_set() == touched_all(old(game_state)@, inputs@.take(i as int)),
        decreases inputs.len() - i,
    {
        proof {
            assert(inputs@.take(i + 1).drop_last() =~= inputs@.take(i as int));
        }
        if !can_apply(&inputs[i], game_state) {
            proof {
                lemma_stuck(old(game_state)@, inputs@, i as int, inputs@.len() as int);
                assert(inputs@.take(inputs@.len() as int) =~= inputs@);
            }
            return Err(InputError { position: i });
        }
        let handle = apply_user_input(&inputs[i], game_state);
        note_handle(&mut user_updated_handles, handle);
        i += 1;
    }
    proof {
        assert(inputs@.take(inputs@.len() as int) =~= inputs@);
    }
    Ok(user_updated_handles)
}

} // verus!
