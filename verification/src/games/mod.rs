//! The contract between the host loop and a game, and the session wrapper.

use vstd::prelude::*;
use oorandom::Rand32;
use crate::NUM_PIXELS;

pub mod snake;

use snake::{pixel_of, Snake, SnakeModel};

verus! {

/// `oorandom::Rand32`, the pseudo-random generator that the host seeds once
/// and lends to every call. Nothing is known of its state.
#[verifier::external_type_specification]
#[verifier::external_body]
pub struct ExRand32(Rand32);

/// What the host lends to a game for the duration of one call.
pub struct Context<'a> {
    /// Number of frames the host has run so far.
    pub global_frame: &'a u64,
    /// The shared pseudo-random generator.
    pub rng: &'a mut Rand32,
}

/// Snapshot of the five buttons, taken once per frame.
pub struct InputState {
    pub up: bool,
    pub down: bool,
    pub left: bool,
    pub right: bool,
    pub center: bool,
}

/// What one frame of a game came to.
#[derive(Clone, Copy, Debug, PartialEq, Eq, Structural)]
pub enum UpdateResult {
    /// The session goes on.
    Continue,
    /// The session is won, with the final score.
    Win(usize),
    /// The session is lost, with the final score.
    Loss(usize),
}

/// Calls `Rand32::rand_range` on the range from zero up to `bound`, which must
/// not be empty. The draw is at least zero and below `bound`; which number it
/// is depends on the generator's state and is not stated.
#[verifier::external_body]
pub(crate) fn rand_below(rng: &mut Rand32, bound: u32) -> (draw: u32)
    requires
        0 < bound,
    ensures
        draw < bound,
{
    rng.rand_range(0..bound)
}

/// What the host loop asks of a game.
pub trait Game: Sized {
    /// Whether play can go on from this state.
    spec fn playable(&self) -> bool;

    /// A new session, ready to be played.
    fn new(context: &mut Context) -> (game: Self)
        ensures
            game.playable(),
    ;

    /// Plays one frame. While the result is `Continue` the session stays
    /// playable.
    fn update(&mut self, inputs: &InputState, context: &mut Context) -> (result: UpdateResult)
        requires
            old(self).playable(),
        ensures
            result is Continue ==> final(self).playable(),
    ;

    /// One pixel value per tile. The state is left as it is.
    fn display(&self) -> (pixels: [u8; NUM_PIXELS]);
}

/// The game that is running. A session that ends is replaced by a new one.
#[derive(Clone)]
pub enum GameState {
    Snake(Snake),
}

impl View for GameState {
    type V = SnakeModel;

    open spec fn view(&self) -> SnakeModel {
        match self {
            GameState::Snake(snake) => snake@,
        }
    }
}

impl GameState {
    /// Starts the first session.
    pub fn new(context: &mut Context) -> (state: Self)
        ensures
            state@.is_fresh(),
            state@.playable(),
    {
        let new_snake = Self::Snake(Snake::new(context));
        new_snake
    }

    /// Plays one frame of the running session. Where that frame wins or loses
    /// it, a fresh session takes its place and the score is dropped.
    pub fn update(&mut self, inputs: &InputState, context: &mut Context)
        requires
            old(self)@.playable(),
        ensures
            final(self)@.playable(),
            old(self)@.outcome(*inputs) is Continue ==> old(self)@.steps_to(
                *inputs,
                final(self)@,
            ),
            !(old(self)@.outcome(*inputs) is Continue) ==> final(self)@.is_fresh(),
    {
        let update_result = match self {
            GameState::Snake(snake) => snake.update(inputs, context),
        };
        match update_result {
            UpdateResult::Continue => {},
            UpdateResult::Win(_score) => {
                *self = Self::Snake(Snake::new(context));
            },
            UpdateResult::Loss(_) => {
                *self = Self::Snake(Snake::new(context));
            },
        }
    }

    /// The pixel buffer of the running session: 0 for an empty tile, 1 for the
    /// apple, 2 for a segment of the snake.
    pub fn display(&self) -> (pixels: [u8; NUM_PIXELS])
        ensures
            forall|i: int| 0 <= i < NUM_PIXELS ==> pixels@[i] == pixel_of(#[trigger] self@.board[i]),
    {
        match self {
            GameState::Snake(snake) => snake.display(),
        }
    }
}

} // verus!
