use vstd::prelude::*;
use crate::game::{recomputed, started, GameState};
use crate::geom::{CardinalDirection, Size};
use crate::terrain::generator_size;
use crate::world::{moved, World};

verus! {

/// An input event, as the host's key mapping reports it.
#[derive(Clone, Copy, Debug, PartialEq, Eq, Structural)]
pub enum Input {
    Move(CardinalDirection),
    Quit,
    Other,
}

/// What the host should do after an event.
#[derive(Clone, Copy, Debug, PartialEq, Eq, Structural)]
pub enum ControlFlow {
    Exit,
}

/// One game session, driven one input event at a time.
pub struct App {
    game: GameState,
}

impl App {
    pub closed spec fn spec_game(self) -> GameState {
        self.game
    }

    pub open spec fn wf(self) -> bool {
        self.spec_game().wf()
    }

    /// Starts a session on a fresh dungeon of `screen_size`.
    pub fn new(screen_size: Size, rng: &mut rand::rngs::StdRng) -> (r: App)
        requires
            generator_size(screen_size),
            2 * screen_size.count() <= usize::MAX,
        ensures
            r.wf(),
            started(r.spec_game(), screen_size),
    {
        App { game: GameState::new(screen_size, rng) }
    }

    pub fn game(&self) -> (r: &GameState)
        ensures
            r == self.spec_game(),
    {
        &self.game
    }

    /// Handles one event. Quitting asks the host to exit and changes nothing.
    /// Any other event recomputes what the player sees, after stepping the
    /// player first if the event is a move.
    pub fn on_input(&mut self, input: Input) -> (r: Option<ControlFlow>)
        requires
            old(self).wf(),
        ensures
            final(self).wf(),
            r == (if input == Input::Quit {
                Some(ControlFlow::Exit)
            } else {
                None
            }),
            input == Input::Quit ==> final(self).spec_game() == old(self).spec_game(),
            final(self).spec_game().spec_player() == old(self).spec_game().spec_player(),
            input matches Input::Move(d) ==> moved(
                old(self).spec_game().spec_world(),
                final(self).spec_game().spec_world(),
                old(self).spec_game().spec_player(),
                d,
            ),
            input == Input::Other ==> final(self).spec_game().spec_world() == old(
                self,
            ).spec_game().spec_world(),
            input != Input::Quit ==> recomputed(
                old(self).spec_game().spec_visibility(),
                final(self).spec_game().spec_visibility(),
                final(self).spec_game().spec_world(),
                final(self).spec_game().player_location(),
            ),
            final(self).spec_game().player_location() == match input {
                Input::Move(d) => if old(self).spec_game().spec_world().can_step(
                    old(self).spec_game().spec_player(),
                    d,
                ) {
                    World::step(old(self).spec_game().player_location(), d)
                } else {
                    old(self).spec_game().player_location()
                },
                _ => old(self).spec_game().player_location(),
            },
    {
        match input {
            Input::Quit => Some(ControlFlow::Exit),
            Input::Move(direction) => {
                self.game.handle_move(direction);
                None
            },
            Input::Other => {
                self.game.update_visibility();
                None
            },
        }
    }
}

} // verus!
