//! The client shell around a delegate: configuration and state. The
//! network loop that feeds it lives outside the library.

use vstd::prelude::*;
use crate::plugin::SCPlugin;

verus! {

/// A handler that implements the game player's behavior, usually
/// employing some custom move selection strategy.
pub trait SCClientDelegate {
    type Plugin: SCPlugin;

    /// Invoked whenever the game state updates.
    fn on_update_state(&mut self, state: &<Self::Plugin as SCPlugin>::GameState);

    /// Invoked when the welcome message is received with the own color.
    fn on_welcome_message(&mut self, color: &<Self::Plugin as SCPlugin>::PlayerColor);

    /// Requests a move from the delegate.
    fn request_move(
        &mut self,
        state: &<Self::Plugin as SCPlugin>::GameState,
        my_color: <Self::Plugin as SCPlugin>::PlayerColor,
    ) -> <Self::Plugin as SCPlugin>::Move;
}

/// A configuration that determines whether the reader and/or the writer
/// of a stream should be swapped by standard I/O to ease debugging.
#[derive(Debug, Copy, Clone, PartialEq, Eq, Structural)]
pub struct DebugMode {
    pub debug_reader: bool,
    pub debug_writer: bool,
}

/// The client which manages the game state and invokes the delegate.
pub struct SCClient<D> where D: SCClientDelegate {
    pub delegate: D,
    pub debug_mode: DebugMode,
    pub game_state: Option<<D::Plugin as SCPlugin>::GameState>,
}

impl<D> SCClient<D> where D: SCClientDelegate {
    /// Creates a new client using the specified delegate.
    pub fn new(delegate: D, debug_mode: DebugMode) -> (r: Self)
        ensures
            r.debug_mode == debug_mode,
            r.game_state is None,
    {
        Self { delegate, debug_mode, game_state: None }
    }
}

} // verus!
