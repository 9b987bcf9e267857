//! The messages that a client sends to the server and the server to a client.

use crate::game::{Mark, Square};
use vstd::prelude::*;

verus! {

/// What a client may ask for: a move to a square.
#[derive(Clone, Copy, PartialEq, Eq, Debug, Structural)]
pub enum ReceiveMessage {
    Move { pos: Square },
}

/// What the server tells a client.
#[derive(Clone, Copy, PartialEq, Eq, Debug, Structural)]
pub enum SendMessage {
    /// The other player has moved.
    Move { mark: Mark, pos: Square },
    /// A game begins; `mark` is the receiver's mark, `first` whether they move first.
    StartGame { mark: Mark, first: bool },
    /// The game is decided; `winner` says whether the receiver has won.
    GameOver { winner: bool, draw: bool },
    /// The other player has left the game.
    PlayerLeft,
}

} // verus!
