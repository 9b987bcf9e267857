//! The registry of a game server as a mathematical value, and what each operation of
//! the server does to it.

use crate::event::ClientEvent;
use crate::game::{ids_of, outcome, GameResult, GameState, GameView, Mark, Player, NUM_PLAYERS};
use crate::message::{ReceiveMessage, SendMessage};
use vstd::prelude::*;

verus! {

/// The registry as a mathematical value.
pub struct ServerView {
    /// The identity that the next connection gets.
    pub next_id: u64,
    /// The messages that wait for each connected identity, oldest first.
    pub outboxes: Map<u64, Seq<SendMessage>>,
    /// The identities that wait for a game, in the order of their arrival.
    pub lobby: Seq<u64>,
    /// All games that were ever started, in the order of their start.
    pub games: Seq<GameView>,
    /// The index in `games` of the game of each identity that was ever paired.
    pub game_of: Map<u64, nat>,
}

/// The players of the game that two lobby members start: the one who arrived first
/// plays `Cross`, the other `Nought`.
pub open spec fn seated(lobby: Seq<u64>) -> Seq<Player> {
    seq![
        Player { mark: Mark::Cross, id: lobby[0] },
        Player { mark: Mark::Nought, id: lobby[1] },
    ]
}

/// What a player with `mark` is told when their game ends on the board with `result`:
/// after a win whether it is theirs, after a draw that it is one, and nothing while
/// the game goes on.
pub open spec fn verdict(result: Option<GameResult>, mark: Mark) -> Seq<SendMessage> {
    match result {
        Some(GameResult::CrossWon) => seq![
            SendMessage::GameOver { winner: mark == Mark::Cross, draw: false },
        ],
        Some(GameResult::NoughtWon) => seq![
            SendMessage::GameOver { winner: mark == Mark::Nought, draw: false },
        ],
        Some(GameResult::Draw) => seq![SendMessage::GameOver { winner: false, draw: true }],
        _ => Seq::empty(),
    }
}

impl ServerView {
    /// The registry of a server to which nobody has connected yet.
    pub open spec fn empty() -> ServerView {
        ServerView {
            next_id: 0,
            outboxes: Map::empty(),
            lobby: Seq::empty(),
            games: Seq::empty(),
            game_of: Map::empty(),
        }
    }

    /// Whether `id` is connected: admitted and not disconnected since.
    #[verifier::inline]
    pub open spec fn connected(self, id: u64) -> bool {
        self.outboxes.contains_key(id)
    }

    /// What holds of the registry at all times, also while two lobby members are being
    /// paired:
    /// - nobody waits twice in the lobby, and who waits is connected and in no game;
    /// - who is connected has an identity that was handed out, and waits in the lobby or
    ///   is in a game;
    /// - who is in a game is a player of the game that the index names, and the index
    ///   names the game of each player of each game;
    /// - a game with a player who is no longer connected was abandoned;
    /// - every game is well formed.
    pub open spec fn consistent(self) -> bool {
        &&& self.lobby.no_duplicates()
        &&& forall|i: int|
            0 <= i < self.lobby.len() ==> self.outboxes.contains_key(#[trigger] self.lobby[i])
                && !self.game_of.contains_key(self.lobby[i])
        &&& forall|id: u64| #[trigger]
            self.outboxes.contains_key(id) ==> id < self.next_id && (self.lobby.contains(id)
                || self.game_of.contains_key(id))
        &&& forall|id: u64| #[trigger]
            self.game_of.contains_key(id) ==> id < self.next_id && self.game_of[id]
                < self.games.len() && self.games[self.game_of[id] as int].has_player(id)
        &&& forall|id: u64|
            self.game_of.contains_key(id) && !self.outboxes.contains_key(id) ==> self.games[(
            #[trigger] self.game_of[id]) as int].state == GameState::Ended(GameResult::Abandoned)
        &&& forall|i: int| 0 <= i < self.games.len() ==> (#[trigger] self.games[i]).wf()
        &&& forall|i: int, j: int|
            0 <= i < self.games.len() && 0 <= j < NUM_PLAYERS ==> {
                let id = (#[trigger] self.games[i].players[j]).id;
                self.game_of.contains_key(id) && self.game_of[id] == i
            }
    }

    /// The invariant of the registry between two operations: it is consistent, and
    /// fewer identities wait in the lobby than a game needs.
    pub open spec fn wf(self) -> bool {
        &&& self.consistent()
        &&& self.lobby.len() < NUM_PLAYERS
    }

    /// `other` differs from `self` at most in the messages that wait in the outboxes.
    pub open spec fn same_connections(self, other: ServerView) -> bool {
        &&& self.next_id == other.next_id
        &&& self.lobby == other.lobby
        &&& self.games == other.games
        &&& self.game_of == other.game_of
        &&& self.outboxes.dom() == other.outboxes.dom()
    }

    /// Every game of `self` is still a game of `after`, at the same index, between the
    /// same players and with every mark that was on its board, and who was in a game is
    /// still in that game.
    pub open spec fn keeps_games(self, after: ServerView) -> bool {
        &&& self.games.len() <= after.games.len()
        &&& forall|i: int|
            0 <= i < self.games.len() ==> (#[trigger] after.games[i]).players
                == self.games[i].players
        &&& forall|i: int, cell: int|
            0 <= i < self.games.len() && 0 <= cell < self.games[i].cells.len()
                && self.games[i].cells[cell] != Mark::Empty ==> (#[trigger] after.games[i].cells[cell])
                == self.games[i].cells[cell]
        &&& forall|id: u64| #[trigger]
            self.game_of.contains_key(id) ==> after.game_of.contains_key(id) && after.game_of[id]
                == self.game_of[id]
    }

    /// The registry after `message` was put into the outbox of `id`. A message for an
    /// identity that is not connected is dropped.
    pub open spec fn send_one(self, id: u64, message: SendMessage) -> ServerView {
        if self.connected(id) {
            ServerView {
                outboxes: self.outboxes.insert(id, self.outboxes[id].push(message)),
                ..self
            }
        } else {
            self
        }
    }

    /// The registry after `message` was sent to each of `ids` in turn.
    pub open spec fn send_each(self, ids: Seq<u64>, message: SendMessage) -> ServerView
        decreases ids.len(),
    {
        if ids.len() == 0 {
            self
        } else {
            self.send_one(ids[0], message).send_each(ids.drop_first(), message)
        }
    }

    /// The registry after `message` was sent to each of `ids` in turn, but not to
    /// `excluded`.
    pub open spec fn send_each_but(
        self,
        ids: Seq<u64>,
        excluded: u64,
        message: SendMessage,
    ) -> ServerView
        decreases ids.len(),
    {
        if ids.len() == 0 {
            self
        } else if ids[0] == excluded {
            self.send_each_but(ids.drop_first(), excluded, message)
        } else {
            self.send_one(ids[0], message).send_each_but(ids.drop_first(), excluded, message)
        }
    }

    /// The registry after `message` was sent to everyone who is connected, but not to
    /// `excluded` if one is named.
    pub open spec fn send_everyone_but(
        self,
        excluded: Option<u64>,
        message: SendMessage,
    ) -> ServerView {
        ServerView {
            outboxes: Map::new(
                |id: u64| self.outboxes.contains_key(id),
                |id: u64|
                    if excluded == Some(id) {
                        self.outboxes[id]
                    } else {
                        self.outboxes[id].push(message)
                    },
            ),
            ..self
        }
    }

    /// The registry after `message` was sent to the players of the game at `game_index`,
    /// or, without an index, to everyone who is connected.
    pub open spec fn send_all(self, message: SendMessage, game_index: Option<usize>) -> ServerView {
        match game_index {
            Some(index) => self.send_each(self.games[index as int].ids(), message),
            None => self.send_everyone_but(None, message),
        }
    }

    /// As `send_all`, but nothing is sent to `excluded`.
    pub open spec fn send_all_but_one(
        self,
        message: SendMessage,
        excluded: u64,
        game_index: Option<usize>,
    ) -> ServerView {
        match game_index {
            Some(index) => self.send_each_but(self.games[index as int].ids(), excluded, message),
            None => self.send_everyone_but(Some(excluded), message),
        }
    }

    /// The registry after each of `players` was told that the game is over, and whether
    /// they have won it: they have if their mark is `winner`.
    pub open spec fn send_results(self, players: Seq<Player>, winner: Mark) -> ServerView
        decreases players.len(),
    {
        if players.len() == 0 {
            self
        } else {
            self.send_one(
                players[0].id,
                SendMessage::GameOver { winner: players[0].mark == winner, draw: false },
            ).send_results(players.drop_first(), winner)
        }
    }

    /// The registry after the players of a game were told how it ended on the board.
    pub open spec fn announce(self, players: Seq<Player>, result: Option<GameResult>) -> ServerView {
        match result {
            Some(GameResult::CrossWon) => self.send_results(players, Mark::Cross),
            Some(GameResult::NoughtWon) => self.send_results(players, Mark::Nought),
            Some(GameResult::Draw) => self.send_each(
                ids_of(players),
                SendMessage::GameOver { winner: false, draw: true },
            ),
            _ => self,
        }
    }

    /// The registry after the request `message` of `id` was handled.
    ///
    /// A move is made if `id` is in a game and the move is legal there; every other request
    /// changes nothing. If the game goes on after the move, the other player is told of the
    /// move. If the move ended the game, nobody is told of the move: both players are told
    /// how the game ended.
    pub open spec fn handle_receive(self, id: u64, message: ReceiveMessage) -> ServerView {
        match message {
            ReceiveMessage::Move { pos } => {
                if !self.game_of.contains_key(id) {
                    self
                } else {
                    let index = self.game_of[id] as int;
                    let game = self.games[index];
                    if !game.can_move(pos, id) {
                        self
                    } else {
                        let moved = game.after_move(pos);
                        let placed = ServerView {
                            games: self.games.update(index, moved),
                            ..self
                        };
                        match outcome(moved.cells) {
                            None => placed.send_each_but(
                                game.ids(),
                                id,
                                SendMessage::Move { mark: game.current().mark, pos },
                            ),
                            Some(result) => placed.announce(game.players, Some(result)),
                        }
                    }
                }
            },
        }
    }

    /// The registry after `id` was disconnected.
    ///
    /// Nothing changes if `id` is not connected. Else `id` leaves the lobby if it waits
    /// there; if it is in a game, the game is abandoned and the other player is told that
    /// `id` has left. In both cases `id` loses its outbox.
    pub open spec fn disconnect(self, id: u64) -> ServerView {
        if !self.connected(id) {
            self
        } else if self.lobby.contains(id) {
            ServerView {
                lobby: self.lobby.remove(self.lobby.index_of(id)),
                outboxes: self.outboxes.remove(id),
                ..self
            }
        } else if self.game_of.contains_key(id) {
            let index = self.game_of[id] as int;
            let game = self.games[index];
            let told = self.send_each_but(game.ids(), id, SendMessage::PlayerLeft);
            ServerView {
                games: self.games.update(index, game.abandoned()),
                outboxes: told.outboxes.remove(id),
                ..self
            }
        } else {
            ServerView { outboxes: self.outboxes.remove(id), ..self }
        }
    }

    /// The registry after the two identities in the lobby were paired in a new game, in
    /// which the lobby member at index `first` moves first. Both are told their mark and
    /// whether they move first.
    pub open spec fn start_game(self, first: usize) -> ServerView {
        let cross = self.lobby[0];
        let nought = self.lobby[1];
        let index = self.games.len();
        let told = self.send_one(
            cross,
            SendMessage::StartGame { mark: Mark::Cross, first: first == 0 },
        ).send_one(nought, SendMessage::StartGame { mark: Mark::Nought, first: first == 1 });
        ServerView {
            next_id: self.next_id,
            outboxes: told.outboxes,
            lobby: Seq::empty(),
            games: self.games.push(GameView::start(seated(self.lobby), first as nat)),
            game_of: self.game_of.insert(cross, index).insert(nought, index),
        }
    }

    /// The registry after a new connection entered the lobby under the identity
    /// `self.next_id`, with an empty outbox.
    pub open spec fn enter_lobby(self) -> ServerView {
        ServerView {
            next_id: (self.next_id + 1) as u64,
            outboxes: self.outboxes.insert(self.next_id, Seq::empty()),
            lobby: self.lobby.push(self.next_id),
            ..self
        }
    }

    /// The registry after a new connection was admitted, and the identity it got.
    ///
    /// No identity is left when `next_id` is `u64::MAX`; then nothing changes. Else the
    /// connection enters the lobby, and if the lobby then holds as many as a game needs,
    /// they are paired in a new game in which the lobby member at index `first` moves
    /// first.
    pub open spec fn connect(self, first: usize) -> (ServerView, Option<u64>) {
        if self.next_id == u64::MAX {
            (self, None)
        } else {
            let entered = self.enter_lobby();
            if entered.lobby.len() == NUM_PLAYERS {
                (entered.start_game(first), Some(self.next_id))
            } else {
                (entered, Some(self.next_id))
            }
        }
    }

    /// The messages that wait for `id`, oldest first; none if `id` is not connected.
    pub open spec fn pending(self, id: u64) -> Seq<SendMessage> {
        if self.connected(id) {
            self.outboxes[id]
        } else {
            Seq::empty()
        }
    }

    /// The registry after the messages that wait for `id` were taken out.
    pub open spec fn take_messages(self, id: u64) -> ServerView {
        if self.connected(id) {
            ServerView { outboxes: self.outboxes.insert(id, Seq::empty()), ..self }
        } else {
            self
        }
    }

    /// The registry after the event `event` on connection `id` was dealt with: a request
    /// is handled, at the end of the connection `id` is disconnected, and no other event
    /// changes anything.
    pub open spec fn handle_event(self, id: u64, event: ClientEvent) -> ServerView {
        match event {
            ClientEvent::Request(message) => self.handle_receive(id, message),
            _ => if event.ends_connection() {
                self.disconnect(id)
            } else {
                self
            },
        }
    }
}

} // verus!
