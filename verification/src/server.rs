//! The registry of a game server: who is connected, who waits in the lobby, which
//! games exist and who plays in them, and the messages that wait to be sent to each
//! connection. What each operation does is stated over the model in `server_model`.

use crate::event::{ClientAction, ClientEvent};
use crate::game::{ids_of, Game, GameResult, GameView, Mark, Player, NUM_PLAYERS};
use crate::game_lemmas::lemma_mark_of_player;
use crate::message::{ReceiveMessage, SendMessage};
use crate::server_lemmas::{
    lemma_disconnect_wf, lemma_enter_lobby, lemma_handle_receive_wf, lemma_move_wf,
    lemma_same_connections_wf, lemma_send_each_but_same_connections,
    lemma_send_each_same_connections, lemma_start_game_wf,
};
use crate::server_model::{seated, ServerView};
use std::collections::HashMap;
use vstd::prelude::*;
use vstd::std_specs::hash::group_hash_axioms;
use vstd::std_specs::iter::IteratorSpec;

verus! {

/// The registry of a game server.
pub struct Server {
    counter: u64,
    messages: HashMap<u64, Vec<SendMessage>>,
    lobby: Vec<u64>,
    games: Vec<Game>,
    game_map: HashMap<u64, usize>,
}

impl View for Server {
    type V = ServerView;

    closed spec fn view(&self) -> ServerView {
        ServerView {
            next_id: self.counter,
            outboxes: Map::new(
                |id: u64| self.messages@.contains_key(id),
                |id: u64| self.messages@[id]@,
            ),
            lobby: self.lobby@,
            games: Seq::new(self.games@.len(), |i: int| self.games@[i]@),
            game_of: Map::new(
                |id: u64| self.game_map@.contains_key(id),
                |id: u64| self.game_map@[id] as nat,
            ),
        }
    }
}

/// Calls `fastrand::usize` on the range from 0 up to, not including, `bound`. That
/// function draws from the thread's random number generator and returns a number of
/// the range it is given; it panics on an empty range, which `bound > 0` leaves out.
#[verifier::external_body]
fn random_below(bound: usize) -> (index: usize)
    requires
        bound > 0,
    ensures
        index < bound,
{
    fastrand::usize(0..bound)
}

impl Server {
    /// The invariant of the registry, see `ServerView::wf`.
    pub open spec fn wf(&self) -> bool {
        self@.wf()
    }

    /// A server to which nobody has connected yet.
    pub fn new() -> (server: Self)
        ensures
            server.wf(),
            server@ == ServerView::empty(),
    {
        let server = Server {
            counter: 0,
            messages: HashMap::new(),
            lobby: Vec::new(),
            games: Vec::new(),
            game_map: HashMap::new(),
        };
        proof {
            assert(server@.outboxes =~= Map::empty());
            assert(server@.games =~= Seq::empty());
            assert(server@.game_of =~= Map::empty());
        }
        server
    }

    /// Puts `message` into the outbox of `id`. A message for an identity that is not
    /// connected is dropped.
    pub fn send_one(&mut self, id: u64, message: SendMessage)
        ensures
            final(self)@ == old(self)@.send_one(id, message),
            old(self)@.same_connections(final(self)@),
            old(self).wf() ==> final(self).wf(),
    {
        broadcast use group_hash_axioms;

        match self.messages.remove(&id) {
            Some(outbox) => {
                let mut outbox = outbox;
                outbox.push(message);
                self.messages.insert(id, outbox);
                assert(self@.outboxes =~= old(self)@.outboxes.insert(
                    id,
                    old(self)@.outboxes[id].push(message),
                ));
            },
            None => {
                assert(self@.outboxes =~= old(self)@.outboxes);
            },
        }
        proof {
            assert(self@.outboxes.dom() =~= old(self)@.outboxes.dom());
            lemma_same_connections_wf(old(self)@, self@);
        }
    }

    /// Sends `message` to each of `ids` in turn.
    fn send_each(&mut self, ids: &Vec<u64>, message: SendMessage)
        ensures
            final(self)@ == old(self)@.send_each(ids@, message),
    {
        let ghost goal = self@.send_each(ids@, message);
        let mut i: usize = 0;
        assert(ids@.subrange(0, ids@.len() as int) =~= ids@);
        while i < ids.len()
            invariant
                i <= ids.len(),
                self@.send_each(ids@.subrange(i as int, ids@.len() as int), message) == goal,
            decreases ids.len() - i,
        {
            proof {
                assert(ids@.subrange(i as int, ids@.len() as int).drop_first() =~= ids@.subrange(
                    i + 1,
                    ids@.len() as int,
                ));
            }
            self.send_one(ids[i], message);
            i += 1;
        }
    }

    /// Sends `message` to each of `ids` in turn, but not to `excluded`.
    fn send_each_but(&mut self, ids: &Vec<u64>, excluded: u64, message: SendMessage)
        ensures
            final(self)@ == old(self)@.send_each_but(ids@, excluded, message),
    {
        let ghost goal = self@.send_each_but(ids@, excluded, message);
        let mut i: usize = 0;
        assert(ids@.subrange(0, ids@.len() as int) =~= ids@);
        while i < ids.len()
            invariant
                i <= ids.len(),
                self@.send_each_but(
                    ids@.subrange(i as int, ids@.len() as int),
                    excluded,
                    message,
                ) == goal,
            decreases ids.len() - i,
        {
            proof {
                assert(ids@.subrange(i as int, ids@.len() as int).drop_first() =~= ids@.subrange(
                    i + 1,
                    ids@.len() as int,
                ));
            }
            if ids[i] != excluded {
                self.send_one(ids[i], message);
            }
            i += 1;
        }
    }

    /// The identities that are connected, each once, in no particular order.
    fn connected_ids(&self) -> (ids: Vec<u64>)
        ensures
            ids@.no_duplicates(),
            forall|id: u64| ids@.contains(id) <==> self@.connected(id),
    {
        broadcast use group_hash_axioms;

        let mut ids: Vec<u64> = Vec::new();
        for id in it: self.messages.keys()
            invariant
                ids@.len() == it.index(),
                forall|j: int| 0 <= j < it.index() ==> ids@[j] == *it.seq()[j],
        {
            ids.push(*id);
        }
        proof {
            let keys = self.messages.keys().remaining();
            assert(ids@ =~= keys.unref());
            assert forall|id: u64| ids@.contains(id) <==> self@.connected(id) by {
                assert(ids@.to_set().contains(id) <==> self.messages@.dom().contains(id));
            }
        }
        ids
    }

    /// Sends `message` to everyone who is connected, but not to `excluded` if one is
    /// named.
    fn send_everyone_but(&mut self, excluded: Option<u64>, message: SendMessage)
        ensures
            final(self)@ == old(self)@.send_everyone_but(excluded, message),
            old(self)@.same_connections(final(self)@),
    {
        let ids = self.connected_ids();
        let ghost before = self@;
        let mut i: usize = 0;
        while i < ids.len()
            invariant
                i <= ids.len(),
                ids@.no_duplicates(),
                forall|id: u64| ids@.contains(id) <==> before.connected(id),
                before.same_connections(self@),
                forall|id: u64|
                    before.outboxes.contains_key(id) ==> #[trigger] self@.outboxes[id] == if ids@.subrange(
                        0,
                        i as int,
                    ).contains(id) && excluded != Some(id) {
                        before.outboxes[id].push(message)
                    } else {
                        before.outboxes[id]
                    },
            decreases ids.len() - i,
        {
            let id = ids[i];
            let ghost sent = ids@.subrange(0, i as int);
            proof {
                assert(ids@.contains(id));
                assert(!sent.contains(id));
                assert(ids@.subrange(0, i + 1) =~= sent.push(id));
                assert forall|other: u64|
                    ids@.subrange(0, i + 1).contains(other) <==> sent.contains(other) || other
                        == id by {
                    if sent.contains(other) {
                        let k = choose|k: int| 0 <= k < sent.len() && sent[k] == other;
                        assert(sent.push(id)[k] == other);
                    }
                    assert(sent.push(id)[i as int] == id);
                }
            }
            if excluded != Some(id) {
                self.send_one(id, message);
            }
            i += 1;
        }
        proof {
            assert(ids@.subrange(0, ids@.len() as int) =~= ids@);
            assert(self@.outboxes =~= before.send_everyone_but(excluded, message).outboxes);
        }
    }

    /// Sends `message` to the players of the game at `game_index`, or, without an index,
    /// to everyone who is connected.
    pub fn send_all(&mut self, message: SendMessage, game_index: Option<usize>)
        requires
            game_index matches Some(index) ==> index < old(self)@.games.len(),
        ensures
            final(self)@ == old(self)@.send_all(message, game_index),
            old(self)@.same_connections(final(self)@),
            old(self).wf() ==> final(self).wf(),
    {
        match game_index {
            Some(index) => {
                let ids = self.games[index].get_player_ids();
                self.send_each(&ids, message);
                proof {
                    lemma_send_each_same_connections(old(self)@, ids@, message);
                }
            },
            None => {
                self.send_everyone_but(None, message);
            },
        }
        proof {
            lemma_same_connections_wf(old(self)@, self@);
        }
    }

    /// As `send_all`, but sends nothing to `id_not_send`.
    pub fn send_all_but_one(
        &mut self,
        message: SendMessage,
        id_not_send: u64,
        game_index: Option<usize>,
    )
        requires
            game_index matches Some(index) ==> index < old(self)@.games.len(),
        ensures
            final(self)@ == old(self)@.send_all_but_one(message, id_not_send, game_index),
            old(self)@.same_connections(final(self)@),
            old(self).wf() ==> final(self).wf(),
    {
        match game_index {
            Some(index) => {
                let ids = self.games[index].get_player_ids();
                self.send_each_but(&ids, id_not_send, message);
                proof {
                    lemma_send_each_but_same_connections(old(self)@, ids@, id_not_send, message);
                }
            },
            None => {
                self.send_everyone_but(Some(id_not_send), message);
            },
        }
        proof {
            lemma_same_connections_wf(old(self)@, self@);
        }
    }

    /// Tells each player of the game at `index` that the game is over and whether they
    /// have won it: they have if their mark is `winner`.
    fn send_results(&mut self, index: usize, winner: Mark)
        requires
            index < old(self)@.games.len(),
            old(self)@.games[index as int].wf(),
        ensures
            final(self)@ == old(self)@.send_results(old(self)@.games[index as int].players, winner),
    {
        let ids = self.games[index].get_player_ids();
        let ghost players = self@.games[index as int].players;
        let ghost goal = self@.send_results(players, winner);
        let mut i: usize = 0;
        assert(players.subrange(0, players.len() as int) =~= players);
        while i < ids.len()
            invariant
                i <= ids.len(),
                ids@ == ids_of(players),
                index < self@.games.len(),
                self@.games[index as int].wf(),
                self@.games[index as int].players == players,
                self@.send_results(players.subrange(i as int, players.len() as int), winner)
                    == goal,
            decreases ids.len() - i,
        {
            let player_id = ids[i];
            proof {
                lemma_mark_of_player(self@.games[index as int], i as int);
                assert(players.subrange(i as int, players.len() as int).drop_first()
                    =~= players.subrange(i + 1, players.len() as int));
            }
            let won = winner == self.games[index].get_player_mark(player_id).unwrap();
            self.send_one(player_id, SendMessage::GameOver { winner: won, draw: false });
            i += 1;
        }
    }

    /// Tells the players of the game at `index` how it ended on the board, if it did.
    fn announce(&mut self, index: usize, result: Option<GameResult>)
        requires
            index < old(self)@.games.len(),
            old(self)@.games[index as int].wf(),
        ensures
            final(self)@ == old(self)@.announce(old(self)@.games[index as int].players, result),
    {
        match result {
            Some(GameResult::CrossWon) => {
                self.send_results(index, Mark::Cross);
            },
            Some(GameResult::NoughtWon) => {
                self.send_results(index, Mark::Nought);
            },
            Some(GameResult::Draw) => {
                self.send_all(SendMessage::GameOver { winner: false, draw: true }, Some(index));
            },
            _ => {},
        }
    }

    /// Handles the request `message` of `id`.
    ///
    /// A move is made if `id` is in a game and the move is legal there; every other request
    /// is dropped. If the game goes on after the move, the other player is told of the
    /// move. If the move ended the game, nobody is told of the move: both players are told
    /// how the game ended.
    pub fn handle_receive(&mut self, id: u64, message: ReceiveMessage)
        requires
            old(self).wf(),
        ensures
            final(self).wf(),
            final(self)@ == old(self)@.handle_receive(id, message),
    {
        broadcast use group_hash_axioms;

        match message {
            ReceiveMessage::Move { pos } => {
                let index = match self.game_map.get(&id) {
                    Some(index) => *index,
                    None => {
                        return;
                    },
                };
                assert(self@.game_of.contains_key(id) && self@.game_of[id] == index);
                assert(self@.games[index as int].wf());
                if self.games[index].can_move(&pos, id) {
                    let ghost game = self@.games[index as int];
                    let game_result = self.games[index].make_move(&pos);
                    let ghost placed = ServerView {
                        games: old(self)@.games.update(index as int, game.after_move(pos)),
                        ..old(self)@
                    };
                    proof {
                        assert(self@.games =~= placed.games);
                        lemma_move_wf(old(self)@, id, pos);
                        lemma_mark_of_player(self@.games[index as int], game.turn as int);
                    }
                    match game_result {
                        None => {
                            let mark = self.games[index].get_player_mark(id).unwrap();
                            self.send_all_but_one(SendMessage::Move { mark, pos }, id, Some(index));
                        },
                        Some(_) => {
                            self.announce(index, game_result);
                        },
                    }
                    proof {
                        lemma_handle_receive_wf(old(self)@, id, message);
                    }
                }
            },
        }
    }

    /// Takes `id` out of the lobby if it waits there, and says whether it did.
    fn leave_lobby(&mut self, id: u64) -> (removed: bool)
        requires
            old(self)@.lobby.no_duplicates(),
        ensures
            removed == old(self)@.lobby.contains(id),
            removed ==> final(self)@ == (ServerView {
                lobby: old(self)@.lobby.remove(old(self)@.lobby.index_of(id)),
                ..old(self)@
            }),
            !removed ==> final(self)@ == old(self)@,
    {
        let mut i: usize = 0;
        while i < self.lobby.len()
            invariant
                i <= self.lobby.len(),
                *self == *old(self),
                self.lobby@.no_duplicates(),
                forall|j: int| 0 <= j < i ==> self.lobby@[j] != id,
            decreases self.lobby.len() - i,
        {
            if self.lobby[i] == id {
                proof {
                    let at = self.lobby@.index_of(id);
                    assert(0 <= at < self.lobby@.len() && self.lobby@[at] == id);
                    assert(at == i);
                }
                self.lobby.remove(i);
                return true;
            }
            i += 1;
        }
        false
    }

    /// Disconnects `id`.
    ///
    /// Nothing happens if `id` is not connected. Else `id` leaves the lobby if it waits
    /// there; if it is in a game, the game is abandoned and the other player is told that
    /// `id` has left. In both cases `id` loses its outbox.
    pub fn disconnect(&mut self, id: u64)
        requires
            old(self).wf(),
        ensures
            final(self).wf(),
            final(self)@ == old(self)@.disconnect(id),
    {
        broadcast use group_hash_axioms;

        if !self.messages.contains_key(&id) {
            return;
        }
        let removed = self.leave_lobby(id);
        if !removed {
            let found = match self.game_map.get(&id) {
                Some(index) => Some(*index),
                None => None,
            };
            if let Some(index) = found {
                assert(self@.game_of.contains_key(id) && self@.game_of[id] == index);
                assert(self@.games[index as int].wf());
                self.send_all_but_one(SendMessage::PlayerLeft, id, Some(index));
                self.games[index].player_left();
                proof {
                    assert(self@.games =~= old(self)@.games.update(
                        index as int,
                        old(self)@.games[index as int].abandoned(),
                    ));
                }
            }
        }
        let ghost told = self@;
        self.messages.remove(&id);
        proof {
            assert(self@.outboxes =~= told.outboxes.remove(id));
            lemma_disconnect_wf(old(self)@, id);
        }
    }

    /// Pairs the two identities in the lobby in a new game, in which the lobby member at
    /// index `first` moves first, and tells both their mark and whether they move first.
    fn start_game(&mut self, first: usize)
        requires
            old(self)@.consistent(),
            old(self)@.lobby.len() == NUM_PLAYERS,
            first < NUM_PLAYERS,
        ensures
            final(self).wf(),
            final(self)@ == old(self)@.start_game(first),
    {
        broadcast use group_hash_axioms;

        let ghost before = self@;
        let ghost cross_start = SendMessage::StartGame { mark: Mark::Cross, first: first == 0 };
        let ghost nought_start = SendMessage::StartGame { mark: Mark::Nought, first: first == 1 };
        let mut persons: Vec<Player> = Vec::new();
        let mut i: usize = 0;
        while i < self.lobby.len()
            invariant
                i <= self.lobby.len() == NUM_PLAYERS,
                self.lobby@ == before.lobby,
                cross_start == (SendMessage::StartGame { mark: Mark::Cross, first: first == 0 }),
                nought_start == (SendMessage::StartGame { mark: Mark::Nought, first: first == 1 }),
                persons@ == seated(before.lobby).subrange(0, i as int),
                i == 0 ==> self@ == before,
                i == 1 ==> self@ == before.send_one(before.lobby[0], cross_start),
                i == 2 ==> self@ == before.send_one(before.lobby[0], cross_start).send_one(
                    before.lobby[1],
                    nought_start,
                ),
            decreases self.lobby.len() - i,
        {
            let id = self.lobby[i];
            let mark = if i % 2 == 0 {
                Mark::Cross
            } else {
                Mark::Nought
            };
            persons.push(Player::new(mark, id));
            self.send_one(id, SendMessage::StartGame { mark, first: i == first });
            proof {
                assert(persons@ =~= seated(before.lobby).subrange(0, i + 1));
            }
            i += 1;
        }
        let ghost told = self@;
        proof {
            assert(persons@ =~= seated(before.lobby));
            assert(before.lobby[0] != before.lobby[1]);
        }
        let game = Game::new(persons, first);
        let index = self.games.len();
        let mut j: usize = 0;
        while j < self.lobby.len()
            invariant
                j <= self.lobby.len() == NUM_PLAYERS,
                self.lobby@ == before.lobby,
                index == before.games.len(),
                (ServerView { game_of: before.game_of, ..self@ }) == told,
                j == 0 ==> self@.game_of == before.game_of,
                j == 1 ==> self@.game_of == before.game_of.insert(before.lobby[0], index as nat),
                j == 2 ==> self@.game_of == before.game_of.insert(
                    before.lobby[0],
                    index as nat,
                ).insert(before.lobby[1], index as nat),
            decreases self.lobby.len() - j,
        {
            let ghost indexed = self@.game_of;
            self.game_map.insert(self.lobby[j], index);
            proof {
                assert(self@.game_of =~= indexed.insert(before.lobby[j as int], index as nat));
            }
            j += 1;
        }
        self.lobby.clear();
        self.games.push(game);
        proof {
            assert(self@.games =~= before.games.push(
                GameView::start(seated(before.lobby), first as nat),
            ));
            lemma_start_game_wf(before, first);
        }
    }

    /// Lets a new connection into the lobby, with an empty outbox, and returns the
    /// identity it got. No identity is left when `u64::MAX` connections have entered;
    /// then nothing changes.
    fn enter_lobby(&mut self) -> (id: Option<u64>)
        requires
            old(self).wf(),
        ensures
            match id {
                Some(id) => id == old(self)@.next_id && id < u64::MAX && final(self)@ == old(
                    self,
                )@.enter_lobby() && final(self)@.consistent() && final(self)@.lobby.len()
                    <= NUM_PLAYERS,
                None => old(self)@.next_id == u64::MAX && final(self)@ == old(self)@,
            },
    {
        broadcast use group_hash_axioms;

        if self.counter == u64::MAX {
            return None;
        }
        let id = self.counter;
        self.counter = self.counter + 1;
        self.messages.insert(id, Vec::new());
        self.lobby.push(id);
        proof {
            assert(self@.outboxes =~= old(self)@.enter_lobby().outboxes);
            lemma_enter_lobby(old(self)@);
        }
        Some(id)
    }

    /// Admits a new connection and returns the identity it got, or `None` when no
    /// identity is left. The connection enters the lobby; if the lobby then holds as many
    /// as a game needs, they are paired in a new game in which the lobby member at index
    /// `first` moves first.
    pub fn connect_with_first(&mut self, first: usize) -> (id: Option<u64>)
        requires
            old(self).wf(),
            first < NUM_PLAYERS,
        ensures
            final(self).wf(),
            (final(self)@, id) == old(self)@.connect(first),
    {
        let id = self.enter_lobby();
        if id.is_some() && self.lobby.len() == NUM_PLAYERS {
            self.start_game(first);
        }
        id
    }

    /// Admits a new connection and returns the identity it got, or `None` when no
    /// identity is left. The connection enters the lobby; if the lobby then holds as many
    /// as a game needs, they are paired in a new game, and chance decides who of them
    /// moves first.
    pub fn connect(&mut self) -> (id: Option<u64>)
        requires
            old(self).wf(),
        ensures
            final(self).wf(),
            exists|first: usize|
                first < NUM_PLAYERS && (final(self)@, id) == #[trigger] old(self)@.connect(first),
    {
        let id = self.enter_lobby();
        if id.is_some() && self.lobby.len() == NUM_PLAYERS {
            let first = random_below(NUM_PLAYERS);
            self.start_game(first);
            assert((self@, id) == old(self)@.connect(first));
        } else {
            assert((self@, id) == old(self)@.connect(0));
        }
        id
    }

    /// Whether `id` is connected.
    pub fn is_connected(&self, id: u64) -> (connected: bool)
        ensures
            connected == self@.connected(id),
    {
        broadcast use group_hash_axioms;

        self.messages.contains_key(&id)
    }

    /// The identities that wait in the lobby, in the order of their arrival.
    pub fn lobby(&self) -> (lobby: &Vec<u64>)
        ensures
            lobby@ == self@.lobby,
    {
        &self.lobby
    }

    /// The number of games that were started.
    pub fn num_games(&self) -> (count: usize)
        ensures
            count == self@.games.len(),
    {
        self.games.len()
    }

    /// The index of the game of `id`, if `id` was ever paired.
    pub fn game_index(&self, id: u64) -> (index: Option<usize>)
        ensures
            match index {
                Some(index) => self@.game_of.contains_key(id) && self@.game_of[id] == index,
                None => !self@.game_of.contains_key(id),
            },
    {
        broadcast use group_hash_axioms;

        match self.game_map.get(&id) {
            Some(index) => Some(*index),
            None => None,
        }
    }

    /// The game at `index`, if there is one.
    pub fn game(&self, index: usize) -> (game: Option<&Game>)
        ensures
            match game {
                Some(game) => index < self@.games.len() && game@ == self@.games[index as int],
                None => index >= self@.games.len(),
            },
    {
        if index < self.games.len() {
            Some(&self.games[index])
        } else {
            None
        }
    }

    /// Takes out the messages that wait for `id`, oldest first. Nothing waits for an
    /// identity that is not connected.
    pub fn take_messages(&mut self, id: u64) -> (messages: Vec<SendMessage>)
        ensures
            messages@ == old(self)@.pending(id),
            final(self)@ == old(self)@.take_messages(id),
            old(self)@.same_connections(final(self)@),
            old(self).wf() ==> final(self).wf(),
    {
        broadcast use group_hash_axioms;

        let messages = match self.messages.remove(&id) {
            Some(outbox) => {
                self.messages.insert(id, Vec::new());
                outbox
            },
            None => Vec::new(),
        };
        proof {
            assert(self@.outboxes =~= old(self)@.take_messages(id).outboxes);
            assert(self@.outboxes.dom() =~= old(self)@.outboxes.dom());
            lemma_same_connections_wf(old(self)@, self@);
        }
        messages
    }

    /// Deals with the event `event` on connection `id`, and says whether the loop that
    /// serves the connection goes on: a request is handled; at the end of the connection
    /// `id` is disconnected and the loop stops; no other event changes anything.
    pub fn handle_event(&mut self, id: u64, event: ClientEvent) -> (action: ClientAction)
        requires
            old(self).wf(),
        ensures
            final(self).wf(),
            final(self)@ == old(self)@.handle_event(id, event),
            action == event.action(),
    {
        match event {
            ClientEvent::Request(message) => {
                self.handle_receive(id, message);
                ClientAction::Continue
            },
            ClientEvent::ConnectionClosed | ClientEvent::AlreadyClosed | ClientEvent::IoError => {
                self.disconnect(id);
                ClientAction::Stop
            },
            ClientEvent::Malformed | ClientEvent::WouldBlock | ClientEvent::OtherError => {
                ClientAction::Continue
            },
        }
    }
}

} // verus!
