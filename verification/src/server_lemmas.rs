//! What follows from the model of the registry: every operation keeps its invariant,
//! and what admission, a move and a disconnect mean for the players of a game.

use crate::event::ClientEvent;
use crate::game::{
    ids_of, lemma_empty_board_undecided, outcome, GameResult, GameState, GameView, Mark, Player,
    Square, NUM_PLAYERS,
};
use crate::game_lemmas::{lemma_after_move_wf, lemma_mark_of_player, lemma_outcome_cases};
use crate::message::{ReceiveMessage, SendMessage};
use crate::server_model::{seated, verdict, ServerView};
use vstd::prelude::*;

verus! {

/// The invariant does not depend on the messages that wait in the outboxes.
pub proof fn lemma_same_connections_wf(before: ServerView, after: ServerView)
    requires
        before.same_connections(after),
    ensures
        before.consistent() ==> after.consistent(),
        before.wf() ==> after.wf(),
{
    if before.consistent() {
        assert forall|id: u64| #[trigger] after.outboxes.contains_key(id) implies id
            < after.next_id && (after.lobby.contains(id) || after.game_of.contains_key(id)) by {
            assert(before.outboxes.contains_key(id));
        }
        assert forall|i: int| 0 <= i < after.lobby.len() implies after.outboxes.contains_key(
            #[trigger] after.lobby[i],
        ) && !after.game_of.contains_key(after.lobby[i]) by {
            assert(before.outboxes.contains_key(before.lobby[i]));
        }
        assert forall|id: u64|
            after.game_of.contains_key(id) && !after.outboxes.contains_key(id) implies after.games[(
        #[trigger] after.game_of[id]) as int].state == GameState::Ended(
            GameResult::Abandoned,
        ) by {
            assert(!before.outboxes.contains_key(id));
        }
    }
}

/// Sending a message changes at most what waits in the outboxes.
pub proof fn lemma_send_one_same_connections(server: ServerView, id: u64, message: SendMessage)
    ensures
        server.same_connections(server.send_one(id, message)),
{
    assert(server.send_one(id, message).outboxes.dom() =~= server.outboxes.dom());
}

/// Sending a message to several identities changes at most what waits in the outboxes.
pub proof fn lemma_send_each_same_connections(
    server: ServerView,
    ids: Seq<u64>,
    message: SendMessage,
)
    ensures
        server.same_connections(server.send_each(ids, message)),
    decreases ids.len(),
{
    if ids.len() > 0 {
        lemma_send_one_same_connections(server, ids[0], message);
        lemma_send_each_same_connections(
            server.send_one(ids[0], message),
            ids.drop_first(),
            message,
        );
    }
}

/// Sending a message to several identities but one changes at most what waits in the
/// outboxes, and nothing in the outbox of the one left out.
pub proof fn lemma_send_each_but_same_connections(
    server: ServerView,
    ids: Seq<u64>,
    excluded: u64,
    message: SendMessage,
)
    ensures
        server.same_connections(server.send_each_but(ids, excluded, message)),
        server.connected(excluded) ==> server.send_each_but(ids, excluded, message).outboxes[excluded]
            == server.outboxes[excluded],
    decreases ids.len(),
{
    if ids.len() > 0 {
        if ids[0] == excluded {
            lemma_send_each_but_same_connections(server, ids.drop_first(), excluded, message);
        } else {
            lemma_send_one_same_connections(server, ids[0], message);
            lemma_send_each_but_same_connections(
                server.send_one(ids[0], message),
                ids.drop_first(),
                excluded,
                message,
            );
        }
    }
}

/// Telling players the result of their game changes at most what waits in the outboxes.
pub proof fn lemma_send_results_same_connections(
    server: ServerView,
    players: Seq<Player>,
    winner: Mark,
)
    ensures
        server.same_connections(server.send_results(players, winner)),
    decreases players.len(),
{
    if players.len() > 0 {
        let message = SendMessage::GameOver { winner: players[0].mark == winner, draw: false };
        lemma_send_one_same_connections(server, players[0].id, message);
        lemma_send_results_same_connections(
            server.send_one(players[0].id, message),
            players.drop_first(),
            winner,
        );
    }
}

/// Announcing how a game ended changes at most what waits in the outboxes.
pub proof fn lemma_announce_same_connections(
    server: ServerView,
    players: Seq<Player>,
    result: Option<GameResult>,
)
    ensures
        server.same_connections(server.announce(players, result)),
{
    lemma_send_results_same_connections(server, players, Mark::Cross);
    lemma_send_results_same_connections(server, players, Mark::Nought);
    lemma_send_each_same_connections(
        server,
        ids_of(players),
        SendMessage::GameOver { winner: false, draw: true },
    );
}

/// A new connection that enters the lobby leaves the registry consistent.
pub proof fn lemma_enter_lobby(server: ServerView)
    requires
        server.wf(),
        server.next_id < u64::MAX,
    ensures
        server.enter_lobby().consistent(),
        server.enter_lobby().lobby.len() == server.lobby.len() + 1,
        server.enter_lobby().lobby.len() <= NUM_PLAYERS,
{
    let entered = server.enter_lobby();
    let id = server.next_id;
    assert(!server.outboxes.contains_key(id));
    assert(!server.game_of.contains_key(id));
    assert forall|i: int, j: int|
        0 <= i < entered.lobby.len() && 0 <= j < entered.lobby.len() && i != j implies entered.lobby[i]
        != entered.lobby[j] by {
        if i < server.lobby.len() {
            assert(server.outboxes.contains_key(server.lobby[i]));
        }
        if j < server.lobby.len() {
            assert(server.outboxes.contains_key(server.lobby[j]));
        }
    }
    assert forall|other: u64| #[trigger] entered.outboxes.contains_key(other) implies other
        < entered.next_id && (entered.lobby.contains(other) || entered.game_of.contains_key(
        other,
    )) by {
        if other == id {
            assert(entered.lobby[server.lobby.len() as int] == id);
        } else {
            assert(server.outboxes.contains_key(other));
            if server.lobby.contains(other) {
                let k = choose|k: int| 0 <= k < server.lobby.len() && server.lobby[k] == other;
                assert(entered.lobby[k] == other);
            }
        }
    }
    assert forall|other: u64|
        entered.game_of.contains_key(other) && !entered.outboxes.contains_key(
            other,
        ) implies entered.games[(#[trigger] entered.game_of[other]) as int].state
        == GameState::Ended(GameResult::Abandoned) by {
        assert(!server.outboxes.contains_key(other));
    }
}

/// Pairing the two identities in the lobby re-establishes the invariant.
pub proof fn lemma_start_game_wf(server: ServerView, first: usize)
    requires
        server.consistent(),
        server.lobby.len() == NUM_PLAYERS,
        first < NUM_PLAYERS,
    ensures
        server.start_game(first).wf(),
{
    let started = server.start_game(first);
    let cross = server.lobby[0];
    let nought = server.lobby[1];
    let index = server.games.len();
    let game = GameView::start(seated(server.lobby), first as nat);
    let first_told = server.send_one(
        cross,
        SendMessage::StartGame { mark: Mark::Cross, first: first == 0 },
    );
    lemma_send_one_same_connections(
        server,
        cross,
        SendMessage::StartGame { mark: Mark::Cross, first: first == 0 },
    );
    lemma_send_one_same_connections(
        first_told,
        nought,
        SendMessage::StartGame { mark: Mark::Nought, first: first == 1 },
    );
    assert(started.outboxes.dom() == server.outboxes.dom());
    lemma_empty_board_undecided();
    assert(game.wf());
    assert(server.outboxes.contains_key(cross) && !server.game_of.contains_key(cross));
    assert(server.outboxes.contains_key(nought) && !server.game_of.contains_key(nought));
    assert forall|id: u64| #[trigger] started.outboxes.contains_key(id) implies id
        < started.next_id && (started.lobby.contains(id) || started.game_of.contains_key(id)) by {
        assert(server.outboxes.contains_key(id));
        if server.lobby.contains(id) {
            let k = choose|k: int| 0 <= k < server.lobby.len() && server.lobby[k] == id;
            assert(k == 0 || k == 1);
        }
    }
    assert forall|id: u64| #[trigger] started.game_of.contains_key(id) implies id
        < started.next_id && started.game_of[id] < started.games.len()
        && started.games[started.game_of[id] as int].has_player(id) by {
        if id == cross || id == nought {
            assert(cross != nought);
            assert(started.game_of[id] == index);
            assert(started.games[index as int] == game);
            assert(game.players[0].id == cross && game.players[1].id == nought);
            assert(game.has_player(id));
        } else {
            assert(server.game_of.contains_key(id));
            let old_game = server.games[server.game_of[id] as int];
            assert(started.games[started.game_of[id] as int] == old_game);
            assert(old_game.has_player(id));
        }
    }
    assert forall|id: u64|
        started.game_of.contains_key(id) && !started.outboxes.contains_key(
            id,
        ) implies started.games[(#[trigger] started.game_of[id]) as int].state
        == GameState::Ended(GameResult::Abandoned) by {
        assert(id != cross && id != nought);
        assert(server.game_of.contains_key(id));
        assert(!server.outboxes.contains_key(id));
        assert(server.game_of[id] < server.games.len());
    }
    assert forall|i: int| 0 <= i < started.games.len() implies (#[trigger] started.games[i]).wf() by {
        if i < index {
            assert(server.games[i].wf());
        }
    }
    assert forall|i: int, j: int|
        0 <= i < started.games.len() && 0 <= j < NUM_PLAYERS implies {
            let id = (#[trigger] started.games[i].players[j]).id;
            started.game_of.contains_key(id) && started.game_of[id] == i
        } by {
        if i < index {
            let id = server.games[i].players[j].id;
            assert(server.game_of.contains_key(id) && server.game_of[id] == i);
        }
    }
}

/// Handling a request keeps the invariant.
pub proof fn lemma_handle_receive_wf(server: ServerView, id: u64, message: ReceiveMessage)
    requires
        server.wf(),
    ensures
        server.handle_receive(id, message).wf(),
{
    match message {
        ReceiveMessage::Move { pos } => {
            if server.game_of.contains_key(id) {
                let index = server.game_of[id] as int;
                let game = server.games[index];
                if game.can_move(pos, id) {
                    lemma_move_wf(server, id, pos);
                    let moved = game.after_move(pos);
                    let placed = ServerView { games: server.games.update(index, moved), ..server };
                    let told = SendMessage::Move { mark: game.current().mark, pos };
                    match outcome(moved.cells) {
                        None => {
                            lemma_send_each_but_same_connections(placed, game.ids(), id, told);
                            lemma_same_connections_wf(
                                placed,
                                placed.send_each_but(game.ids(), id, told),
                            );
                        },
                        Some(result) => {
                            lemma_announce_same_connections(placed, game.players, Some(result));
                            lemma_same_connections_wf(
                                placed,
                                placed.announce(game.players, Some(result)),
                            );
                        },
                    }
                }
            }
        },
    }
}

/// A legal move in the game of `id` keeps the invariant of the registry.
pub proof fn lemma_move_wf(server: ServerView, id: u64, pos: Square)
    requires
        server.wf(),
        server.game_of.contains_key(id),
        server.games[server.game_of[id] as int].can_move(pos, id),
    ensures
        (ServerView {
            games: server.games.update(
                server.game_of[id] as int,
                server.games[server.game_of[id] as int].after_move(pos),
            ),
            ..server
        }).wf(),
{
    let index = server.game_of[id] as int;
    let game = server.games[index];
    let moved = game.after_move(pos);
    let placed = ServerView { games: server.games.update(index, moved), ..server };
    assert(game.wf());
    lemma_after_move_wf(game, pos);
    assert forall|other: u64| #[trigger] placed.game_of.contains_key(other) implies other
        < placed.next_id && placed.game_of[other] < placed.games.len()
        && placed.games[placed.game_of[other] as int].has_player(other) by {
        let g = server.games[server.game_of[other] as int];
        assert(g.has_player(other));
        let k = choose|k: int| 0 <= k < g.players.len() && g.players[k].id == other;
        assert(placed.games[placed.game_of[other] as int].players[k].id == other);
    }
    assert forall|other: u64|
        placed.game_of.contains_key(other) && !placed.outboxes.contains_key(
            other,
        ) implies placed.games[(#[trigger] placed.game_of[other]) as int].state
        == GameState::Ended(GameResult::Abandoned) by {
        assert(server.games[server.game_of[other] as int].state == GameState::Ended(
            GameResult::Abandoned,
        ));
    }
    assert forall|i: int| 0 <= i < placed.games.len() implies (#[trigger] placed.games[i]).wf() by {
        if i != index {
            assert(server.games[i].wf());
        }
    }
    assert forall|i: int, j: int|
        0 <= i < placed.games.len() && 0 <= j < NUM_PLAYERS implies {
            let p = (#[trigger] placed.games[i].players[j]).id;
            placed.game_of.contains_key(p) && placed.game_of[p] == i
        } by {
        let p = server.games[i].players[j].id;
        assert(server.game_of.contains_key(p) && server.game_of[p] == i);
    }
}

/// Disconnecting keeps the invariant.
pub proof fn lemma_disconnect_wf(server: ServerView, id: u64)
    requires
        server.wf(),
    ensures
        server.disconnect(id).wf(),
{
    let after = server.disconnect(id);
    if !server.connected(id) {
    } else if server.lobby.contains(id) {
        let at = server.lobby.index_of(id);
        assert(0 <= at < server.lobby.len() && server.lobby[at] == id);
        assert(server.lobby.len() == 1);
        assert(after.lobby =~= Seq::empty());
        assert(!server.game_of.contains_key(id));
        assert forall|other: u64| #[trigger] after.outboxes.contains_key(other) implies other
            < after.next_id && (after.lobby.contains(other) || after.game_of.contains_key(
            other,
        )) by {
            assert(server.outboxes.contains_key(other));
            if server.lobby.contains(other) {
                let k = choose|k: int| 0 <= k < server.lobby.len() && server.lobby[k] == other;
                assert(k == 0);
            }
        }
        assert forall|other: u64|
            after.game_of.contains_key(other) && !after.outboxes.contains_key(
                other,
            ) implies after.games[(#[trigger] after.game_of[other]) as int].state
            == GameState::Ended(GameResult::Abandoned) by {
            assert(other != id);
            assert(!server.outboxes.contains_key(other));
        }
    } else {
        assert(server.game_of.contains_key(id));
        let index = server.game_of[id] as int;
        let game = server.games[index];
        let told = server.send_each_but(game.ids(), id, SendMessage::PlayerLeft);
        lemma_send_each_but_same_connections(server, game.ids(), id, SendMessage::PlayerLeft);
        assert(game.wf());
        assert(game.abandoned().wf());
        assert forall|other: u64| #[trigger] after.outboxes.contains_key(other) implies other
            < after.next_id && (after.lobby.contains(other) || after.game_of.contains_key(
            other,
        )) by {
            assert(server.outboxes.contains_key(other));
        }
        assert forall|i: int| 0 <= i < after.lobby.len() implies after.outboxes.contains_key(
            #[trigger] after.lobby[i],
        ) && !after.game_of.contains_key(after.lobby[i]) by {
            assert(server.outboxes.contains_key(server.lobby[i]));
        }
        assert forall|other: u64| #[trigger] after.game_of.contains_key(other) implies other
            < after.next_id && after.game_of[other] < after.games.len()
            && after.games[after.game_of[other] as int].has_player(other) by {
            let g = server.games[server.game_of[other] as int];
            assert(g.has_player(other));
            let k = choose|k: int| 0 <= k < g.players.len() && g.players[k].id == other;
            assert(after.games[after.game_of[other] as int].players[k].id == other);
        }
        assert forall|other: u64|
            after.game_of.contains_key(other) && !after.outboxes.contains_key(
                other,
            ) implies after.games[(#[trigger] after.game_of[other]) as int].state
            == GameState::Ended(GameResult::Abandoned) by {
            if server.game_of[other] as int != index {
                assert(other != id);
                assert(!server.outboxes.contains_key(other));
                assert(server.games[server.game_of[other] as int].state == GameState::Ended(
                    GameResult::Abandoned,
                ));
            }
        }
        assert forall|i: int| 0 <= i < after.games.len() implies (#[trigger] after.games[i]).wf() by {
            if i != index {
                assert(server.games[i].wf());
            }
        }
        assert forall|i: int, j: int|
            0 <= i < after.games.len() && 0 <= j < NUM_PLAYERS implies {
                let p = (#[trigger] after.games[i].players[j]).id;
                after.game_of.contains_key(p) && after.game_of[p] == i
            } by {
            let p = server.games[i].players[j].id;
            assert(server.game_of.contains_key(p) && server.game_of[p] == i);
        }
    }
}

/// Sending to two identities in turn, written out.
pub proof fn lemma_send_each_pair(server: ServerView, a: u64, b: u64, message: SendMessage)
    ensures
        server.send_each(seq![a, b], message) == server.send_one(a, message).send_one(b, message),
{
    reveal_with_fuel(ServerView::send_each, 3);
    let ids = seq![a, b];
    assert(ids.drop_first() =~= seq![b]);
    assert(ids.drop_first().drop_first() =~= Seq::<u64>::empty());
}

/// Sending to two identities but one, written out.
pub proof fn lemma_send_each_but_pair(
    server: ServerView,
    a: u64,
    b: u64,
    excluded: u64,
    message: SendMessage,
)
    ensures
        server.send_each_but(seq![a, b], excluded, message) == {
            let first = if a == excluded {
                server
            } else {
                server.send_one(a, message)
            };
            if b == excluded {
                first
            } else {
                first.send_one(b, message)
            }
        },
{
    reveal_with_fuel(ServerView::send_each_but, 3);
    let ids = seq![a, b];
    assert(ids.drop_first() =~= seq![b]);
    assert(ids.drop_first().drop_first() =~= Seq::<u64>::empty());
}

/// Telling two players the result of their game, written out.
pub proof fn lemma_send_results_pair(server: ServerView, players: Seq<Player>, winner: Mark)
    requires
        players.len() == NUM_PLAYERS,
    ensures
        server.send_results(players, winner) == server.send_one(
            players[0].id,
            SendMessage::GameOver { winner: players[0].mark == winner, draw: false },
        ).send_one(
            players[1].id,
            SendMessage::GameOver { winner: players[1].mark == winner, draw: false },
        ),
{
    reveal_with_fuel(ServerView::send_results, 3);
    assert(players.drop_first().len() == 1);
    assert(players.drop_first()[0] == players[1]);
    assert(players.drop_first().drop_first().len() == 0);
}

/// A request of an identity that is in no game changes nothing.
pub proof fn lemma_unpaired_request_dropped(server: ServerView, id: u64, message: ReceiveMessage)
    requires
        !server.game_of.contains_key(id),
    ensures
        server.handle_receive(id, message) == server,
{
}

/// A request for a move that is not legal changes nothing: not for a square off the
/// board or taken, not out of turn, and not once the game has ended.
pub proof fn lemma_illegal_move_dropped(server: ServerView, id: u64, pos: Square)
    requires
        server.game_of.contains_key(id),
        !server.games[server.game_of[id] as int].can_move(pos, id),
    ensures
        server.handle_receive(id, ReceiveMessage::Move { pos }) == server,
{
}

/// While a game is in progress, both its players are connected.
pub proof fn lemma_players_of_running_game_connected(server: ServerView, index: int, j: int)
    requires
        server.wf(),
        0 <= index < server.games.len(),
        0 <= j < NUM_PLAYERS,
        server.games[index].state == GameState::InProgress,
    ensures
        server.connected(server.games[index].players[j].id),
{
    let id = server.games[index].players[j].id;
    assert(server.game_of.contains_key(id) && server.game_of[id] == index);
    if !server.outboxes.contains_key(id) {
        assert(server.games[server.game_of[id] as int].state == GameState::Ended(
            GameResult::Abandoned,
        ));
    }
}

/// What a legal move does to the registry: the game takes the move. If the game goes on,
/// the other player is told of the move and the mover is told nothing. If the move ended
/// the game on the board, nobody is told of the move: each of the two is told once how
/// the game ended. Nobody else is told anything.
pub proof fn lemma_move_relayed(server: ServerView, id: u64, pos: Square)
    requires
        server.wf(),
        server.game_of.contains_key(id),
        server.games[server.game_of[id] as int].can_move(pos, id),
    ensures
        ({
            let index = server.game_of[id] as int;
            let game = server.games[index];
            let other = game.opponent_of(id);
            let result = outcome(game.after_move(pos).cells);
            let after = server.handle_receive(id, ReceiveMessage::Move { pos });
            &&& after.games == server.games.update(index, game.after_move(pos))
            &&& after.next_id == server.next_id
            &&& after.lobby == server.lobby
            &&& after.game_of == server.game_of
            &&& after.outboxes.dom() == server.outboxes.dom()
            &&& server.connected(id) && server.connected(other) && other != id
            &&& game.mark_of(id) is Some && game.mark_of(other) is Some
            &&& after.outboxes[id] == server.outboxes[id] + verdict(result, game.mark_of(id)->0)
            &&& after.outboxes[other] == server.outboxes[other] + if result is None {
                seq![SendMessage::Move { mark: game.mark_of(id)->0, pos }]
            } else {
                verdict(result, game.mark_of(other)->0)
            }
            &&& forall|z: u64|
                z != id && z != other && server.connected(z) ==> #[trigger] after.outboxes[z]
                    == server.outboxes[z]
        }),
{
    let index = server.game_of[id] as int;
    let game = server.games[index];
    let other = game.opponent_of(id);
    let moved = game.after_move(pos);
    let result = outcome(moved.cells);
    let mark = game.current().mark;
    let told = SendMessage::Move { mark, pos };
    let placed = ServerView { games: server.games.update(index, moved), ..server };
    assert(game.wf());
    lemma_players_of_running_game_connected(server, index, 0);
    lemma_players_of_running_game_connected(server, index, 1);
    lemma_mark_of_player(game, 0);
    lemma_mark_of_player(game, 1);
    let a = game.players[0].id;
    let b = game.players[1].id;
    assert(game.ids() =~= seq![a, b]);
    lemma_send_each_but_pair(placed, a, b, id, told);
    lemma_send_results_pair(placed, game.players, Mark::Cross);
    lemma_send_results_pair(placed, game.players, Mark::Nought);
    lemma_send_each_pair(placed, a, b, SendMessage::GameOver { winner: false, draw: true });
    lemma_outcome_cases(moved.cells);
    let after = server.handle_receive(id, ReceiveMessage::Move { pos });
    assert(after.outboxes.dom() =~= server.outboxes.dom());
    assert(after.outboxes[id] =~= server.outboxes[id] + verdict(result, game.mark_of(id)->0));
    if result is None {
        assert(after == placed.send_one(other, told));
        assert(after.outboxes[other] =~= server.outboxes[other] + seq![told]);
    } else {
        assert(after.outboxes[other] =~= server.outboxes[other] + verdict(
            result,
            game.mark_of(other)->0,
        ));
    }
}

/// A move that ends the game on the board is told to nobody as a move: all that is put
/// into an outbox is one message that the game is over, for each of the two players.
pub proof fn lemma_ending_move_not_relayed(server: ServerView, id: u64, pos: Square)
    requires
        server.wf(),
        server.game_of.contains_key(id),
        server.games[server.game_of[id] as int].can_move(pos, id),
        outcome(server.games[server.game_of[id] as int].after_move(pos).cells) is Some,
    ensures
        ({
            let game = server.games[server.game_of[id] as int];
            let other = game.opponent_of(id);
            let after = server.handle_receive(id, ReceiveMessage::Move { pos });
            &&& after.outboxes[id].len() == server.outboxes[id].len() + 1
            &&& after.outboxes[id].last() is GameOver
            &&& after.outboxes[other].len() == server.outboxes[other].len() + 1
            &&& after.outboxes[other].last() is GameOver
            &&& forall|z: u64|
                z != id && z != other && server.connected(z) ==> #[trigger] after.outboxes[z]
                    == server.outboxes[z]
        }),
{
    lemma_move_relayed(server, id, pos);
    lemma_outcome_cases(server.games[server.game_of[id] as int].after_move(pos).cells);
}

/// Disconnecting a connected player of a game abandons that game, whatever its state
/// was, and leaves every other game as it was; the other player is told once that the
/// player has left, if still connected; nobody else is told anything; and the player is
/// no longer connected.
pub proof fn lemma_disconnect_in_game(server: ServerView, id: u64)
    requires
        server.wf(),
        server.connected(id),
        server.game_of.contains_key(id),
    ensures
        ({
            let index = server.game_of[id] as int;
            let game = server.games[index];
            let other = game.opponent_of(id);
            let after = server.disconnect(id);
            &&& after.games == server.games.update(index, game.abandoned())
            &&& after.games[index].state == GameState::Ended(GameResult::Abandoned)
            &&& after.lobby == server.lobby
            &&& after.game_of == server.game_of
            &&& after.outboxes.dom() == server.outboxes.dom().remove(id)
            &&& other != id
            &&& server.connected(other) ==> after.outboxes[other] == server.outboxes[other].push(
                SendMessage::PlayerLeft,
            )
            &&& forall|z: u64|
                z != id && z != other && server.connected(z) ==> #[trigger] after.outboxes[z]
                    == server.outboxes[z]
        }),
{
    let index = server.game_of[id] as int;
    let game = server.games[index];
    assert(game.wf());
    assert(game.has_player(id));
    assert(!server.lobby.contains(id)) by {
        if server.lobby.contains(id) {
            let k = choose|k: int| 0 <= k < server.lobby.len() && server.lobby[k] == id;
            assert(!server.game_of.contains_key(server.lobby[k]));
        }
    }
    let a = game.players[0].id;
    let b = game.players[1].id;
    assert(game.ids() =~= seq![a, b]);
    lemma_send_each_but_pair(server, a, b, id, SendMessage::PlayerLeft);
    let after = server.disconnect(id);
    assert(after.outboxes.dom() =~= server.outboxes.dom().remove(id));
}

/// Disconnecting an identity that waits in the lobby takes it out of the lobby and
/// tells nobody anything.
pub proof fn lemma_disconnect_in_lobby(server: ServerView, id: u64)
    requires
        server.wf(),
        server.connected(id),
        server.lobby.contains(id),
    ensures
        ({
            let after = server.disconnect(id);
            &&& after.lobby.len() == 0
            &&& after.games == server.games
            &&& after.game_of == server.game_of
            &&& after.outboxes == server.outboxes.remove(id)
        }),
{
    let at = server.lobby.index_of(id);
    assert(0 <= at < server.lobby.len() && server.lobby[at] == id);
}

/// Disconnecting an identity that is not connected changes nothing; so disconnecting
/// the same identity once more changes nothing.
pub proof fn lemma_disconnect_again(server: ServerView, id: u64)
    ensures
        !server.connected(id) ==> server.disconnect(id) == server,
        !server.disconnect(id).connected(id),
        server.disconnect(id).disconnect(id) == server.disconnect(id),
{
}

/// A connection that finds the lobby empty waits there, with an empty outbox; no game
/// is started and nobody is told anything.
pub proof fn lemma_connect_waits(server: ServerView, first: usize)
    requires
        server.wf(),
        server.lobby.len() == 0,
        server.next_id < u64::MAX,
    ensures
        ({
            let (after, id) = server.connect(first);
            &&& id == Some(server.next_id)
            &&& after.next_id == server.next_id + 1
            &&& after.lobby == seq![server.next_id]
            &&& after.games == server.games
            &&& after.game_of == server.game_of
            &&& after.outboxes == server.outboxes.insert(server.next_id, Seq::empty())
            &&& after.wf()
        }),
{
    lemma_enter_lobby(server);
    assert(server.connect(first).0.lobby =~= seq![server.next_id]);
}

/// A connection that finds someone waiting is paired with them in one new game, and the
/// lobby is empty afterwards. Who waited plays `Cross`, who came plays `Nought`, each is
/// told their mark and whether they move first, exactly one of them does, and that one
/// has the first turn in the game. Nobody else is told anything.
pub proof fn lemma_connect_pairs(server: ServerView, first: usize)
    requires
        server.wf(),
        server.lobby.len() == 1,
        server.next_id < u64::MAX,
        first < NUM_PLAYERS,
    ensures
        ({
            let waiting = server.lobby[0];
            let arrived = server.next_id;
            let (after, id) = server.connect(first);
            let game = after.games.last();
            &&& id == Some(arrived)
            &&& waiting != arrived
            &&& after.wf()
            &&& after.lobby.len() == 0
            &&& after.games == server.games.push(game)
            &&& game.players == seq![
                Player { mark: Mark::Cross, id: waiting },
                Player { mark: Mark::Nought, id: arrived },
            ]
            &&& game == GameView::start(game.players, first as nat)
            &&& game.current().id == if first == 0 {
                waiting
            } else {
                arrived
            }
            &&& after.game_of == server.game_of.insert(waiting, server.games.len()).insert(
                arrived,
                server.games.len(),
            )
            &&& after.outboxes == server.outboxes.insert(
                waiting,
                server.outboxes[waiting].push(
                    SendMessage::StartGame { mark: Mark::Cross, first: first == 0 },
                ),
            ).insert(
                arrived,
                seq![SendMessage::StartGame { mark: Mark::Nought, first: first == 1 }],
            )
            &&& (first == 0) != (first == 1)
        }),
{
    lemma_enter_lobby(server);
    let entered = server.enter_lobby();
    lemma_start_game_wf(entered, first);
    let waiting = server.lobby[0];
    let arrived = server.next_id;
    assert(server.outboxes.contains_key(waiting));
    let (after, id) = server.connect(first);
    assert(entered.lobby[0] == waiting && entered.lobby[1] == arrived);
    assert(after.outboxes =~= server.outboxes.insert(
        waiting,
        server.outboxes[waiting].push(
            SendMessage::StartGame { mark: Mark::Cross, first: first == 0 },
        ),
    ).insert(arrived, seq![SendMessage::StartGame { mark: Mark::Nought, first: first == 1 }]));
}

/// Two connections to a server whose lobby is empty are paired in exactly one new game,
/// whoever is chosen to move first: the lobby is empty again, the game's players are the
/// two, with opposite marks, and each of them has been told their mark and whether they
/// move first, which exactly one of them does.
pub proof fn lemma_two_connections_pair(server: ServerView, first_chance: usize, second_chance: usize)
    requires
        server.wf(),
        server.lobby.len() == 0,
        server.next_id + 1 < u64::MAX,
        first_chance < NUM_PLAYERS,
        second_chance < NUM_PLAYERS,
    ensures
        ({
            let a = server.next_id;
            let b = (server.next_id + 1) as u64;
            let (one, first_id) = server.connect(first_chance);
            let (two, second_id) = one.connect(second_chance);
            &&& first_id == Some(a) && second_id == Some(b)
            &&& one.games == server.games && one.lobby == seq![a]
            &&& two.wf()
            &&& two.lobby.len() == 0
            &&& two.games.len() == server.games.len() + 1
            &&& two.games.last().ids() == seq![a, b]
            &&& two.game_of[a] == server.games.len() && two.game_of[b] == server.games.len()
            &&& two.outboxes[a] == seq![
                SendMessage::StartGame { mark: Mark::Cross, first: second_chance == 0 },
            ]
            &&& two.outboxes[b] == seq![
                SendMessage::StartGame { mark: Mark::Nought, first: second_chance == 1 },
            ]
            &&& (second_chance == 0) != (second_chance == 1)
        }),
{
    lemma_connect_waits(server, first_chance);
    let (one, first_id) = server.connect(first_chance);
    lemma_connect_pairs(one, second_chance);
    let (two, second_id) = one.connect(second_chance);
    assert(two.games.last().ids() =~= seq![server.next_id, (server.next_id + 1) as u64]);
    assert(two.outboxes[server.next_id] =~= seq![
        SendMessage::StartGame { mark: Mark::Cross, first: second_chance == 0 },
    ]);
}

/// Who is connected either waits in the lobby or is in a game, never both.
pub proof fn lemma_lobby_or_game(server: ServerView, id: u64)
    requires
        server.wf(),
        server.connected(id),
    ensures
        server.lobby.contains(id) != server.game_of.contains_key(id),
{
    if server.lobby.contains(id) {
        let k = choose|k: int| 0 <= k < server.lobby.len() && server.lobby[k] == id;
        assert(!server.game_of.contains_key(server.lobby[k]));
    }
}

/// The identity that the next connection gets is new: nobody is connected under it,
/// nobody waits under it, and no game has a player of that identity.
pub proof fn lemma_next_identity_is_new(server: ServerView)
    requires
        server.wf(),
    ensures
        !server.connected(server.next_id),
        !server.lobby.contains(server.next_id),
        !server.game_of.contains_key(server.next_id),
        forall|i: int|
            0 <= i < server.games.len() ==> !(#[trigger] server.games[i]).has_player(
                server.next_id,
            ),
{
    let id = server.next_id;
    if server.lobby.contains(id) {
        let k = choose|k: int| 0 <= k < server.lobby.len() && server.lobby[k] == id;
        assert(server.outboxes.contains_key(server.lobby[k]));
    }
    assert forall|i: int| 0 <= i < server.games.len() implies !(#[trigger] server.games[i]).has_player(
        id,
    ) by {
        if server.games[i].has_player(id) {
            let j = choose|j: int|
                0 <= j < server.games[i].players.len() && server.games[i].players[j].id == id;
            assert(server.games[i].wf());
            assert(server.game_of.contains_key(server.games[i].players[j].id));
        }
    }
}

/// Handling a request removes no game, moves none to another index, changes the
/// players of none and takes no mark off a board.
pub proof fn lemma_handle_receive_keeps_games(server: ServerView, id: u64, message: ReceiveMessage)
    requires
        server.wf(),
    ensures
        server.keeps_games(server.handle_receive(id, message)),
        server.handle_receive(id, message).games.len() == server.games.len(),
{
    match message {
        ReceiveMessage::Move { pos } => {
            if server.game_of.contains_key(id) {
                let index = server.game_of[id] as int;
                let game = server.games[index];
                if game.can_move(pos, id) {
                    let moved = game.after_move(pos);
                    let placed = ServerView { games: server.games.update(index, moved), ..server };
                    let told = SendMessage::Move { mark: game.current().mark, pos };
                    match outcome(moved.cells) {
                        None => {
                            lemma_send_each_but_same_connections(placed, game.ids(), id, told);
                        },
                        Some(result) => {
                            lemma_announce_same_connections(placed, game.players, Some(result));
                        },
                    }
                    assert(game.wf());
                }
            }
        },
    }
}

/// Disconnecting removes no game, moves none to another index, changes the players of
/// none and takes no mark off a board.
pub proof fn lemma_disconnect_keeps_games(server: ServerView, id: u64)
    requires
        server.wf(),
    ensures
        server.keeps_games(server.disconnect(id)),
        server.disconnect(id).games.len() == server.games.len(),
{
    if server.connected(id) && !server.lobby.contains(id) && server.game_of.contains_key(id) {
        let index = server.game_of[id] as int;
        lemma_send_each_but_same_connections(
            server,
            server.games[index].ids(),
            id,
            SendMessage::PlayerLeft,
        );
    }
}

/// Admitting a connection removes no game, moves none to another index, changes the
/// players of none and takes no mark off a board; at most one game is added.
pub proof fn lemma_connect_keeps_games(server: ServerView, first: usize)
    requires
        server.wf(),
    ensures
        server.keeps_games(server.connect(first).0),
        server.connect(first).0.games.len() <= server.games.len() + 1,
{
    if server.next_id < u64::MAX {
        lemma_enter_lobby(server);
        lemma_next_identity_is_new(server);
        let entered = server.enter_lobby();
        if entered.lobby.len() == NUM_PLAYERS {
            let after = entered.start_game(first);
            assert forall|other: u64| #[trigger]
                server.game_of.contains_key(other) implies after.game_of.contains_key(other)
                && after.game_of[other] == server.game_of[other] by {
                assert(!entered.game_of.contains_key(entered.lobby[0]));
                assert(!entered.game_of.contains_key(entered.lobby[1]));
            }
        }
    }
}

/// Whatever happens on a connection, the registry keeps its invariant, and no game is
/// removed, moved to another index, given other players or robbed of a mark.
pub proof fn lemma_handle_event_keeps_games(server: ServerView, id: u64, event: ClientEvent)
    requires
        server.wf(),
    ensures
        server.handle_event(id, event).wf(),
        server.keeps_games(server.handle_event(id, event)),
        server.handle_event(id, event).games.len() == server.games.len(),
{
    match event {
        ClientEvent::Request(message) => {
            lemma_handle_receive_wf(server, id, message);
            lemma_handle_receive_keeps_games(server, id, message);
        },
        _ => {
            lemma_disconnect_wf(server, id);
            lemma_disconnect_keeps_games(server, id);
        },
    }
}

} // verus!
