use tictactoe::game::{GameResult, GameState, Mark, Square};
use tictactoe::message::{ReceiveMessage, SendMessage};
use tictactoe::server::Server;
use tictactoe::event::{ClientAction, ClientEvent};

fn move_to(x: usize, y: usize) -> ReceiveMessage {
    ReceiveMessage::Move { pos: Square::new(x, y) }
}

fn moved(mark: Mark, x: usize, y: usize) -> SendMessage {
    SendMessage::Move { mark, pos: Square::new(x, y) }
}

fn start(mark: Mark, first: bool) -> SendMessage {
    SendMessage::StartGame { mark, first }
}

fn over(winner: bool, draw: bool) -> SendMessage {
    SendMessage::GameOver { winner, draw }
}

/// A server with one game between identities 0 (Cross) and 1 (Nought), the outboxes
/// emptied; `first` is the index of who moves first.
fn paired(first: usize) -> Server {
    let mut server = Server::new();
    assert_eq!(server.connect_with_first(first), Some(0));
    assert_eq!(server.connect_with_first(first), Some(1));
    server.take_messages(0);
    server.take_messages(1);
    server
}

fn state_of(server: &Server, index: usize) -> GameState {
    server.game(index).unwrap().state()
}

#[test]
fn new_server_knows_nobody() {
    let server = Server::new();
    assert!(server.lobby().is_empty());
    assert_eq!(server.num_games(), 0);
    assert!(!server.is_connected(0));
    assert_eq!(server.game_index(0), None);
    assert!(server.game(0).is_none());
}

#[test]
fn first_connection_waits_in_the_lobby() {
    let mut server = Server::new();
    assert_eq!(server.connect_with_first(1), Some(0));
    assert_eq!(server.lobby(), &vec![0]);
    assert!(server.is_connected(0));
    assert_eq!(server.num_games(), 0);
    assert_eq!(server.game_index(0), None);
    assert_eq!(server.take_messages(0), vec![]);
}

#[test]
fn two_connections_are_paired_in_one_game() {
    for first in 0..2 {
        let mut server = Server::new();
        assert_eq!(server.connect_with_first(first), Some(0));
        assert_eq!(server.connect_with_first(first), Some(1));
        assert!(server.lobby().is_empty());
        assert_eq!(server.num_games(), 1);
        assert_eq!(server.game_index(0), Some(0));
        assert_eq!(server.game_index(1), Some(0));
        let game = server.game(0).unwrap();
        assert_eq!(game.get_player_ids(), vec![0, 1]);
        assert_eq!(game.get_player_mark(0), Some(Mark::Cross));
        assert_eq!(game.get_player_mark(1), Some(Mark::Nought));
        assert_eq!(game.get_curr_player().id(), first as u64);
        assert_eq!(game.state(), GameState::InProgress);
        assert_eq!(server.take_messages(0), vec![start(Mark::Cross, first == 0)]);
        assert_eq!(server.take_messages(1), vec![start(Mark::Nought, first == 1)]);
    }
}

#[test]
fn chance_picks_exactly_one_player_to_move_first() {
    for _ in 0..200 {
        let mut server = Server::new();
        let a = server.connect().unwrap();
        let b = server.connect().unwrap();
        assert_eq!((a, b), (0, 1));
        let to_a = server.take_messages(a);
        let to_b = server.take_messages(b);
        let a_first = match to_a.as_slice() {
            [SendMessage::StartGame { mark: Mark::Cross, first }] => *first,
            other => panic!("unexpected messages {:?}", other),
        };
        let b_first = match to_b.as_slice() {
            [SendMessage::StartGame { mark: Mark::Nought, first }] => *first,
            other => panic!("unexpected messages {:?}", other),
        };
        assert_ne!(a_first, b_first);
        let mover = if a_first { a } else { b };
        let game = server.game(0).unwrap();
        assert_eq!(game.get_curr_player().id(), mover);
        assert!(game.can_move(&Square::new(0, 0), mover));
    }
}

#[test]
fn chance_lets_either_player_move_first() {
    let mut seen = [false, false];
    for _ in 0..400 {
        let mut server = Server::new();
        server.connect();
        server.connect();
        let first = server.game(0).unwrap().get_curr_player().id();
        seen[first as usize] = true;
    }
    assert_eq!(seen, [true, true]);
}

#[test]
fn later_connections_form_further_games() {
    let mut server = Server::new();
    for expected in 0..5u64 {
        assert_eq!(server.connect_with_first(0), Some(expected));
    }
    assert_eq!(server.num_games(), 2);
    assert_eq!(server.lobby(), &vec![4]);
    assert_eq!(server.game_index(0), Some(0));
    assert_eq!(server.game_index(1), Some(0));
    assert_eq!(server.game_index(2), Some(1));
    assert_eq!(server.game_index(3), Some(1));
    assert_eq!(server.game_index(4), None);
    assert_eq!(server.game(1).unwrap().get_player_ids(), vec![2, 3]);
    assert_eq!(server.take_messages(2), vec![start(Mark::Cross, true)]);
    assert_eq!(server.take_messages(3), vec![start(Mark::Nought, false)]);
    assert_eq!(server.take_messages(4), vec![]);
}

#[test]
fn moves_are_relayed_until_cross_completes_the_top_row() {
    let mut server = Server::new();
    let a = server.connect_with_first(0).unwrap();
    let b = server.connect_with_first(0).unwrap();
    assert_eq!(server.take_messages(a), vec![start(Mark::Cross, true)]);
    assert_eq!(server.take_messages(b), vec![start(Mark::Nought, false)]);

    server.handle_receive(a, move_to(0, 0));
    assert_eq!(server.take_messages(b), vec![moved(Mark::Cross, 0, 0)]);
    assert_eq!(server.take_messages(a), vec![]);

    server.handle_receive(b, move_to(1, 1));
    assert_eq!(server.take_messages(a), vec![moved(Mark::Nought, 1, 1)]);
    assert_eq!(server.take_messages(b), vec![]);

    server.handle_receive(a, move_to(1, 0));
    assert_eq!(server.take_messages(b), vec![moved(Mark::Cross, 1, 0)]);
    server.handle_receive(b, move_to(2, 2));
    assert_eq!(server.take_messages(a), vec![moved(Mark::Nought, 2, 2)]);

    server.handle_receive(a, move_to(2, 0));
    assert_eq!(server.take_messages(a), vec![over(true, false)]);
    assert_eq!(server.take_messages(b), vec![over(false, false)]);
    assert_eq!(state_of(&server, 0), GameState::Ended(GameResult::CrossWon));
}

#[test]
fn a_win_of_nought_is_told_to_both() {
    let mut server = paired(1);
    server.handle_receive(1, move_to(0, 0));
    server.handle_receive(0, move_to(1, 0));
    server.handle_receive(1, move_to(0, 1));
    server.handle_receive(0, move_to(1, 1));
    server.take_messages(0);
    server.take_messages(1);
    server.handle_receive(1, move_to(0, 2));
    assert_eq!(server.take_messages(0), vec![over(false, false)]);
    assert_eq!(server.take_messages(1), vec![over(true, false)]);
    assert_eq!(state_of(&server, 0), GameState::Ended(GameResult::NoughtWon));
}

#[test]
fn a_draw_is_told_to_both() {
    let mut server = paired(0);
    let moves = [(0, 0), (1, 0), (2, 0), (1, 1), (0, 1), (2, 1), (1, 2), (0, 2)];
    let mut mover = 0u64;
    for (x, y) in moves {
        server.handle_receive(mover, move_to(x, y));
        mover = 1 - mover;
    }
    server.take_messages(0);
    server.take_messages(1);
    assert_eq!(state_of(&server, 0), GameState::InProgress);
    server.handle_receive(0, move_to(2, 2));
    assert_eq!(server.take_messages(0), vec![over(false, true)]);
    assert_eq!(server.take_messages(1), vec![over(false, true)]);
    assert_eq!(state_of(&server, 0), GameState::Ended(GameResult::Draw));
}

#[test]
fn a_move_of_someone_alone_in_the_lobby_is_dropped() {
    let mut server = Server::new();
    let a = server.connect_with_first(0).unwrap();
    server.handle_receive(a, move_to(0, 0));
    assert_eq!(server.take_messages(a), vec![]);
    assert_eq!(server.lobby(), &vec![a]);
    assert_eq!(server.num_games(), 0);
    assert!(server.is_connected(a));
}

#[test]
fn a_move_of_an_unknown_identity_is_dropped() {
    let mut server = paired(0);
    server.handle_receive(17, move_to(0, 0));
    assert_eq!(server.take_messages(0), vec![]);
    assert_eq!(server.take_messages(1), vec![]);
    assert!(server.game(0).unwrap().can_move(&Square::new(0, 0), 0));
}

#[test]
fn a_move_out_of_turn_is_dropped() {
    let mut server = paired(0);
    server.handle_receive(1, move_to(0, 0));
    assert_eq!(server.take_messages(0), vec![]);
    assert_eq!(server.take_messages(1), vec![]);
    assert_eq!(server.game(0).unwrap().get_curr_player().id(), 0);
    assert_eq!(server.game(0).unwrap().board().get_pos_coords(0, 0), Some(Mark::Empty));
}

#[test]
fn a_move_to_a_taken_cell_is_dropped() {
    let mut server = paired(0);
    server.handle_receive(0, move_to(1, 1));
    server.take_messages(1);
    server.handle_receive(1, move_to(1, 1));
    assert_eq!(server.take_messages(0), vec![]);
    assert_eq!(server.take_messages(1), vec![]);
    assert_eq!(server.game(0).unwrap().get_curr_player().id(), 1);
    assert_eq!(server.game(0).unwrap().board().get_pos_coords(1, 1), Some(Mark::Cross));
}

#[test]
fn a_move_off_the_board_is_dropped() {
    let mut server = paired(0);
    server.handle_receive(0, move_to(3, 0));
    server.handle_receive(0, move_to(0, 3));
    server.handle_receive(0, move_to(usize::MAX, usize::MAX));
    assert_eq!(server.take_messages(0), vec![]);
    assert_eq!(server.take_messages(1), vec![]);
    assert_eq!(server.game(0).unwrap().get_curr_player().id(), 0);
}

#[test]
fn a_move_after_the_end_of_the_game_is_dropped() {
    let mut server = paired(0);
    for (mover, (x, y)) in [(0, (0, 0)), (1, (0, 1)), (0, (1, 0)), (1, (1, 1)), (0, (2, 0))] {
        server.handle_receive(mover, move_to(x, y));
    }
    server.take_messages(0);
    server.take_messages(1);
    server.handle_receive(1, move_to(2, 2));
    server.handle_receive(0, move_to(2, 2));
    assert_eq!(server.take_messages(0), vec![]);
    assert_eq!(server.take_messages(1), vec![]);
    assert_eq!(state_of(&server, 0), GameState::Ended(GameResult::CrossWon));
}

#[test]
fn moves_stay_within_their_game() {
    let mut server = Server::new();
    for _ in 0..4 {
        server.connect_with_first(1);
    }
    for id in 0..4 {
        server.take_messages(id);
    }
    server.handle_receive(3, move_to(2, 2));
    assert_eq!(server.take_messages(2), vec![moved(Mark::Nought, 2, 2)]);
    for id in [0, 1, 3] {
        assert_eq!(server.take_messages(id), vec![]);
    }
    assert_eq!(server.game(0).unwrap().board().get_pos_coords(2, 2), Some(Mark::Empty));
    assert_eq!(server.game(1).unwrap().board().get_pos_coords(2, 2), Some(Mark::Nought));
}

#[test]
fn disconnect_in_a_game_tells_the_other_player_once() {
    let mut server = Server::new();
    for _ in 0..5 {
        server.connect_with_first(0);
    }
    for id in 0..5 {
        server.take_messages(id);
    }
    server.handle_receive(2, move_to(0, 0));
    server.take_messages(3);

    server.disconnect(2);
    assert_eq!(server.take_messages(3), vec![SendMessage::PlayerLeft]);
    for id in [0, 1, 2, 4] {
        assert_eq!(server.take_messages(id), vec![]);
    }
    assert_eq!(state_of(&server, 1), GameState::Ended(GameResult::Abandoned));
    assert_eq!(state_of(&server, 0), GameState::InProgress);
    assert!(!server.is_connected(2));
    assert!(server.is_connected(3));
    assert_eq!(server.lobby(), &vec![4]);
    assert_eq!(server.game_index(2), Some(1));
}

#[test]
fn disconnect_twice_is_the_same_as_once() {
    let mut server = paired(0);
    server.disconnect(0);
    assert_eq!(server.take_messages(1), vec![SendMessage::PlayerLeft]);
    server.disconnect(0);
    server.disconnect(0);
    assert_eq!(server.take_messages(1), vec![]);
    assert_eq!(server.take_messages(0), vec![]);
    assert_eq!(state_of(&server, 0), GameState::Ended(GameResult::Abandoned));
    assert!(server.is_connected(1));
    assert!(!server.is_connected(0));
    assert_eq!(server.num_games(), 1);
}

#[test]
fn disconnect_of_both_players_tells_only_who_is_still_there() {
    let mut server = paired(0);
    server.disconnect(1);
    assert_eq!(server.take_messages(0), vec![SendMessage::PlayerLeft]);
    server.disconnect(0);
    assert_eq!(server.take_messages(0), vec![]);
    assert_eq!(server.take_messages(1), vec![]);
    assert!(!server.is_connected(0));
    assert!(!server.is_connected(1));
    assert_eq!(state_of(&server, 0), GameState::Ended(GameResult::Abandoned));
}

#[test]
fn disconnect_after_the_game_was_won_still_tells_the_other() {
    let mut server = paired(0);
    for (mover, (x, y)) in [(0, (0, 0)), (1, (0, 1)), (0, (1, 0)), (1, (1, 1)), (0, (2, 0))] {
        server.handle_receive(mover, move_to(x, y));
    }
    server.take_messages(0);
    server.take_messages(1);
    server.disconnect(1);
    assert_eq!(server.take_messages(0), vec![SendMessage::PlayerLeft]);
    assert_eq!(state_of(&server, 0), GameState::Ended(GameResult::Abandoned));
}

#[test]
fn disconnect_in_the_lobby_tells_nobody() {
    let mut server = paired(0);
    let waiting = server.connect_with_first(0).unwrap();
    assert_eq!(server.lobby(), &vec![waiting]);
    server.disconnect(waiting);
    assert!(server.lobby().is_empty());
    assert!(!server.is_connected(waiting));
    assert_eq!(server.take_messages(0), vec![]);
    assert_eq!(server.take_messages(1), vec![]);
    assert_eq!(state_of(&server, 0), GameState::InProgress);
    // who comes next waits again, under a fresh identity
    assert_eq!(server.connect_with_first(0), Some(3));
    assert_eq!(server.lobby(), &vec![3]);
    assert_eq!(server.num_games(), 1);
}

#[test]
fn disconnect_of_an_unknown_identity_changes_nothing() {
    let mut server = paired(0);
    server.disconnect(99);
    assert_eq!(server.take_messages(0), vec![]);
    assert_eq!(server.take_messages(1), vec![]);
    assert_eq!(state_of(&server, 0), GameState::InProgress);
    assert!(server.is_connected(0));
    assert!(server.is_connected(1));
    let mut empty = Server::new();
    empty.disconnect(0);
    assert_eq!(empty.connect_with_first(0), Some(0));
}

#[test]
fn a_move_after_the_other_player_left_is_dropped() {
    let mut server = paired(0);
    server.disconnect(1);
    server.take_messages(0);
    server.handle_receive(0, move_to(0, 0));
    assert_eq!(server.take_messages(0), vec![]);
    assert_eq!(server.game(0).unwrap().board().get_pos_coords(0, 0), Some(Mark::Empty));
}

#[test]
fn send_one_appends_in_order() {
    let mut server = paired(0);
    server.send_one(0, over(true, false));
    server.send_one(0, SendMessage::PlayerLeft);
    server.send_one(0, moved(Mark::Nought, 2, 1));
    assert_eq!(
        server.take_messages(0),
        vec![over(true, false), SendMessage::PlayerLeft, moved(Mark::Nought, 2, 1)]
    );
    assert_eq!(server.take_messages(1), vec![]);
}

#[test]
fn send_one_to_someone_not_connected_is_dropped() {
    let mut server = paired(0);
    server.send_one(5, SendMessage::PlayerLeft);
    assert!(!server.is_connected(5));
    assert_eq!(server.take_messages(5), vec![]);
    server.disconnect(1);
    server.send_one(1, SendMessage::PlayerLeft);
    assert_eq!(server.take_messages(1), vec![]);
    assert!(!server.is_connected(1));
}

#[test]
fn send_all_reaches_the_players_of_one_game() {
    let mut server = Server::new();
    for _ in 0..5 {
        server.connect_with_first(0);
    }
    for id in 0..5 {
        server.take_messages(id);
    }
    server.send_all(over(false, true), Some(1));
    assert_eq!(server.take_messages(2), vec![over(false, true)]);
    assert_eq!(server.take_messages(3), vec![over(false, true)]);
    for id in [0, 1, 4] {
        assert_eq!(server.take_messages(id), vec![]);
    }
}

#[test]
fn send_all_without_a_game_reaches_everyone_connected() {
    let mut server = Server::new();
    for _ in 0..5 {
        server.connect_with_first(0);
    }
    server.disconnect(1);
    for id in 0..5 {
        server.take_messages(id);
    }
    server.send_all(SendMessage::PlayerLeft, None);
    for id in [0, 2, 3, 4] {
        assert_eq!(server.take_messages(id), vec![SendMessage::PlayerLeft]);
    }
    assert_eq!(server.take_messages(1), vec![]);
    assert!(!server.is_connected(1));
}

#[test]
fn send_all_but_one_skips_the_one() {
    let mut server = Server::new();
    for _ in 0..5 {
        server.connect_with_first(0);
    }
    for id in 0..5 {
        server.take_messages(id);
    }
    server.send_all_but_one(over(true, false), 2, Some(1));
    assert_eq!(server.take_messages(3), vec![over(true, false)]);
    for id in [0, 1, 2, 4] {
        assert_eq!(server.take_messages(id), vec![]);
    }
    // an outsider left out: both players are told
    server.send_all_but_one(over(true, false), 0, Some(1));
    assert_eq!(server.take_messages(2), vec![over(true, false)]);
    assert_eq!(server.take_messages(3), vec![over(true, false)]);
    assert_eq!(server.take_messages(0), vec![]);
}

#[test]
fn send_all_but_one_without_a_game_skips_the_one() {
    let mut server = Server::new();
    for _ in 0..5 {
        server.connect_with_first(0);
    }
    for id in 0..5 {
        server.take_messages(id);
    }
    server.send_all_but_one(SendMessage::PlayerLeft, 3, None);
    for id in [0, 1, 2, 4] {
        assert_eq!(server.take_messages(id), vec![SendMessage::PlayerLeft]);
    }
    assert_eq!(server.take_messages(3), vec![]);
}

#[test]
fn take_messages_empties_the_outbox_and_keeps_the_connection() {
    let mut server = Server::new();
    server.connect_with_first(0);
    server.connect_with_first(0);
    assert_eq!(server.take_messages(0), vec![start(Mark::Cross, true)]);
    assert_eq!(server.take_messages(0), vec![]);
    assert!(server.is_connected(0));
    server.send_one(0, SendMessage::PlayerLeft);
    assert_eq!(server.take_messages(0), vec![SendMessage::PlayerLeft]);
    assert_eq!(server.take_messages(1), vec![start(Mark::Nought, false)]);
}

#[test]
fn a_request_event_is_handled_and_the_loop_goes_on() {
    let mut server = paired(0);
    let action = server.handle_event(0, ClientEvent::Request(move_to(2, 1)));
    assert_eq!(action, ClientAction::Continue);
    assert_eq!(server.take_messages(1), vec![moved(Mark::Cross, 2, 1)]);
    assert_eq!(server.take_messages(0), vec![]);
}

#[test]
fn the_end_of_the_connection_disconnects_and_stops_the_loop() {
    for event in [ClientEvent::ConnectionClosed, ClientEvent::AlreadyClosed, ClientEvent::IoError] {
        let mut server = paired(0);
        let action = server.handle_event(1, event);
        assert_eq!(action, ClientAction::Stop);
        assert!(!server.is_connected(1));
        assert_eq!(server.take_messages(0), vec![SendMessage::PlayerLeft]);
        assert_eq!(state_of(&server, 0), GameState::Ended(GameResult::Abandoned));
        // reported once more, it changes nothing more
        let action = server.handle_event(1, event);
        assert_eq!(action, ClientAction::Stop);
        assert_eq!(server.take_messages(0), vec![]);
        assert!(server.is_connected(0));
    }
}

#[test]
fn events_that_are_no_end_and_no_request_change_nothing() {
    for event in [ClientEvent::Malformed, ClientEvent::WouldBlock, ClientEvent::OtherError] {
        let mut server = paired(0);
        assert_eq!(server.handle_event(0, event), ClientAction::Continue);
        assert_eq!(server.handle_event(1, event), ClientAction::Continue);
        assert_eq!(server.handle_event(7, event), ClientAction::Continue);
        assert_eq!(server.take_messages(0), vec![]);
        assert_eq!(server.take_messages(1), vec![]);
        assert!(server.is_connected(0));
        assert!(server.is_connected(1));
        assert_eq!(state_of(&server, 0), GameState::InProgress);
        assert!(server.game(0).unwrap().can_move(&Square::new(0, 0), 0));
    }
}

#[test]
fn an_illegal_request_event_changes_nothing_and_the_loop_goes_on() {
    let mut server = paired(0);
    let action = server.handle_event(1, ClientEvent::Request(move_to(0, 0)));
    assert_eq!(action, ClientAction::Continue);
    assert_eq!(server.take_messages(0), vec![]);
    assert_eq!(server.take_messages(1), vec![]);
    assert!(server.is_connected(1));
}

#[test]
fn who_is_connected_waits_or_plays_never_both() {
    let mut server = Server::new();
    for _ in 0..7 {
        server.connect_with_first(1);
    }
    server.disconnect(3);
    server.disconnect(6);
    server.handle_receive(1, move_to(1, 1));
    for id in 0..8u64 {
        let waits = server.lobby().contains(&id);
        let plays = server.game_index(id).is_some();
        if server.is_connected(id) {
            assert_ne!(waits, plays, "identity {}", id);
        } else {
            assert!(!waits, "identity {}", id);
        }
    }
    assert!(server.lobby().is_empty());
    assert!(!server.is_connected(7));
}

#[test]
fn identities_are_handed_out_once() {
    let mut server = Server::new();
    assert_eq!(server.connect_with_first(0), Some(0));
    server.disconnect(0);
    assert_eq!(server.connect_with_first(0), Some(1));
    assert_eq!(server.connect_with_first(0), Some(2));
    server.disconnect(1);
    server.disconnect(2);
    assert_eq!(server.connect_with_first(0), Some(3));
    assert_eq!(server.lobby(), &vec![3]);
    assert_eq!(server.game(0).unwrap().get_player_ids(), vec![1, 2]);
    assert_eq!(server.num_games(), 1);
}

#[test]
fn games_keep_their_index_players_and_marks() {
    let mut server = Server::new();
    for _ in 0..4 {
        server.connect_with_first(0);
    }
    server.handle_receive(0, move_to(1, 1));
    server.handle_receive(2, move_to(0, 2));
    server.disconnect(1);
    for _ in 0..3 {
        server.connect_with_first(1);
    }
    server.handle_receive(3, move_to(2, 2));
    server.disconnect(0);
    assert_eq!(server.num_games(), 3);
    assert_eq!(server.game(0).unwrap().get_player_ids(), vec![0, 1]);
    assert_eq!(server.game(1).unwrap().get_player_ids(), vec![2, 3]);
    assert_eq!(server.game(2).unwrap().get_player_ids(), vec![4, 5]);
    for (id, index) in [(0, 0), (1, 0), (2, 1), (3, 1), (4, 2), (5, 2)] {
        assert_eq!(server.game_index(id), Some(index));
    }
    assert_eq!(server.game_index(6), None);
    assert_eq!(server.game(0).unwrap().board().get_pos_coords(1, 1), Some(Mark::Cross));
    assert_eq!(server.game(1).unwrap().board().get_pos_coords(0, 2), Some(Mark::Cross));
    assert_eq!(server.game(1).unwrap().board().get_pos_coords(2, 2), Some(Mark::Nought));
    assert_eq!(state_of(&server, 0), GameState::Ended(GameResult::Abandoned));
    assert_eq!(state_of(&server, 1), GameState::InProgress);
    assert_eq!(state_of(&server, 2), GameState::InProgress);
}

#[test]
fn a_move_that_ends_the_game_is_not_relayed_as_a_move() {
    // a win: the board takes the move, and each player gets one message, the result
    let mut server = paired(0);
    for (mover, (x, y)) in [(0, (0, 0)), (1, (0, 1)), (0, (1, 0)), (1, (1, 1))] {
        server.handle_receive(mover, move_to(x, y));
    }
    assert_eq!(server.take_messages(0).len(), 2);
    assert_eq!(server.take_messages(1).len(), 2);
    server.handle_receive(0, move_to(2, 0));
    assert_eq!(server.game(0).unwrap().board().get_pos_coords(2, 0), Some(Mark::Cross));
    let to_winner = server.take_messages(0);
    let to_loser = server.take_messages(1);
    assert_eq!(to_winner, vec![over(true, false)]);
    assert_eq!(to_loser, vec![over(false, false)]);
    assert!(!to_loser.iter().any(|message| matches!(message, SendMessage::Move { .. })));
}

#[test]
fn a_move_that_does_not_end_the_game_is_relayed_to_the_other_player_only() {
    let mut server = paired(1);
    server.handle_receive(1, move_to(1, 2));
    assert_eq!(server.take_messages(0), vec![moved(Mark::Nought, 1, 2)]);
    assert_eq!(server.take_messages(1), vec![]);
    assert_eq!(state_of(&server, 0), GameState::InProgress);
}
