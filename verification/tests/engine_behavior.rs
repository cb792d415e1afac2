use tictactoe::board::{Board, Marker, Player};
use tictactoe::engine::{play, GameResult, PlayError};

use Marker::{Empty, O, X};

#[test]
fn o_wins_example() {
    let board = Board::parse("+xxo++o++").unwrap();
    let next_board = play(board).unwrap();
    assert_eq!(
        next_board,
        Board {
            markers: [O, X, X, O, Empty, Empty, O, Empty, Empty],
        }
    );
    assert!(next_board.has_triple(Player::O));
}

#[test]
fn optimal_first_move() {
    let board = Board::parse("+++++++++").unwrap();
    let next_board = play(board).unwrap();
    assert_eq!(
        next_board,
        Board {
            markers: [O, Empty, Empty, Empty, Empty, Empty, Empty, Empty, Empty],
        }
    );
}

#[test]
fn main_o_wins_example() {
    let board = Board::parse("+xxo++o++").unwrap();
    let next_board = play(board).unwrap();
    assert_eq!(
        next_board,
        Board {
            markers: [O, X, X, O, Empty, Empty, O, Empty, Empty],
        }
    );
    assert!(next_board.has_triple(Player::O));
}

#[test]
fn main_optimal_first_move() {
    let board = Board::parse("+++++++++").unwrap();
    let next_board = play(board).unwrap();
    assert_eq!(
        next_board,
        Board {
            markers: [O, Empty, Empty, Empty, Empty, Empty, Empty, Empty, Empty],
        }
    );
}

// There are multiple perfect games. This is just verifying that the behavior
// doesn't change as I refactor.
#[test]
fn perfect_game() {
    let board = Board::parse("+++++++++").unwrap();
    let next_board = play(board).unwrap();
    assert_eq!(next_board.render(), "o        ");
    let board = Board::parse("o+++x++++").unwrap();
    let next_board = play(board).unwrap();
    assert_eq!(next_board.render(), "oo  x    ");
    let board = Board::parse("oox+x++++").unwrap();
    let next_board = play(board).unwrap();
    assert_eq!(next_board.render(), "oox x o  ");
    let board = Board::parse("ooxxx+o++").unwrap();
    let next_board = play(board).unwrap();
    assert_eq!(next_board.render(), "ooxxxoo  ");
    let board = Board::parse("ooxxx+oox").unwrap();
    let next_board = play(board).unwrap();
    assert_eq!(next_board.render(), "ooxxxooox");
}

#[test]
fn main_perfect_game() {
    let board = Board::parse("+++++++++").unwrap();
    let next_board = play(board).unwrap();
    assert_eq!(next_board.render(), "o        ");
    let board = Board::parse("o+++x++++").unwrap();
    let next_board = play(board).unwrap();
    assert_eq!(next_board.render(), "oo  x    ");
    let board = Board::parse("oox+x++++").unwrap();
    let next_board = play(board).unwrap();
    assert_eq!(next_board.render(), "oox x o  ");
    let board = Board::parse("ooxxx+o++").unwrap();
    let next_board = play(board).unwrap();
    assert_eq!(next_board.render(), "ooxxxoo  ");
    let board = Board::parse("ooxxx+oox").unwrap();
    let next_board = play(board).unwrap();
    assert_eq!(next_board.render(), "ooxxxooox");
}

#[test]
fn empty_board_is_a_draw_under_perfect_play() {
    let board = Board::parse("+++++++++").unwrap();
    assert_eq!(board.minimax(Player::O), GameResult::Draw);
}

#[test]
fn minimax_sees_immediate_triples() {
    let board = Board {
        markers: [X, X, X, O, O, Empty, Empty, Empty, Empty],
    };
    assert_eq!(board.minimax(Player::O), GameResult::XWins);
    let board = Board {
        markers: [O, O, O, X, X, Empty, Empty, Empty, Empty],
    };
    assert_eq!(board.minimax(Player::X), GameResult::OWins);
}

#[test]
fn minimax_prefers_x_on_double_triple() {
    // The parser never rejects already-won boards, and a board holding both
    // an X triple and an O triple counts as an X win: X is checked first.
    let board = Board {
        markers: [X, X, X, O, O, O, Empty, Empty, Empty],
    };
    assert_eq!(board.minimax(Player::O), GameResult::XWins);
    assert_eq!(board.minimax(Player::X), GameResult::XWins);
}

#[test]
fn full_drawn_board_is_a_draw() {
    let board = Board {
        markers: [O, O, X, X, X, O, O, O, X],
    };
    assert_eq!(board.minimax(Player::O), GameResult::Draw);
    assert_eq!(board.minimax(Player::X), GameResult::Draw);
}

#[test]
fn minimax_finds_forced_win() {
    // O to move with two winning threats already placed: O wins by playing
    // either of them.
    let board = Board::parse("oo+xx++++").unwrap();
    assert_eq!(board.minimax(Player::O), GameResult::OWins);
}

#[test]
fn play_on_full_board_fails() {
    let board = Board {
        markers: [O, O, X, X, X, O, O, O, X],
    };
    assert_eq!(play(board), Err(PlayError::BoardFull));
}

#[test]
fn play_takes_an_immediate_win() {
    let board = Board::parse("oo+xx++++").unwrap();
    let next_board = play(board).unwrap();
    assert_eq!(next_board.render(), "oooxx    ");
    assert!(next_board.has_triple(Player::O));
}

#[test]
fn play_accepts_a_forced_loss_with_the_first_move() {
    // X threatens two lines at once; whatever O does, X wins. O then takes
    // the first empty cell.
    let board = Board::parse("xxoox+o++").unwrap();
    assert_eq!(board.minimax(Player::O), GameResult::XWins);
    let next_board = play(board).unwrap();
    assert_eq!(next_board.render(), "xxooxoo  ");
}
