use tictactoe::board::{Board, Marker, ParseError, Player};

use Marker::{Empty, O, X};

#[test]
fn parse_example() {
    let board = Board::parse("+xxo++o++");
    assert_eq!(
        board,
        Ok(Board {
            markers: [Empty, X, X, O, Empty, Empty, O, Empty, Empty],
        })
    );
}

#[test]
fn parse_empty_board() {
    let board = Board::parse("+++++++++");
    assert_eq!(
        board,
        Ok(Board {
            markers: [Empty, Empty, Empty, Empty, Empty, Empty, Empty, Empty, Empty],
        })
    );
}

#[test]
fn main_parse_example() {
    let board = Board::parse("+xxo++o++");
    assert_eq!(
        board,
        Ok(Board {
            markers: [Empty, X, X, O, Empty, Empty, O, Empty, Empty],
        })
    );
}

#[test]
fn main_parse_empty_board() {
    let board = Board::parse("+++++++++");
    assert_eq!(
        board,
        Ok(Board {
            markers: [Empty, Empty, Empty, Empty, Empty, Empty, Empty, Empty, Empty],
        })
    );
}

#[test]
fn parse_accepts_spaces_for_empty() {
    assert_eq!(Board::parse(" xxo  o  "), Board::parse("+xxo++o++"));
}

#[test]
fn parse_rejects_short_string() {
    assert_eq!(Board::parse("xx"), Err(ParseError::WrongLength));
}

#[test]
fn parse_rejects_long_string() {
    assert_eq!(Board::parse("++++++++++"), Err(ParseError::WrongLength));
}

#[test]
fn parse_rejects_invalid_character() {
    assert_eq!(Board::parse("xxxxxxxxy"), Err(ParseError::InvalidChar));
}

#[test]
fn parse_rejects_unequal_counts() {
    assert_eq!(Board::parse("xxxxxxxxx"), Err(ParseError::InconsistentCounts));
    assert_eq!(Board::parse("x++++++++"), Err(ParseError::InconsistentCounts));
    assert_eq!(Board::parse("xox++++++"), Err(ParseError::InconsistentCounts));
}

#[test]
fn parse_rejects_full_board() {
    assert_eq!(Board::parse("xoxoxoxox"), Err(ParseError::InconsistentCounts));
    assert_eq!(Board::parse("ooxxxooxx"), Err(ParseError::InconsistentCounts));
}

#[test]
fn parse_accepts_equal_counts_with_empties() {
    let board = Board::parse("xo+++++++");
    assert_eq!(
        board,
        Ok(Board {
            markers: [X, O, Empty, Empty, Empty, Empty, Empty, Empty, Empty],
        })
    );
}

#[test]
fn render_round_trip() {
    let board = Board::parse("+xxo++o++").unwrap();
    assert_eq!(board.render(), " xxo  o  ");
    let again = Board::parse(&board.render()).unwrap();
    assert_eq!(again, board);
}

#[test]
fn render_uses_space_for_empty() {
    let board = Board::parse("+++++++++").unwrap();
    assert_eq!(board.render(), "         ");
}

#[test]
fn has_triple_detects_all_eight_lines() {
    let lines: [[usize; 3]; 8] = [
        [0, 1, 2],
        [3, 4, 5],
        [6, 7, 8],
        [0, 3, 6],
        [1, 4, 7],
        [2, 5, 8],
        [0, 4, 8],
        [2, 4, 6],
    ];
    for line in lines.iter() {
        let mut markers = [Empty; 9];
        for &cell in line.iter() {
            markers[cell] = X;
        }
        let board = Board { markers };
        assert!(board.has_triple(Player::X));
        assert!(!board.has_triple(Player::O));

        let mut markers = [Empty; 9];
        for &cell in line.iter() {
            markers[cell] = O;
        }
        let board = Board { markers };
        assert!(board.has_triple(Player::O));
        assert!(!board.has_triple(Player::X));
    }
}

#[test]
fn has_triple_false_without_line() {
    let board = Board::parse("xox+o+x+o").unwrap();
    assert!(!board.has_triple(Player::X));
    let board = Board::parse("xo+++++++").unwrap();
    assert!(!board.has_triple(Player::X));
    assert!(!board.has_triple(Player::O));
}

#[test]
fn children_fill_each_empty_cell_in_order() {
    let board = Board::parse("+xxo++o++").unwrap();
    let children = board.children(Player::O);
    assert_eq!(children.len(), 5);
    let expected = ["oxxo++o++", "+xxoo+o++", "+xxo+oo++", "+xxo++oo+", "+xxo++o+o"];
    for (child, text) in children.iter().zip(expected.iter()) {
        let canonical = text.replace('+', " ");
        assert_eq!(child.render(), canonical);
    }
}

#[test]
fn children_of_full_board_are_none() {
    let board = Board {
        markers: [O, O, X, X, X, O, O, O, X],
    };
    assert_eq!(board.children(Player::O).len(), 0);
    assert_eq!(board.children(Player::X).len(), 0);
}

#[test]
fn children_count_matches_empty_cells() {
    let board = Board::parse("+++++++++").unwrap();
    assert_eq!(board.children(Player::X).len(), 9);
    let board = Board::parse("xo+++++++").unwrap();
    assert_eq!(board.children(Player::O).len(), 7);
}
