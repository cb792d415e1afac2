//! The engine: minimax classification of a position under perfect play, and
//! the move selection for player O.

use vstd::prelude::*;

use crate::board::{
    Board, Marker, Player, count_of, lemma_count_upto_props, lemma_count_upto_update,
    line_won, marker_of, opponent,
};

verus! {

/// The outcome of a position under perfect play from both sides.
#[derive(Clone, Copy, Debug, PartialEq, Eq, Structural)]
pub enum GameResult {
    XWins,
    OWins,
    Draw,
}

/// Why the engine could not move.
#[derive(Clone, Copy, Debug, PartialEq, Eq, Structural)]
pub enum PlayError {
    /// The board has no empty cell left to place a marker on.
    BoardFull,
}

/// The outcome that counts as a win for `p`.
pub open spec fn win_of(p: Player) -> GameResult {
    match p {
        Player::X => GameResult::XWins,
        Player::O => GameResult::OWins,
    }
}

/// The classification of `b` under perfect play with `next` to move: X wins
/// if an X triple is already on the board (checked first, so a board with
/// both triples counts as an X win), then O likewise; a full board with no
/// triple is a draw; otherwise the mover wins if some move of theirs leads
/// to a position they win, draws if some move leads to a draw, and loses
/// when every move loses.
pub open spec fn minimax_spec(b: Seq<Marker>, next: Player) -> GameResult
    decreases count_of(b, Marker::Empty), 10int,
{
    if line_won(b, Marker::X) {
        GameResult::XWins
    } else if line_won(b, Marker::O) {
        GameResult::OWins
    } else if count_of(b, Marker::Empty) == 0 {
        GameResult::Draw
    } else {
        fold_children(b, next, 0)
    }
}

/// The fold over the children of `b` with indices at or above `i`: a win
/// for `next` if some child is, else a draw if some child is, else a win
/// for the opponent.
pub open spec fn fold_children(b: Seq<Marker>, next: Player, i: int) -> GameResult
    decreases count_of(b, Marker::Empty), 9 - i,
    via check_fold_children_decreases
{
    if b.len() != 9 || i < 0 || i >= 9 {
        win_of(opponent(next))
    } else if b[i] == Marker::Empty {
        let child_result = minimax_spec(b.update(i, marker_of(next)), opponent(next));
        let rest = fold_children(b, next, i + 1);
        if child_result == win_of(next) || rest == win_of(next) {
            win_of(next)
        } else if child_result == GameResult::Draw || rest == GameResult::Draw {
            GameResult::Draw
        } else {
            win_of(opponent(next))
        }
    } else {
        fold_children(b, next, i + 1)
    }
}

#[via_fn]
proof fn check_fold_children_decreases(b: Seq<Marker>, next: Player, i: int) {
    if b.len() == 9 && 0 <= i < 9 && b[i] == Marker::Empty {
        lemma_count_upto_update(b, Marker::Empty, i, marker_of(next), 9);
    }
}

/// Placing `next`'s marker on the empty cell `j` of `b` gives a position
/// classified as `r` with the opponent to move.
pub open spec fn move_gives(b: Seq<Marker>, next: Player, j: int, r: GameResult) -> bool {
    0 <= j < 9 && b[j] == Marker::Empty && minimax_spec(b.update(j, marker_of(next)), opponent(next))
        == r
}

/// What the fold over the children at or above `i` yields, in terms of the
/// moves it folds over.
proof fn lemma_fold_characterization(b: Seq<Marker>, next: Player, i: int)
    requires
        b.len() == 9,
        0 <= i <= 9,
    ensures
        fold_children(b, next, i) == win_of(next) <==> (exists|j: int|
            i <= j && #[trigger] move_gives(b, next, j, win_of(next))),
        fold_children(b, next, i) == GameResult::Draw <==> ((forall|j: int|
            i <= j ==> !#[trigger] move_gives(b, next, j, win_of(next))) && (exists|j: int|
            i <= j && #[trigger] move_gives(b, next, j, GameResult::Draw))),
        fold_children(b, next, i) == win_of(next) || fold_children(b, next, i) == GameResult::Draw
            || fold_children(b, next, i) == win_of(opponent(next)),
    decreases 9 - i,
{
    if i < 9 {
        lemma_fold_characterization(b, next, i + 1);
        if b[i] == Marker::Empty {
            let child_result = minimax_spec(b.update(i, marker_of(next)), opponent(next));
            if child_result == win_of(next) || child_result == GameResult::Draw {
                assert(move_gives(b, next, i, child_result));
            }
        }
    }
}

impl Board {
    /// The classification of this board under perfect play, with `next` to
    /// move: an existing X triple counts as an X win before an O triple is
    /// even looked at, a full board with no triple is a draw, and otherwise
    /// the children decide as the minimax rule says.
    pub fn minimax(&self, next: Player) -> (r: GameResult)
        ensures
            r == minimax_spec(self@, next),
        decreases count_of(self@, Marker::Empty),
    {
        if self.has_triple(Player::X) {
            return GameResult::XWins;
        }
        if self.has_triple(Player::O) {
            return GameResult::OWins;
        }
        let winning = match next {
            Player::X => GameResult::XWins,
            Player::O => GameResult::OWins,
        };
        let mut any_child = false;
        let mut any_draw = false;
        let mut i: usize = 0;
        while i < 9
            invariant
                i <= 9,
                self@.len() == 9,
                !line_won(self@, Marker::X),
                !line_won(self@, Marker::O),
                winning == win_of(next),
                any_child <==> (exists|j: int| 0 <= j < i && self@[j] == Marker::Empty),
                forall|j: int| j < i ==> !#[trigger] move_gives(self@, next, j, win_of(next)),
                any_draw <==> (exists|j: int|
                    j < i && #[trigger] move_gives(self@, next, j, GameResult::Draw)),
            decreases 9 - i,
        {
            if self.markers[i] == Marker::Empty {
                any_child = true;
                let child = self.place(i, next);
                proof {
                    lemma_count_upto_update(self@, Marker::Empty, i as int, marker_of(next), 9);
                }
                let child_result = child.minimax(next.other());
                if child_result == winning {
                    proof {
                        lemma_fold_characterization(self@, next, 0);
                        lemma_count_upto_props(self@, Marker::Empty, 9);
                        assert(move_gives(self@, next, i as int, win_of(next)));
                    }
                    return winning;
                }
                if child_result == GameResult::Draw {
                    any_draw = true;
                    proof {
                        assert(move_gives(self@, next, i as int, GameResult::Draw));
                    }
                }
            }
            i += 1;
        }
        proof {
            lemma_count_upto_props(self@, Marker::Empty, 9);
        }
        if !any_child {
            return GameResult::Draw;
        }
        proof {
            lemma_fold_characterization(self@, next, 0);
        }
        if any_draw {
            GameResult::Draw
        } else {
            match next {
                Player::X => GameResult::OWins,
                Player::O => GameResult::XWins,
            }
        }
    }
}

/// The lowest index at or above `i` whose move by O yields a position
/// classified as `r`, or 9 when there is none.
pub open spec fn first_move_with(b: Seq<Marker>, r: GameResult, i: int) -> int
    decreases 9 - i,
{
    if i < 0 || i >= 9 {
        9
    } else if move_gives(b, Player::O, i, r) {
        i
    } else {
        first_move_with(b, r, i + 1)
    }
}

/// The lowest empty index of `b` at or above `i`, or 9 when there is none.
pub open spec fn first_empty_from(b: Seq<Marker>, i: int) -> int
    decreases 9 - i,
{
    if i < 0 || i >= 9 {
        9
    } else if b[i] == Marker::Empty {
        i
    } else {
        first_empty_from(b, i + 1)
    }
}

proof fn lemma_first_move_with(b: Seq<Marker>, r: GameResult, i: int)
    requires
        0 <= i <= 9,
    ensures
        i <= first_move_with(b, r, i) <= 9,
        first_move_with(b, r, i) < 9 ==> move_gives(b, Player::O, first_move_with(b, r, i), r),
        forall|j: int| i <= j < first_move_with(b, r, i) ==> !#[trigger] move_gives(b, Player::O, j, r),
    decreases 9 - i,
{
    if i < 9 {
        lemma_first_move_with(b, r, i + 1);
    }
}

proof fn lemma_first_empty_from(b: Seq<Marker>, i: int)
    requires
        0 <= i <= 9,
    ensures
        i <= first_empty_from(b, i) <= 9,
        first_empty_from(b, i) < 9 ==> b[first_empty_from(b, i)] == Marker::Empty,
        forall|j: int| i <= j < first_empty_from(b, i) ==> b[j] != Marker::Empty,
    decreases 9 - i,
{
    if i < 9 {
        lemma_first_empty_from(b, i + 1);
    }
}

/// The board the engine answers `b` with, O to move: the first move whose
/// position minimaxes to an O win; failing that, the first whose position
/// minimaxes to a draw; failing that, the first possible move, accepting
/// the loss. A full board admits no move.
pub open spec fn play_spec(b: Seq<Marker>) -> Result<Seq<Marker>, PlayError> {
    if count_of(b, Marker::Empty) == 0 {
        Err(PlayError::BoardFull)
    } else {
        let iw = first_move_with(b, GameResult::OWins, 0);
        let id = first_move_with(b, GameResult::Draw, 0);
        if iw < 9 {
            Ok(b.update(iw, Marker::O))
        } else if id < 9 {
            Ok(b.update(id, Marker::O))
        } else {
            Ok(b.update(first_empty_from(b, 0), Marker::O))
        }
    }
}

/// Plays the board by one move from O's perspective. O is the first player.
///
/// Fails exactly when the board is full; otherwise answers with the board
/// after O's move, chosen as `play_spec` says: the first child (in index
/// order) classified as an O win, else the first classified as a draw, else
/// the first child there is.
pub fn play(board: Board) -> (r: Result<Board, PlayError>)
    ensures
        r matches Ok(nb) ==> play_spec(board@) == Ok::<Seq<Marker>, PlayError>(nb@),
        r matches Err(e) ==> play_spec(board@) == Err::<Seq<Marker>, PlayError>(e),
        r is Err <==> count_of(board@, Marker::Empty) == 0,
{
    let b = board;
    let mut first_win: Option<usize> = None;
    let mut first_draw: Option<usize> = None;
    let mut first_any: Option<usize> = None;
    let mut i: usize = 0;
    while i < 9
        invariant
            i <= 9,
            b@.len() == 9,
            match first_win {
                Some(k) => k < i && move_gives(b@, Player::O, k as int, GameResult::OWins) && (
                forall|j: int|
                    0 <= j < k ==> !#[trigger] move_gives(b@, Player::O, j, GameResult::OWins)),
                None => forall|j: int|
                    j < i ==> !#[trigger] move_gives(b@, Player::O, j, GameResult::OWins),
            },
            match first_draw {
                Some(k) => k < i && move_gives(b@, Player::O, k as int, GameResult::Draw) && (
                forall|j: int|
                    0 <= j < k ==> !#[trigger] move_gives(b@, Player::O, j, GameResult::Draw)),
                None => forall|j: int|
                    j < i ==> !#[trigger] move_gives(b@, Player::O, j, GameResult::Draw),
            },
            match first_any {
                Some(k) => k < i && b@[k as int] == Marker::Empty && (forall|j: int|
                    0 <= j < k ==> b@[j] != Marker::Empty),
                None => forall|j: int| 0 <= j < i ==> b@[j] != Marker::Empty,
            },
        decreases 9 - i,
    {
        if b.markers[i] == Marker::Empty {
            if first_any.is_none() {
                first_any = Some(i);
            }
            let child = b.place(i, Player::O);
            let child_result = child.minimax(Player::X);
            if child_result == GameResult::OWins && first_win.is_none() {
                first_win = Some(i);
            }
            if child_result == GameResult::Draw && first_draw.is_none() {
                first_draw = Some(i);
            }
        }
        i += 1;
    }
    proof {
        lemma_count_upto_props(b@, Marker::Empty, 9);
        lemma_first_move_with(b@, GameResult::OWins, 0);
        lemma_first_move_with(b@, GameResult::Draw, 0);
        lemma_first_empty_from(b@, 0);
    }
    match first_win {
        Some(k) => Ok(b.place(k, Player::O)),
        None => match first_draw {
            Some(k) => Ok(b.place(k, Player::O)),
            None => match first_any {
                Some(k) => Ok(b.place(k, Player::O)),
                None => Err(PlayError::BoardFull),
            },
        },
    }
}

/// The minimax rule, written over moves: in a position that no one has won
/// yet and that still has an empty cell, the mover wins exactly when some
/// move of theirs wins, draws exactly when no move wins but some move
/// draws, and loses otherwise.
pub proof fn lemma_minimax_characterization(b: Seq<Marker>, next: Player)
    requires
        b.len() == 9,
        !line_won(b, Marker::X),
        !line_won(b, Marker::O),
        count_of(b, Marker::Empty) > 0,
    ensures
        minimax_spec(b, next) == win_of(next) <==> (exists|j: int|
            #[trigger] move_gives(b, next, j, win_of(next))),
        minimax_spec(b, next) == GameResult::Draw <==> ((forall|j: int|
            !#[trigger] move_gives(b, next, j, win_of(next))) && (exists|j: int|
            #[trigger] move_gives(b, next, j, GameResult::Draw))),
        minimax_spec(b, next) == win_of(next) || minimax_spec(b, next) == GameResult::Draw
            || minimax_spec(b, next) == win_of(opponent(next)),
{
    lemma_fold_characterization(b, next, 0);
}

/// The engine plays the best guaranteed outcome: whenever some move of O
/// wins, the answered board is a won position for O, and whenever no move
/// wins but some move draws, the answered board is a drawn position.
pub proof fn lemma_play_optimal(b: Seq<Marker>)
    requires
        b.len() == 9,
        count_of(b, Marker::Empty) > 0,
    ensures
        (exists|j: int| #[trigger] move_gives(b, Player::O, j, GameResult::OWins)) ==> (play_spec(b)
            matches Ok(nb) && minimax_spec(nb, Player::X) == GameResult::OWins),
        ((forall|j: int| !#[trigger] move_gives(b, Player::O, j, GameResult::OWins)) && (exists|
            j: int,
        | #[trigger] move_gives(b, Player::O, j, GameResult::Draw))) ==> (play_spec(b) matches Ok(nb)
            && minimax_spec(nb, Player::X) == GameResult::Draw),
{
    lemma_first_move_with(b, GameResult::OWins, 0);
    lemma_first_move_with(b, GameResult::Draw, 0);
}

} // verus!
