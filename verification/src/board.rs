//! The tic-tac-toe board: markers, players, parsing, rendering, win
//! detection and move generation.

use vstd::prelude::*;

verus! {

/// The symbol occupying one cell of the board.
#[derive(Clone, Copy, Debug, PartialEq, Eq, Structural)]
pub enum Marker {
    X,
    O,
    Empty,
}

/// An actor taking turns; distinct from `Marker` because a player is an
/// actor while a marker is a grid symbol.
#[derive(Clone, Copy, Debug, PartialEq, Eq, Structural)]
pub enum Player {
    X,
    O,
}

/// The marker a player places on the board.
pub open spec fn marker_of(p: Player) -> Marker {
    match p {
        Player::X => Marker::X,
        Player::O => Marker::O,
    }
}

/// The player moving after `p`.
pub open spec fn opponent(p: Player) -> Player {
    match p {
        Player::X => Player::O,
        Player::O => Player::X,
    }
}

impl Player {
    /// The marker this player places on the board.
    pub fn marker(self) -> (m: Marker)
        ensures
            m == marker_of(self),
    {
        match self {
            Player::X => Marker::X,
            Player::O => Marker::O,
        }
    }

    /// The player moving after this one.
    pub fn other(self) -> (q: Player)
        ensures
            q == opponent(self),
    {
        match self {
            Player::X => Player::O,
            Player::O => Player::X,
        }
    }
}

/// The tic-tac-toe board.
///
/// Markers are read across the board left-to-right, top-to-bottom:
/// ```text
/// 0 1 2
/// 3 4 5
/// 6 7 8
/// ```
#[derive(Clone, Copy, Debug)]
pub struct Board {
    pub markers: [Marker; 9],
}

impl View for Board {
    type V = Seq<Marker>;

    open spec fn view(&self) -> Seq<Marker> {
        self.markers@
    }
}

impl PartialEq for Board {
    fn eq(&self, other: &Board) -> (r: bool) {
        let mut i: usize = 0;
        while i < 9
            invariant
                i <= 9,
                forall|j: int| 0 <= j < i ==> self.markers@[j] == other.markers@[j],
            decreases 9 - i,
        {
            if self.markers[i] != other.markers[i] {
                assert(self@ !~= other@);
                return false;
            }
            i += 1;
        }
        assert(self@ =~= other@);
        true
    }
}

impl Eq for Board {

}

impl vstd::std_specs::cmp::PartialEqSpecImpl for Board {
    open spec fn obeys_eq_spec() -> bool {
        true
    }

    open spec fn eq_spec(&self, other: &Board) -> bool {
        self@ == other@
    }
}

/// The number of occurrences of `v` among the first `i` elements of `s`.
pub open spec fn count_upto<T>(s: Seq<T>, v: T, i: int) -> nat
    decreases i,
{
    if i <= 0 {
        0
    } else {
        count_upto(s, v, i - 1) + if s[i - 1] == v {
            1nat
        } else {
            0nat
        }
    }
}

/// The number of occurrences of `v` in all of `s`.
pub open spec fn count_of<T>(s: Seq<T>, v: T) -> nat {
    count_upto(s, v, s.len() as int)
}

/// A prefix count is bounded by the prefix length, and it is zero exactly
/// when the value does not occur in the prefix.
pub proof fn lemma_count_upto_props<T>(s: Seq<T>, v: T, i: int)
    requires
        0 <= i,
    ensures
        count_upto(s, v, i) <= i,
        count_upto(s, v, i) == 0 <==> (forall|j: int| 0 <= j < i ==> s[j] != v),
    decreases i,
{
    if i > 0 {
        lemma_count_upto_props(s, v, i - 1);
    }
}

/// Prefix counts never shrink as the prefix grows, and they grow strictly
/// past any position holding the counted value.
pub proof fn lemma_count_upto_mono<T>(s: Seq<T>, v: T, i1: int, i2: int)
    requires
        0 <= i1 <= i2,
    ensures
        count_upto(s, v, i1) <= count_upto(s, v, i2),
        i1 < i2 && s[i1] == v ==> count_upto(s, v, i1) < count_upto(s, v, i2),
    decreases i2 - i1,
{
    if i1 < i2 {
        lemma_count_upto_mono(s, v, i1 + 1, i2);
    }
}

/// How replacing one element changes a prefix count.
pub proof fn lemma_count_upto_update<T>(s: Seq<T>, v: T, k: int, w: T, i: int)
    requires
        0 <= k < s.len(),
        0 <= i <= s.len(),
    ensures
        count_upto(s.update(k, w), v, i) as int == count_upto(s, v, i) as int + (if k < i && w
            == v {
            1int
        } else {
            0int
        }) - (if k < i && s[k] == v {
            1int
        } else {
            0int
        }),
    decreases i,
{
    if i > 0 {
        lemma_count_upto_update(s, v, k, w, i - 1);
    }
}

/// The cell index at position `j` of winning line `k`: lines 0 to 2 are the
/// rows, 3 to 5 the columns, 6 and 7 the diagonals.
pub open spec fn line_cell(k: int, j: int) -> int {
    if k == 0 {
        j
    } else if k == 1 {
        3 + j
    } else if k == 2 {
        6 + j
    } else if k == 3 {
        3 * j
    } else if k == 4 {
        1 + 3 * j
    } else if k == 5 {
        2 + 3 * j
    } else if k == 6 {
        4 * j
    } else {
        2 + 2 * j
    }
}

/// Winning line `k` is filled with marker `m`.
pub open spec fn triple_at(b: Seq<Marker>, k: int, m: Marker) -> bool {
    b[line_cell(k, 0)] == m && b[line_cell(k, 1)] == m && b[line_cell(k, 2)] == m
}

/// Some winning line is filled with marker `m`.
pub open spec fn line_won(b: Seq<Marker>, m: Marker) -> bool {
    exists|k: int| 0 <= k < 8 && #[trigger] triple_at(b, k, m)
}

impl Board {
    /// Whether `player` has three of its markers on one of the 8 winning
    /// lines (3 rows, 3 columns, 2 diagonals).
    pub fn has_triple(&self, player: Player) -> (r: bool)
        ensures
            r == line_won(self@, marker_of(player)),
    {
        let m = player.marker();
        let g = self.markers;
        let r = (g[0] == m && g[1] == m && g[2] == m) || (g[3] == m && g[4] == m && g[5] == m) || (
        g[6] == m && g[7] == m && g[8] == m) || (g[0] == m && g[3] == m && g[6] == m) || (g[1] == m
            && g[4] == m && g[7] == m) || (g[2] == m && g[5] == m && g[8] == m) || (g[0] == m && g[4]
            == m && g[8] == m) || (g[2] == m && g[4] == m && g[6] == m);
        proof {
            if r {
                if g@[0] == m && g@[1] == m && g@[2] == m {
                    assert(triple_at(self@, 0, m));
                } else if g@[3] == m && g@[4] == m && g@[5] == m {
                    assert(triple_at(self@, 1, m));
                } else if g@[6] == m && g@[7] == m && g@[8] == m {
                    assert(triple_at(self@, 2, m));
                } else if g@[0] == m && g@[3] == m && g@[6] == m {
                    assert(triple_at(self@, 3, m));
                } else if g@[1] == m && g@[4] == m && g@[7] == m {
                    assert(triple_at(self@, 4, m));
                } else if g@[2] == m && g@[5] == m && g@[8] == m {
                    assert(triple_at(self@, 5, m));
                } else if g@[0] == m && g@[4] == m && g@[8] == m {
                    assert(triple_at(self@, 6, m));
                } else {
                    assert(triple_at(self@, 7, m));
                }
            } else {
                assert forall|k: int| 0 <= k < 8 implies !triple_at(self@, k, m) by {}
            }
        }
        r
    }
}

/// Why a board string was rejected.
#[derive(Clone, Copy, Debug, PartialEq, Eq, Structural)]
pub enum ParseError {
    /// The input is not exactly 9 characters long.
    WrongLength,
    /// Some character is none of `'x'`, `'o'`, `'+'` and `' '`.
    InvalidChar,
    /// The marker counts do not describe a position with O to move.
    InconsistentCounts,
}

/// The marker a single character stands for, if any: `'x'` is X, `'o'` is O,
/// and both `'+'` and `' '` are an empty cell.
pub open spec fn char_marker(c: char) -> Option<Marker> {
    if c == 'x' {
        Some(Marker::X)
    } else if c == 'o' {
        Some(Marker::O)
    } else if c == '+' || c == ' ' {
        Some(Marker::Empty)
    } else {
        None
    }
}

/// Every character of `s` stands for a marker.
pub open spec fn all_chars_valid(s: Seq<char>) -> bool {
    forall|i: int| 0 <= i < s.len() ==> (#[trigger] char_marker(s[i])) is Some
}

/// The markers that the characters of `s` stand for.
pub open spec fn marked(s: Seq<char>) -> Seq<Marker> {
    Seq::new(s.len(), |i: int| char_marker(s[i])->Some_0)
}

/// What parsing a board string yields: exactly 9 characters, each standing
/// for a marker, with the X and O counts equal and at least one empty cell,
/// unless the board is entirely empty, which is always accepted.
pub open spec fn spec_parse(s: Seq<char>) -> Result<Seq<Marker>, ParseError> {
    if s.len() != 9 {
        Err(ParseError::WrongLength)
    } else if !all_chars_valid(s) {
        Err(ParseError::InvalidChar)
    } else {
        let b = marked(s);
        if count_of(b, Marker::Empty) == 9 {
            Ok(b)
        } else if count_of(b, Marker::O) != count_of(b, Marker::X) || count_of(b, Marker::Empty)
            == 0 {
            Err(ParseError::InconsistentCounts)
        } else {
            Ok(b)
        }
    }
}

/// The character a marker renders to; empty cells render to `' '`, never to
/// the input-only `'+'`.
pub open spec fn render_char(m: Marker) -> char {
    match m {
        Marker::X => 'x',
        Marker::O => 'o',
        Marker::Empty => ' ',
    }
}

/// The text a board renders to.
pub open spec fn render_seq(b: Seq<Marker>) -> Seq<char> {
    Seq::new(b.len(), |i: int| render_char(b[i]))
}

impl Board {
    /// Parses a 9-character board string, rejecting any string whose marker
    /// counts could not arise with O to move next (O moves first).
    pub fn parse(s: &str) -> (r: Result<Board, ParseError>)
        ensures
            r matches Ok(b) ==> spec_parse(s@) == Ok::<Seq<Marker>, ParseError>(b@),
            r matches Err(e) ==> spec_parse(s@) == Err::<Seq<Marker>, ParseError>(e),
    {
        let n = s.unicode_len();
        if n != 9 {
            return Err(ParseError::WrongLength);
        }
        let mut markers: [Marker; 9] = [Marker::Empty; 9];
        let mut i: usize = 0;
        while i < 9
            invariant
                s@.len() == 9,
                i <= 9,
                forall|j: int|
                    0 <= j < i ==> ((#[trigger] char_marker(s@[j])) matches Some(m) && markers@[j]
                        == m),
            decreases 9 - i,
        {
            let c = s.get_char(i);
            if c == 'x' {
                markers[i] = Marker::X;
            } else if c == 'o' {
                markers[i] = Marker::O;
            } else if c == '+' || c == ' ' {
                markers[i] = Marker::Empty;
            } else {
                assert(char_marker(s@[i as int]) is None);
                return Err(ParseError::InvalidChar);
            }
            i += 1;
        }
        assert(markers@ =~= marked(s@));
        let mut xs: usize = 0;
        let mut os: usize = 0;
        let mut es: usize = 0;
        let mut j: usize = 0;
        while j < 9
            invariant
                j <= 9,
                xs <= j,
                os <= j,
                es <= j,
                xs == count_upto(markers@, Marker::X, j as int),
                os == count_upto(markers@, Marker::O, j as int),
                es == count_upto(markers@, Marker::Empty, j as int),
            decreases 9 - j,
        {
            match markers[j] {
                Marker::X => xs += 1,
                Marker::O => os += 1,
                Marker::Empty => es += 1,
            }
            j += 1;
        }
        if es == 9 {
            Ok(Board { markers })
        } else if os != xs || es == 0 {
            Err(ParseError::InconsistentCounts)
        } else {
            Ok(Board { markers })
        }
    }

    /// Renders the board back to its 9-character text form, with `' '` for
    /// empty cells.
    pub fn render(&self) -> (r: String)
        ensures
            r@ == render_seq(self@),
    {
        let mut out = String::new();
        let mut i: usize = 0;
        while i < 9
            invariant
                i <= 9,
                out@ =~= render_seq(self@).take(i as int),
            decreases 9 - i,
        {
            let piece = match self.markers[i] {
                Marker::X => "x",
                Marker::O => "o",
                Marker::Empty => " ",
            };
            proof {
                reveal_strlit("x");
                reveal_strlit("o");
                reveal_strlit(" ");
            }
            out.append(piece);
            i += 1;
            assert(out@ =~= render_seq(self@).take(i as int));
        }
        assert(out@ =~= render_seq(self@));
        out
    }
}

/// The boards reachable from `b` by placing `p`'s marker on an empty cell
/// with index below `i`, in increasing index order.
pub open spec fn children_upto(b: Seq<Marker>, p: Player, i: int) -> Seq<Seq<Marker>>
    decreases i,
{
    if i <= 0 {
        Seq::empty()
    } else {
        let rest = children_upto(b, p, i - 1);
        if b[i - 1] == Marker::Empty {
            rest.push(b.update(i - 1, marker_of(p)))
        } else {
            rest
        }
    }
}

/// The boards reachable from `b` by one move of `p`, in increasing order of
/// the index the move fills.
pub open spec fn children_spec(b: Seq<Marker>, p: Player) -> Seq<Seq<Marker>> {
    children_upto(b, p, 9)
}

impl Board {
    /// The board after `player` puts a marker on the empty cell `i`.
    pub fn place(&self, i: usize, player: Player) -> (r: Board)
        requires
            i < 9,
        ensures
            r@ == self@.update(i as int, marker_of(player)),
    {
        let mut markers = self.markers;
        markers[i] = player.marker();
        Board { markers }
    }

    /// All boards reachable from this one by placing a marker for `player`
    /// on an empty cell, in increasing index order of the filled cell.
    pub fn children(&self, player: Player) -> (r: Vec<Board>)
        ensures
            r@.len() == children_spec(self@, player).len(),
            forall|k: int| 0 <= k < r@.len() ==> r@[k]@ == children_spec(self@, player)[k],
    {
        let mut r: Vec<Board> = Vec::new();
        let mut i: usize = 0;
        while i < 9
            invariant
                i <= 9,
                r@.len() == children_upto(self@, player, i as int).len(),
                forall|k: int| 0 <= k < r@.len() ==> r@[k]@ == children_upto(self@, player, i as int)[k],
            decreases 9 - i,
        {
            if self.markers[i] == Marker::Empty {
                r.push(self.place(i, player));
            }
            i += 1;
        }
        r
    }
}

/// `s` with every input-only `'+'` replaced by the `' '` that rendering
/// uses for empty cells.
pub open spec fn canonical(s: Seq<char>) -> Seq<char> {
    Seq::new(s.len(), |i: int| if s[i] == '+' {
        ' '
    } else {
        s[i]
    })
}

/// Parsing round-trip: rendering any board that parses succeeds on gives
/// back the input text, up to canonicalization of `'+'` into `' '`.
pub proof fn lemma_parse_render_round_trip(s: Seq<char>)
    requires
        spec_parse(s) is Ok,
    ensures
        render_seq(spec_parse(s)->Ok_0) == canonical(s),
{
    let b = spec_parse(s)->Ok_0;
    assert forall|i: int| 0 <= i < 9 implies render_seq(b)[i] == canonical(s)[i] by {
        assert(char_marker(s[i]) is Some);
    }
    assert(render_seq(b) =~= canonical(s));
}

/// Characters and the markers they stand for are counted alike: on an
/// all-valid string, the count of `'x'` is the count of X markers, and the
/// count of `'o'` the count of O markers.
proof fn lemma_char_marker_counts(s: Seq<char>, i: int)
    requires
        all_chars_valid(s),
        0 <= i <= s.len(),
    ensures
        count_upto(s, 'x', i) == count_upto(marked(s), Marker::X, i),
        count_upto(s, 'o', i) == count_upto(marked(s), Marker::O, i),
    decreases i,
{
    if i > 0 {
        lemma_char_marker_counts(s, i - 1);
        assert(char_marker(s[i - 1]) is Some);
    }
}

/// Count invariant: a 9-character string of valid marker characters is
/// rejected as `InconsistentCounts` whenever its `'o'` and `'x'` counts
/// differ, and whenever no cell is empty, unless it is entirely empty.
pub proof fn lemma_parse_count_invariant(s: Seq<char>)
    requires
        s.len() == 9,
        all_chars_valid(s),
        count_of(marked(s), Marker::Empty) != 9,
        count_of(s, 'o') != count_of(s, 'x') || count_of(marked(s), Marker::Empty) == 0,
    ensures
        spec_parse(s) == Err::<Seq<Marker>, ParseError>(ParseError::InconsistentCounts),
{
    lemma_char_marker_counts(s, 9);
}

/// Win detection covers exactly the 8 winning lines, written out: a marker
/// has won if and only if one of the 3 rows, 3 columns or 2 diagonals is
/// filled with it. A marker with none of those lines is never reported as
/// winning, so a single completed line is seen for its own marker and
/// (absent a second triple) not for the other.
pub proof fn lemma_win_detection(b: Seq<Marker>, m: Marker)
    ensures
        line_won(b, m) <==> ((b[0] == m && b[1] == m && b[2] == m) || (b[3] == m && b[4] == m
            && b[5] == m) || (b[6] == m && b[7] == m && b[8] == m) || (b[0] == m && b[3] == m && b[6]
            == m) || (b[1] == m && b[4] == m && b[7] == m) || (b[2] == m && b[5] == m && b[8] == m)
            || (b[0] == m && b[4] == m && b[8] == m) || (b[2] == m && b[4] == m && b[6] == m)),
{
    if b[0] == m && b[1] == m && b[2] == m {
        assert(triple_at(b, 0, m));
    } else if b[3] == m && b[4] == m && b[5] == m {
        assert(triple_at(b, 1, m));
    } else if b[6] == m && b[7] == m && b[8] == m {
        assert(triple_at(b, 2, m));
    } else if b[0] == m && b[3] == m && b[6] == m {
        assert(triple_at(b, 3, m));
    } else if b[1] == m && b[4] == m && b[7] == m {
        assert(triple_at(b, 4, m));
    } else if b[2] == m && b[5] == m && b[8] == m {
        assert(triple_at(b, 5, m));
    } else if b[0] == m && b[4] == m && b[8] == m {
        assert(triple_at(b, 6, m));
    } else if b[2] == m && b[4] == m && b[6] == m {
        assert(triple_at(b, 7, m));
    } else {
        assert forall|k: int| 0 <= k < 8 implies !triple_at(b, k, m) by {}
    }
}

/// Move generation completeness: `b` has exactly one child per empty cell;
/// the child for empty cell `i` stands at the position given by the number
/// of empty cells before `i`, so children come in strictly increasing index
/// order; and each child differs from `b` in exactly that one cell, which
/// now holds the mover's marker.
pub proof fn lemma_children_complete(b: Seq<Marker>, p: Player)
    requires
        b.len() == 9,
    ensures
        children_spec(b, p).len() == count_of(b, Marker::Empty),
        forall|i: int|
            0 <= i < 9 && b[i] == Marker::Empty ==> children_spec(b, p)[count_upto(
                b,
                Marker::Empty,
                i,
            ) as int] == b.update(i, marker_of(p)),
        forall|i1: int, i2: int|
            0 <= i1 < i2 < 9 && b[i1] == Marker::Empty && b[i2] == Marker::Empty ==> count_upto(
                b,
                Marker::Empty,
                i1,
            ) < count_upto(b, Marker::Empty, i2),
        forall|i: int|
            0 <= i < 9 && b[i] == Marker::Empty ==> (b.update(i, marker_of(p))[i] == marker_of(p)
                && marker_of(p) != Marker::Empty && (forall|j: int|
                0 <= j < 9 && j != i ==> b.update(i, marker_of(p))[j] == b[j])),
{
    lemma_children_positions(b, p, 9);
    assert forall|i1: int, i2: int|
        0 <= i1 < i2 < 9 && b[i1] == Marker::Empty && b[i2]
            == Marker::Empty implies count_upto(b, Marker::Empty, i1) < count_upto(
        b,
        Marker::Empty,
        i2,
    ) by {
        lemma_count_upto_mono(b, Marker::Empty, i1, i2);
    }
}

/// Each empty cell below `i` contributes the child at the position given by
/// the count of empty cells before it.
proof fn lemma_children_positions(b: Seq<Marker>, p: Player, i: int)
    requires
        b.len() == 9,
        0 <= i <= 9,
    ensures
        children_upto(b, p, i).len() == count_upto(b, Marker::Empty, i),
        forall|j: int|
            0 <= j < i && b[j] == Marker::Empty ==> children_upto(b, p, i)[count_upto(
                b,
                Marker::Empty,
                j,
            ) as int] == b.update(j, marker_of(p)),
    decreases i,
{
    if i > 0 {
        lemma_children_positions(b, p, i - 1);
        assert forall|j: int|
            0 <= j < i - 1 && b[j] == Marker::Empty implies count_upto(b, Marker::Empty, j)
            < count_upto(b, Marker::Empty, i - 1) by {
            lemma_count_upto_mono(b, Marker::Empty, j, i - 1);
        }
    }
}

} // verus!
