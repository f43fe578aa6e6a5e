//! The game: a board, the state of play, and a promotion that may be pending.

use vstd::prelude::*;
use crate::bitboard::descending_squares;
use crate::board::{describes_squares, Board};
use crate::pieces::{Piece, PieceType};
use crate::position::{promotable, standard_position};
use crate::side::Side;

verus! {

/// Special moments in the game.
///
/// - `Playing`: the game is ongoing as normal
/// - `Check`: the current player is in check
/// - `Checkmate`: the current player is checkmated and has lost
/// - `Stalemate`: the current player has no legal move and is not in check
/// - `Draw`: the game is a draw
/// - `Promotion`: there is a pawn promotion that must be handled
#[derive(Copy, Clone, Eq, PartialEq, Debug, Structural)]
pub enum State {
    Playing,
    Check,
    Checkmate,
    Stalemate,
    Draw,
    Promotion,
}

/// The main chess game object.
pub struct Chess {
    /// The board of the game.
    pub board: Board,
    /// The state of play, as last computed.
    pub state: State,
    /// The square of the pawn that waits to be promoted, if one does.
    pub promoting_index: Option<usize>,
}

impl Chess {
    /// The state of play, as last computed.
    pub open spec fn state(self) -> State {
        self.state
    }

    /// The square of the pawn that waits to be promoted, if one does.
    pub open spec fn pending(self) -> Option<int> {
        match self.promoting_index {
            Some(i) => Some(i as int),
            None => None,
        }
    }

    /// The game is sound: its board is; the state is that of the board's
    /// position; a pending promotion names a pawn of the side that has
    /// just moved, on the first or last rank, with the clock at 0.
    pub open spec fn wf(self) -> bool {
        &&& self.board.wf()
        &&& self.state() == self.board@.game_state(self.pending() is Some)
        &&& match self.pending() {
            Some(i) => {
                &&& 0 <= i < 64
                &&& (i / 8 == 0 || i / 8 == 7)
                &&& self.board@.cells[i] == Some((PieceType::Pawn, self.board@.side.opposite()))
                &&& self.board@.halfmove == 0
            },
            None => true,
        }
    }

    /// In a sound game no square is both White's and Black's.
    pub proof fn lemma_sides_disjoint(self)
        requires
            self.wf(),
        ensures
            self.board.side_board(Side::White)@.disjoint(self.board.side_board(Side::Black)@),
    {
        self.board.lemma_wf();
        self.board.lemma_sides_disjoint();
    }

    /// In a sound game with the halfmove clock at 100 or more the state is
    /// a draw.
    pub proof fn lemma_clock_draw(self)
        requires
            self.wf(),
            self.board@.halfmove >= 100,
        ensures
            self.state() == State::Draw,
    {
    }

    /// Create a new chess game starting from the default board position.
    pub fn new() -> (r: Chess)
        ensures
            r.wf(),
            r.board@ == standard_position(),
            r.pending() is None,
    {
        let mut chess = Chess { board: Board::standard(), state: State::Playing, promoting_index: None };
        chess.update_state();
        chess
    }

    /// A game that goes on from the given board, with no promotion pending.
    pub fn with_board(board: Board) -> (r: Chess)
        requires
            board.wf(),
        ensures
            r.wf(),
            r.board == board,
            r.pending() is None,
    {
        let mut chess = Chess { board, state: State::Playing, promoting_index: None };
        chess.update_state();
        chess
    }

    /// Check if the piece at `index` is selectable: whether the square
    /// holds a piece of the side to move.
    pub fn is_selectable(&self, index: usize) -> (r: bool)
        requires
            self.wf(),
        ensures
            r == (index < 64 && self.board@.owned_by(
                index as int % 8,
                index as int / 8,
                self.board@.side,
            )),
    {
        proof {
            self.board.lemma_wf();
            self.board.lemma_view_cells();
            self.board.lemma_side_board(self.board@.side);
        }
        self.board.get_playing_sides_board().get(index)
    }

    /// The side to move.
    pub fn get_playing_side(&self) -> (r: Side)
        ensures
            r == self.board@.side,
    {
        self.board.get_playing_side()
    }

    /// Move the piece on `start_index` to `end_index`, and say whether the
    /// move was made. It is made when no promotion is pending and the move
    /// is legal for the side to move; otherwise nothing changes. A pawn
    /// that reaches the last rank then waits to be promoted.
    pub fn make_move(&mut self, start_index: usize, end_index: usize) -> (r: bool)
        requires
            old(self).wf(),
        ensures
            final(self).wf(),
            r == (old(self).state() != State::Promotion && old(self).board@.legal_move(
                start_index as int,
                end_index as int,
            )),
            r ==> final(self).board@ == old(self).board@.after_move(
                start_index as int,
                end_index as int,
            ),
            r ==> final(self).pending() == (if old(self).board@.kind_at(
                start_index as int % 8,
                start_index as int / 8,
            ) == PieceType::Pawn && (end_index as int / 8 == 0 || end_index as int / 8 == 7) {
                Some(end_index as int)
            } else {
                None
            }),
            !r ==> *final(self) == *old(self),
    {
        let ghost pos = self.board@;
        proof {
            self.board.lemma_wf();
            self.board.lemma_view_cells();
        }
        if self.state == State::Promotion {
            return false;
        }
        match self.board.get_piece_at_pos(start_index) {
            Some(piece) => {
                proof {
                    assert(pos.at(start_index as int % 8, start_index as int / 8)
                        == pos.cells[start_index as int]);
                }
                if !self.board.move_piece(&piece, end_index) {
                    return false;
                }
                proof {
                    pos.lemma_legal_move_facts(start_index as int, end_index as int);
                    self.board.lemma_wf();
                    self.board.lemma_view_cells();
                }
                let y = end_index / 8;
                if piece.get_piece_type() == PieceType::Pawn && (y == 0 || y == 7) {
                    self.promoting_index = Some(end_index);
                }
                self.update_state();
                true
            },
            None => false,
        }
    }

    /// Get all coordinates, file then rank, that the piece at `index` is
    /// able to move to, from the highest square down; none if the square
    /// is empty or its piece belongs to the side that is not to move.
    pub fn get_moves(&self, index: usize) -> (r: Vec<(usize, usize)>)
        requires
            self.wf(),
        ensures
            r@.map_values(|c: (usize, usize)| c.1 as int * 8 + c.0 as int) =~= descending_squares(
                self.board@.moves_from(index as int),
                64,
            ),
            forall|i: int| 0 <= i < r.len() ==> (#[trigger] r[i]).0 < 8 && r[i].1 < 8,
    {
        let ghost pos = self.board@;
        proof {
            self.board.lemma_wf();
            self.board.lemma_view_cells();
            lemma_descending_empty(64);
        }
        match self.board.get_piece_at_pos(index) {
            Some(piece) => {
                proof {
                    assert(pos.at(index as int % 8, index as int / 8) == pos.cells[index as int]);
                }
                if piece.get_color() == self.board.get_playing_side() {
                    let targets = piece.get_possible_moves(&self.board);
                    proof {
                        targets.lemma_descending(64);
                        assert(targets@ == pos.moves_from(index as int));
                        lemma_descending_bounds(targets@, 64);
                    }
                    return to_coordinates(&targets.to_indices());
                }
            },
            None => {},
        }
        let moves: Vec<(usize, usize)> = Vec::new();
        proof {
            assert(moves@.map_values(|c: (usize, usize)| c.1 as int * 8 + c.0 as int)
                =~= Seq::<int>::empty());
        }
        moves
    }

    /// Computes the state of play from the board and the pending promotion.
    fn update_state(&mut self)
        requires
            old(self).board.wf(),
        ensures
            final(self).board == old(self).board,
            final(self).pending() == old(self).pending(),
            final(self).state() == old(self).board@.game_state(old(self).pending() is Some),
    {
        let side = self.board.get_playing_side();
        proof {
            self.board.lemma_wf();
            self.board.lemma_caches(side);
        }
        if self.board.get_moves_to_50() >= 100 {
            self.state = State::Draw;
        } else if self.promoting_index.is_some() {
            self.state = State::Promotion;
        } else if self.board.get_side_computed_boards(side).1.len() != 0 {
            if self.board.is_no_possible_moves(side) {
                self.state = State::Checkmate;
            } else {
                self.state = State::Check;
            }
        } else if self.board.is_only_kings_left() {
            self.state = State::Draw;
        } else if self.board.is_no_possible_moves(side) {
            self.state = State::Stalemate;
        } else {
            self.state = State::Playing;
        }
    }

    /// Replace the pawn that waits to be promoted with a piece of kind
    /// `new_piece` (knight, bishop, rook or queen) of the same side. With
    /// no promotion pending, or for another kind, nothing changes.
    pub fn promote(&mut self, new_piece: PieceType)
        requires
            old(self).wf(),
        ensures
            final(self).wf(),
            match old(self).pending() {
                Some(i) => if promotable(new_piece) {
                    final(self).board@ == old(self).board@.after_promotion(i, new_piece)
                        && final(self).pending() is None
                } else {
                    *final(self) == *old(self)
                },
                None => *final(self) == *old(self),
            },
    {
        let allowed = match new_piece {
            PieceType::Knight | PieceType::Bishop | PieceType::Rook | PieceType::Queen => true,
            _ => false,
        };
        match self.promoting_index {
            Some(index) => {
                if allowed {
                    let ghost pos = self.board@;
                    proof {
                        self.board.lemma_wf();
                        self.board.lemma_view_cells();
                    }
                    let color = self.board.get_playing_side().get_opposite();
                    self.board.set_piece(index, PieceType::Pawn, color, false);
                    self.board.set_piece(index, new_piece, color, true);
                    self.promoting_index = None;
                    proof {
                        let next = pos.after_promotion(index as int, new_piece);
                        assert(self.board@.cells =~= next.cells);
                        assert(self.board@ == next);
                        if let Some(t) = next.ep_target {
                            assert(pos.ep_valid());
                            assert(next.at(t % 8, t / 8) == pos.at(t % 8, t / 8));
                            let ahead = t / 8 + next.side.opposite().forward();
                            assert(next.at(t % 8, ahead) == pos.at(t % 8, ahead));
                        }
                        assert forall|i: int| 0 <= i < 64 implies match #[trigger] next.cells[i] {
                            Some(c) => c.0 != PieceType::Empty,
                            None => true,
                        } by {
                            assert(match pos.cells[i] {
                                Some(c) => c.0 != PieceType::Empty,
                                None => true,
                            });
                        }
                    }
                    self.board.update_calculations();
                    self.update_state();
                }
            },
            None => {},
        }
    }

    /// Get all pieces on the board, by rising square index.
    pub fn get_all_pieces(&self) -> (r: Vec<Piece>)
        requires
            self.wf(),
        ensures
            describes_squares(r@, self.board@, self.board@.occupied_squares()),
    {
        proof {
            self.board.lemma_wf();
        }
        self.board.get_all_pieces()
    }

    /// Get the current state of the game.
    pub fn get_state(&self) -> (r: State)
        ensures
            r == self.state(),
            self.wf() ==> r == self.board@.game_state(self.pending() is Some),
    {
        self.state
    }
}

/// The listing of the empty set is empty.
proof fn lemma_descending_empty(n: int)
    ensures
        descending_squares(Set::<int>::empty(), n) =~= Seq::<int>::empty(),
    decreases n,
{
    if n > 0 {
        lemma_descending_empty(n - 1);
    }
}

/// The squares listed lie below the bound.
proof fn lemma_descending_bounds(squares: Set<int>, n: int)
    ensures
        forall|i: int|
            0 <= i < descending_squares(squares, n).len() ==> 0 <= #[trigger] descending_squares(
                squares,
                n,
            )[i] < n,
    decreases n,
{
    if n > 0 {
        lemma_descending_bounds(squares, n - 1);
        let rest = descending_squares(squares, n - 1);
        let now = descending_squares(squares, n);
        assert forall|i: int| 0 <= i < now.len() implies 0 <= #[trigger] now[i] < n by {
            if squares.contains(n - 1) {
                if i > 0 {
                    assert(now[i] == rest[i - 1]);
                }
            } else {
                assert(now[i] == rest[i]);
            }
        }
    }
}

/// The coordinates, file then rank, of the listed squares.
fn to_coordinates(squares: &Vec<usize>) -> (r: Vec<(usize, usize)>)
    requires
        forall|i: int| 0 <= i < squares.len() ==> 0 <= (#[trigger] squares@[i]) < 64,
    ensures
        r@.map_values(|c: (usize, usize)| c.1 as int * 8 + c.0 as int) =~= squares@.map_values(
            |i: usize| i as int,
        ),
        forall|i: int| 0 <= i < r.len() ==> (#[trigger] r[i]).0 < 8 && r[i].1 < 8,
{
    let mut moves: Vec<(usize, usize)> = Vec::new();
    let mut n: usize = 0;
    while n < squares.len()
        invariant
            n <= squares.len(),
            moves.len() == n,
            forall|i: int| 0 <= i < squares.len() ==> 0 <= (#[trigger] squares@[i]) < 64,
            forall|i: int|
                0 <= i < n ==> (#[trigger] moves@[i]).0 == squares@[i] % 8 && moves@[i].1
                    == squares@[i] / 8,
        decreases squares.len() - n,
    {
        let square = squares[n];
        moves.push((square % 8, square / 8));
        n += 1;
    }
    moves
}

impl Default for Chess {
    /// A new game from the default board position.
    fn default() -> (r: Chess)
        ensures
            r.wf(),
            r.board@ == standard_position(),
    {
        Chess::new()
    }
}

} // verus!
