//! Reading a position from Forsyth-Edwards notation: six fields apart by
//! white space, for the placement by ranks from the eighth down, the side
//! to move, the castling rights, the en-passant target, the halfmove clock
//! and the fullmove number.

use vstd::prelude::*;
use vstd::string::StrSliceExecFns;
use crate::board::Board;
use crate::chess::Chess;
use crate::file::File;
use crate::pieces::PieceType;
use crate::position::{empty_position, Position};
use crate::side::{CastlingAbility, Side};

verus! {

/// Why a text is not the notation of a position.
#[derive(Copy, Clone, PartialEq, Eq, Debug, Structural)]
pub enum FenError {
    /// The text does not have six fields.
    FieldCount,
    /// The placement is not eight ranks of eight squares each, written
    /// with piece letters and the digits 1 to 8.
    Placement,
    /// The side to move is neither `w` nor `b`.
    Side,
    /// The castling rights are neither `-` nor letters of `KQkq`.
    Castling,
    /// The en-passant target is neither `-` nor a square, or the position
    /// has no pawn that could just have passed over it.
    EnPassant,
    /// The halfmove clock is not a number in range.
    Halfmove,
    /// The fullmove number is not a number in range.
    Fullmove,
}

impl FenError {
    /// The description of the error, as a sequence of characters.
    pub open spec fn text(self) -> Seq<char> {
        match self {
            FenError::FieldCount => "the notation must have six fields"@,
            FenError::Placement => "the piece placement is not eight ranks of eight squares"@,
            FenError::Side => "the side to move must be w or b"@,
            FenError::Castling => "the castling rights must be - or letters of KQkq"@,
            FenError::EnPassant => "the en-passant target is not a square a pawn has just passed"@,
            FenError::Halfmove => "the halfmove clock is not a number in range"@,
            FenError::Fullmove => "the fullmove number is not a number in range"@,
        }
    }

    /// A description of the error.
    pub fn message(&self) -> (r: &'static str)
        ensures
            r@ == self.text(),
    {
        match self {
            FenError::FieldCount => "the notation must have six fields",
            FenError::Placement => "the piece placement is not eight ranks of eight squares",
            FenError::Side => "the side to move must be w or b",
            FenError::Castling => "the castling rights must be - or letters of KQkq",
            FenError::EnPassant => "the en-passant target is not a square a pawn has just passed",
            FenError::Halfmove => "the halfmove clock is not a number in range",
            FenError::Fullmove => "the fullmove number is not a number in range",
        }
    }
}

/// Whether the character separates fields.
pub open spec fn is_space(c: char) -> bool {
    c == ' ' || c == '\t' || c == '\n' || c == '\r'
}

/// The fields of `s` from the index `i` on, given the field begun before
/// `i` (`current`, empty if none is begun) and the fields completed before it.
pub open spec fn fields_from(s: Seq<char>, i: int, current: Seq<char>, done: Seq<Seq<char>>) -> Seq<
    Seq<char>,
>
    decreases s.len() - i,
{
    let closed = if current.len() > 0 {
        done.push(current)
    } else {
        done
    };
    if i < 0 || i >= s.len() {
        closed
    } else if is_space(s[i]) {
        fields_from(s, i + 1, Seq::empty(), closed)
    } else {
        fields_from(s, i + 1, current.push(s[i]), done)
    }
}

/// The fields of `s`: its longest runs of characters other than white space.
pub open spec fn fields(s: Seq<char>) -> Seq<Seq<char>> {
    fields_from(s, 0, Seq::empty(), Seq::empty())
}

/// The characters of a string.
pub(crate) fn characters(text: &str) -> (r: Vec<char>)
    ensures
        r@ == text@,
{
    let n = text.unicode_len();
    let mut out: Vec<char> = Vec::new();
    let mut i: usize = 0;
    while i < n
        invariant
            i <= n,
            n == text@.len(),
            out@ == text@.subrange(0, i as int),
        decreases n - i,
    {
        out.push(text.get_char(i));
        proof {
            assert(out@ =~= text@.subrange(0, i + 1));
        }
        i += 1;
    }
    proof {
        assert(text@.subrange(0, n as int) =~= text@);
    }
    out
}

/// The views of the listed fields.
pub open spec fn field_views(list: Seq<Vec<char>>) -> Seq<Seq<char>> {
    list.map_values(|v: Vec<char>| v@)
}

/// Splits a text into its fields.
pub(crate) fn split_fields(s: &Vec<char>) -> (r: Vec<Vec<char>>)
    ensures
        field_views(r@) == fields(s@),
{
    let mut done: Vec<Vec<char>> = Vec::new();
    let mut current: Vec<char> = Vec::new();
    let mut i: usize = 0;
    proof {
        assert(field_views(done@) =~= Seq::<Seq<char>>::empty());
    }
    while i < s.len()
        invariant
            i <= s.len(),
            fields(s@) == fields_from(s@, i as int, current@, field_views(done@)),
        decreases s.len() - i,
    {
        let c = s[i];
        if c == ' ' || c == '\t' || c == '\n' || c == '\r' {
            if current.len() > 0 {
                let ghost before = field_views(done@);
                let ghost word = current@;
                done.push(current);
                current = Vec::new();
                proof {
                    assert(field_views(done@) =~= before.push(word));
                }
            }
            proof {
                assert(current@ =~= Seq::<char>::empty());
            }
        } else {
            current.push(c);
        }
        i += 1;
    }
    if current.len() > 0 {
        let ghost before = field_views(done@);
        let ghost word = current@;
        done.push(current);
        proof {
            assert(field_views(done@) =~= before.push(word));
        }
    }
    done
}

/// The side that a field names: `w` or `b`.
pub open spec fn side_of(s: Seq<char>) -> Option<Side> {
    if s.len() == 1 && s[0] == 'w' {
        Some(Side::White)
    } else if s.len() == 1 && s[0] == 'b' {
        Some(Side::Black)
    } else {
        None
    }
}

/// Reads the side to move.
fn parse_side(field: &Vec<char>) -> (r: Option<Side>)
    ensures
        r == side_of(field@),
{
    if field.len() != 1 {
        None
    } else if field[0] == 'w' {
        Some(Side::White)
    } else if field[0] == 'b' {
        Some(Side::Black)
    } else {
        None
    }
}

/// Rights with the right to one wing added, if it is not held yet.
pub open spec fn grant(rights: CastlingAbility, wing: CastlingAbility) -> CastlingAbility {
    if rights.allows(wing) {
        rights
    } else {
        rights.with(wing)
    }
}

/// The castling rights that the letters of `s` from `i` on add to those of
/// White (`white`) and Black (`black`): `K` and `Q` for White's wings, `k`
/// and `q` for Black's. Any other character makes the field unreadable.
pub open spec fn castling_from(
    s: Seq<char>,
    i: int,
    white: CastlingAbility,
    black: CastlingAbility,
) -> Option<(CastlingAbility, CastlingAbility)>
    decreases s.len() - i,
{
    if i < 0 || i >= s.len() {
        Some((white, black))
    } else if s[i] == 'K' {
        castling_from(s, i + 1, grant(white, CastlingAbility::King), black)
    } else if s[i] == 'Q' {
        castling_from(s, i + 1, grant(white, CastlingAbility::Queen), black)
    } else if s[i] == 'k' {
        castling_from(s, i + 1, white, grant(black, CastlingAbility::King))
    } else if s[i] == 'q' {
        castling_from(s, i + 1, white, grant(black, CastlingAbility::Queen))
    } else {
        None
    }
}

/// The castling rights that a field names, White's first: none for `-`.
pub open spec fn castling_of(s: Seq<char>) -> Option<(CastlingAbility, CastlingAbility)> {
    if s.len() == 1 && s[0] == '-' {
        Some((CastlingAbility::Neither, CastlingAbility::Neither))
    } else {
        castling_from(s, 0, CastlingAbility::Neither, CastlingAbility::Neither)
    }
}

/// Adds the right to one wing, if it is not held yet.
fn grant_right(rights: &mut CastlingAbility, wing: CastlingAbility)
    ensures
        *final(rights) == grant(*old(rights), wing),
{
    if !rights.has(wing) {
        rights.add(wing);
    }
}

/// Reads the castling rights.
fn parse_castling(field: &Vec<char>) -> (r: Option<(CastlingAbility, CastlingAbility)>)
    ensures
        r == castling_of(field@),
{
    if field.len() == 1 && field[0] == '-' {
        return Some((CastlingAbility::Neither, CastlingAbility::Neither));
    }
    let mut white = CastlingAbility::Neither;
    let mut black = CastlingAbility::Neither;
    let mut i: usize = 0;
    while i < field.len()
        invariant
            i <= field.len(),
            castling_of(field@) == castling_from(field@, i as int, white, black),
        decreases field.len() - i,
    {
        match field[i] {
            'K' => grant_right(&mut white, CastlingAbility::King),
            'Q' => grant_right(&mut white, CastlingAbility::Queen),
            'k' => grant_right(&mut black, CastlingAbility::King),
            'q' => grant_right(&mut black, CastlingAbility::Queen),
            _ => {
                return None;
            },
        }
        i += 1;
    }
    Some((white, black))
}

/// The number of the rank with the given digit, `1` to `8`: 0 to 7.
pub open spec fn rank_of(c: char) -> Option<int> {
    if c == '1' {
        Some(0)
    } else if c == '2' {
        Some(1)
    } else if c == '3' {
        Some(2)
    } else if c == '4' {
        Some(3)
    } else if c == '5' {
        Some(4)
    } else if c == '6' {
        Some(5)
    } else if c == '7' {
        Some(6)
    } else if c == '8' {
        Some(7)
    } else {
        None
    }
}

/// Reads a rank digit.
fn parse_rank(c: char) -> (r: Option<usize>)
    ensures
        match r {
            Some(y) => rank_of(c) == Some(y as int) && y < 8,
            None => rank_of(c) is None,
        },
{
    match c {
        '1' => Some(0),
        '2' => Some(1),
        '3' => Some(2),
        '4' => Some(3),
        '5' => Some(4),
        '6' => Some(5),
        '7' => Some(6),
        '8' => Some(7),
        _ => None,
    }
}

/// The en-passant target that a field names: none for `-`, the square for
/// a file letter and a rank digit. Anything else is unreadable.
pub open spec fn ep_of(s: Seq<char>) -> Option<Option<int>> {
    if s.len() == 1 && s[0] == '-' {
        Some(None)
    } else if s.len() == 2 {
        match (File::of_letter(s[0]), rank_of(s[1])) {
            (Some(file), Some(rank)) => Some(Some(rank * 8 + file.number())),
            _ => None,
        }
    } else {
        None
    }
}

/// Reads the en-passant target.
fn parse_ep(field: &Vec<char>) -> (r: Option<Option<usize>>)
    ensures
        match r {
            Some(Some(t)) => ep_of(field@) == Some(Some(t as int)) && t < 64,
            Some(None) => ep_of(field@) == Some(None::<int>),
            None => ep_of(field@) is None,
        },
{
    if field.len() == 1 && field[0] == '-' {
        Some(None)
    } else if field.len() == 2 {
        match (File::from_char(field[0]), parse_rank(field[1])) {
            (Some(file), Some(rank)) => Some(Some(rank * 8 + file.index())),
            _ => None,
        }
    } else {
        None
    }
}

/// The value of a decimal digit.
pub open spec fn digit_of(c: char) -> Option<int> {
    if c == '0' {
        Some(0)
    } else {
        match rank_of(c) {
            Some(r) => Some(r + 1),
            None => if c == '9' {
                Some(9)
            } else {
                None
            },
        }
    }
}

/// Reads a decimal digit.
fn parse_digit(c: char) -> (r: Option<u32>)
    ensures
        match r {
            Some(d) => digit_of(c) == Some(d as int) && d <= 9,
            None => digit_of(c) is None,
        },
{
    match c {
        '0' => Some(0),
        '1' => Some(1),
        '2' => Some(2),
        '3' => Some(3),
        '4' => Some(4),
        '5' => Some(5),
        '6' => Some(6),
        '7' => Some(7),
        '8' => Some(8),
        '9' => Some(9),
        _ => None,
    }
}

/// The number that the digits of `s` from `i` on make of the value `sofar`
/// read before them, if it stays within the range of a counter.
pub open spec fn number_from(s: Seq<char>, i: int, sofar: int) -> Option<int>
    decreases s.len() - i,
{
    if i < 0 || i >= s.len() {
        Some(sofar)
    } else {
        match digit_of(s[i]) {
            Some(d) => if sofar * 10 + d <= u32::MAX as int {
                number_from(s, i + 1, sofar * 10 + d)
            } else {
                None
            },
            None => None,
        }
    }
}

/// The number that a field names: one or more decimal digits, with a
/// value that a counter can hold.
pub open spec fn number_of(s: Seq<char>) -> Option<int> {
    if s.len() == 0 {
        None
    } else {
        number_from(s, 0, 0)
    }
}

/// Reads a counter.
fn parse_number(field: &Vec<char>) -> (r: Option<u32>)
    ensures
        match r {
            Some(n) => number_of(field@) == Some(n as int),
            None => number_of(field@) is None,
        },
{
    if field.len() == 0 {
        return None;
    }
    let mut sofar: u32 = 0;
    let mut i: usize = 0;
    while i < field.len()
        invariant
            i <= field.len(),
            field.len() > 0,
            number_of(field@) == number_from(field@, i as int, sofar as int),
        decreases field.len() - i,
    {
        match parse_digit(field[i]) {
            Some(d) => {
                if sofar > (u32::MAX - d) / 10 {
                    return None;
                }
                sofar = sofar * 10 + d;
            },
            None => {
                return None;
            },
        }
        i += 1;
    }
    Some(sofar)
}

/// The piece that a letter names: upper case for White, lower case for Black.
pub open spec fn piece_of(c: char) -> Option<(PieceType, Side)> {
    if c == 'p' {
        Some((PieceType::Pawn, Side::Black))
    } else if c == 'n' {
        Some((PieceType::Knight, Side::Black))
    } else if c == 'b' {
        Some((PieceType::Bishop, Side::Black))
    } else if c == 'r' {
        Some((PieceType::Rook, Side::Black))
    } else if c == 'q' {
        Some((PieceType::Queen, Side::Black))
    } else if c == 'k' {
        Some((PieceType::King, Side::Black))
    } else if c == 'P' {
        Some((PieceType::Pawn, Side::White))
    } else if c == 'N' {
        Some((PieceType::Knight, Side::White))
    } else if c == 'B' {
        Some((PieceType::Bishop, Side::White))
    } else if c == 'R' {
        Some((PieceType::Rook, Side::White))
    } else if c == 'Q' {
        Some((PieceType::Queen, Side::White))
    } else if c == 'K' {
        Some((PieceType::King, Side::White))
    } else {
        None
    }
}

/// Reads a piece letter.
fn parse_piece(c: char) -> (r: Option<(PieceType, Side)>)
    ensures
        r == piece_of(c),
        r matches Some(p) ==> p.0 != PieceType::Empty,
{
    match c {
        'p' => Some((PieceType::Pawn, Side::Black)),
        'n' => Some((PieceType::Knight, Side::Black)),
        'b' => Some((PieceType::Bishop, Side::Black)),
        'r' => Some((PieceType::Rook, Side::Black)),
        'q' => Some((PieceType::Queen, Side::Black)),
        'k' => Some((PieceType::King, Side::Black)),
        'P' => Some((PieceType::Pawn, Side::White)),
        'N' => Some((PieceType::Knight, Side::White)),
        'B' => Some((PieceType::Bishop, Side::White)),
        'R' => Some((PieceType::Rook, Side::White)),
        'Q' => Some((PieceType::Queen, Side::White)),
        'K' => Some((PieceType::King, Side::White)),
        _ => None,
    }
}

/// What the placement field `s` from `i` on puts on the squares `cells`,
/// when the next square to fill is on file `x` of rank `y`. A piece letter
/// fills a square; a digit from 1 to 8 leaves that many squares empty; a
/// stroke ends a full rank and starts the one below. The field must end
/// with the first rank full.
pub open spec fn placed(
    cells: Seq<Option<(PieceType, Side)>>,
    s: Seq<char>,
    i: int,
    x: int,
    y: int,
) -> Option<Seq<Option<(PieceType, Side)>>>
    decreases s.len() - i,
{
    if i < 0 || i >= s.len() {
        if x == 8 && y == 0 {
            Some(cells)
        } else {
            None
        }
    } else if s[i] == '/' {
        if x == 8 && y > 0 {
            placed(cells, s, i + 1, 0, y - 1)
        } else {
            None
        }
    } else {
        match rank_of(s[i]) {
            Some(gap) => if x + gap + 1 <= 8 {
                placed(cells, s, i + 1, x + gap + 1, y)
            } else {
                None
            },
            None => match piece_of(s[i]) {
                Some(piece) => if x < 8 {
                    placed(cells.update(y * 8 + x, Some(piece)), s, i + 1, x + 1, y)
                } else {
                    None
                },
                None => None,
            },
        }
    }
}

/// The squares that a placement field describes.
pub open spec fn placement_of(s: Seq<char>) -> Option<Seq<Option<(PieceType, Side)>>> {
    placed(Seq::new(64, |i: int| None), s, 0, 0, 7)
}

/// The position that a text in Forsyth-Edwards notation describes, or the
/// first reason why it describes none.
pub open spec fn parse_fen(s: Seq<char>) -> Result<Position, FenError> {
    let f = fields(s);
    if f.len() != 6 {
        Err(FenError::FieldCount)
    } else {
        match placement_of(f[0]) {
            None => Err(FenError::Placement),
            Some(cells) => match side_of(f[1]) {
                None => Err(FenError::Side),
                Some(side) => match castling_of(f[2]) {
                    None => Err(FenError::Castling),
                    Some(rights) => match ep_of(f[3]) {
                        None => Err(FenError::EnPassant),
                        Some(ep_target) => match number_of(f[4]) {
                            None => Err(FenError::Halfmove),
                            Some(halfmove) => match number_of(f[5]) {
                                None => Err(FenError::Fullmove),
                                Some(fullmove) => {
                                    let position = Position {
                                        cells,
                                        side,
                                        white_castling: rights.0,
                                        black_castling: rights.1,
                                        ep_target,
                                        halfmove,
                                        fullmove,
                                    };
                                    if position.ep_valid() {
                                        Ok(position)
                                    } else {
                                        Err(FenError::EnPassant)
                                    }
                                },
                            },
                        },
                    },
                },
            },
        }
    }
}

/// Puts on an empty board the pieces that a placement field describes,
/// and says whether the field could be read.
fn place_pieces(board: &mut Board, field: &Vec<char>) -> (r: bool)
    requires
        old(board).placement_wf(),
        old(board)@ == empty_position(),
    ensures
        final(board).placement_wf(),
        final(board).same_derived(*old(board)),
        final(board)@ == (Position { cells: final(board)@.cells, ..old(board)@ }),
        r ==> placement_of(field@) == Some(final(board)@.cells),
        !r ==> placement_of(field@) is None,
{
    let mut i: usize = 0;
    let mut x: usize = 0;
    let mut y: usize = 7;
    proof {
        board.lemma_view_cells();
        assert(board@.cells =~= Seq::new(64, |i: int| None::<(PieceType, Side)>));
    }
    while i < field.len()
        invariant
            i <= field.len(),
            x <= 8,
            y <= 7,
            board.placement_wf(),
            board.same_derived(*old(board)),
            board@ == (Position { cells: board@.cells, ..old(board)@ }),
            board@.cells.len() == 64,
            placement_of(field@) == placed(board@.cells, field@, i as int, x as int, y as int),
            forall|j: int|
                0 <= j < 64 && (j / 8 < y || (j / 8 == y && j % 8 >= x)) ==> #[trigger] board@.cells[j]
                    is None,
        decreases field.len() - i,
    {
        let c = field[i];
        if c == '/' {
            if x == 8 && y > 0 {
                x = 0;
                y = y - 1;
            } else {
                return false;
            }
        } else {
            match parse_rank(c) {
                Some(gap) => {
                    if x + gap + 1 <= 8 {
                        x = x + gap + 1;
                    } else {
                        return false;
                    }
                },
                None => {
                    match parse_piece(c) {
                        Some((kind, side)) => {
                            if x < 8 {
                                board.set_piece(y * 8 + x, kind, side, true);
                                x = x + 1;
                            } else {
                                return false;
                            }
                        },
                        None => {
                            return false;
                        },
                    }
                },
            }
        }
        i += 1;
    }
    x == 8 && y == 0
}

impl Board {
    /// Whether the en-passant target, if one is set, is sound: an empty
    /// square on the third rank of the side that has just moved, with a
    /// pawn of that side in front of it.
    pub(crate) fn ep_ok(&self) -> (r: bool)
        requires
            self.placement_wf(),
        ensures
            r == self@.ep_valid(),
    {
        proof {
            self.lemma_view_cells();
        }
        match self.ep_target {
            None => true,
            Some(t) => {
                if t >= 64 {
                    return false;
                }
                let mover = self.side.get_opposite();
                let (rank, pawn_rank): (usize, usize) = match mover {
                    Side::White => (2, 3),
                    Side::Black => (5, 4),
                };
                if t / 8 != rank {
                    return false;
                }
                let pawn_square = pawn_rank * 8 + t % 8;
                proof {
                    assert(self@.at(t as int % 8, t as int / 8) == self@.cells[t as int]);
                    assert(self@.at(t as int % 8, t as int / 8 + mover.forward())
                        == self@.cells[pawn_square as int]);
                }
                let here = self.get_piece_at_pos(t);
                let ahead = self.get_piece_at_pos(pawn_square);
                here.is_none() && match ahead {
                    Some(pawn) => pawn.get_piece_type() == PieceType::Pawn && pawn.get_color()
                        == mover,
                    None => false,
                }
            },
        }
    }

    /// Reads a board from a text in Forsyth-Edwards notation. The text must
    /// have six fields; the first error found, in the order of the fields,
    /// is the one returned.
    pub fn from_fen(fen: String) -> (r: Result<Board, FenError>)
        ensures
            match r {
                Ok(board) => board.wf() && parse_fen(fen@) == Ok::<Position, FenError>(board@),
                Err(e) => parse_fen(fen@) == Err::<Position, FenError>(e),
            },
    {
        let chars = characters(fen.as_str());
        let parts = split_fields(&chars);
        if parts.len() != 6 {
            return Err(FenError::FieldCount);
        }
        proof {
            assert(field_views(parts@)[0] == parts@[0]@);
            assert(field_views(parts@)[1] == parts@[1]@);
            assert(field_views(parts@)[2] == parts@[2]@);
            assert(field_views(parts@)[3] == parts@[3]@);
            assert(field_views(parts@)[4] == parts@[4]@);
            assert(field_views(parts@)[5] == parts@[5]@);
        }
        let mut board = Board::new();
        proof {
            board.lemma_wf();
        }
        if !place_pieces(&mut board, &parts[0]) {
            return Err(FenError::Placement);
        }
        let side = match parse_side(&parts[1]) {
            Some(side) => side,
            None => {
                return Err(FenError::Side);
            },
        };
        let rights = match parse_castling(&parts[2]) {
            Some(rights) => rights,
            None => {
                return Err(FenError::Castling);
            },
        };
        let ep_target = match parse_ep(&parts[3]) {
            Some(ep_target) => ep_target,
            None => {
                return Err(FenError::EnPassant);
            },
        };
        let halfmove = match parse_number(&parts[4]) {
            Some(n) => n,
            None => {
                return Err(FenError::Halfmove);
            },
        };
        let fullmove = match parse_number(&parts[5]) {
            Some(n) => n,
            None => {
                return Err(FenError::Fullmove);
            },
        };
        let ghost placed = board;
        board.side = side;
        board.castling = [rights.0, rights.1];
        board.ep_target = ep_target;
        board.moves_to_50 = halfmove;
        board.move_counter = fullmove;
        proof {
            board.lemma_same_placement(placed);
            board.lemma_kinds();
        }
        if !board.ep_ok() {
            return Err(FenError::EnPassant);
        }
        board.update_calculations();
        Ok(board)
    }
}

impl Chess {
    /// Create a new chess game that starts from the position which `fen`
    /// describes in Forsyth-Edwards notation.
    pub fn from_fen(fen: String) -> (r: Result<Chess, FenError>)
        ensures
            match r {
                Ok(chess) => chess.wf() && chess.pending() is None && parse_fen(fen@) == Ok::<
                    Position,
                    FenError,
                >(chess.board@),
                Err(e) => parse_fen(fen@) == Err::<Position, FenError>(e),
            },
    {
        match Board::from_fen(fen) {
            Ok(board) => Ok(Chess::with_board(board)),
            Err(e) => Err(e),
        }
    }
}

} // verus!
