use chess_rules::{
    notation_to_index, square_from_notation, Board, CastlingAbility, Chess, FenError, PieceType,
    Side, State,
};

fn game(fen: &str) -> Chess {
    Chess::from_fen(fen.to_string()).unwrap()
}

fn sq(name: &str) -> usize {
    notation_to_index(name)
}

#[test]
fn standard_position_has_thirty_two_pieces() {
    let chess = Chess::new();
    let pieces = chess.get_all_pieces();
    assert_eq!(pieces.len(), 32);
    assert_eq!(pieces.iter().filter(|p| p.get_color() == Side::White).count(), 16);
    assert_eq!(pieces.iter().filter(|p| p.get_color() == Side::Black).count(), 16);
    assert!(chess.get_playing_side() == Side::White);
    assert!(chess.board.get_castling(Side::White) == CastlingAbility::Both);
    assert!(chess.board.get_castling(Side::Black) == CastlingAbility::Both);
    assert!(chess.get_state() == State::Playing);
}

#[test]
fn standard_position_equals_its_notation() {
    let built = Chess::new();
    let read = game("rnbqkbnr/pppppppp/8/8/8/8/PPPPPPPP/RNBQKBNR w KQkq - 0 1");
    for index in 0..64 {
        let a = built.board.get_piece_at_pos(index);
        let b = read.board.get_piece_at_pos(index);
        assert_eq!(a.is_some(), b.is_some());
        if let (Some(a), Some(b)) = (a, b) {
            assert!(a.get_piece_type() == b.get_piece_type());
            assert!(a.get_color() == b.get_color());
        }
    }
    assert_eq!(read.board.get_moves_to_50(), 0);
    assert_eq!(read.board.get_move_counter(), 1);
}

#[test]
fn sides_never_share_a_square() {
    let mut chess = Chess::new();
    let moves = [("E2", "E4"), ("D7", "D5"), ("E4", "D5"), ("D8", "D5"), ("B1", "C3"), ("D5", "E5")];
    for (from, to) in moves {
        assert!(chess.make_move(sq(from), sq(to)));
        let white = chess.board.get_sides_board(Side::White).to_number();
        let black = chess.board.get_sides_board(Side::Black).to_number();
        assert_eq!(white & black, 0);
        assert_eq!(white | black, chess.board.all_pieces_bitboard().to_number());
    }
}

#[test]
fn en_passant_removes_the_passed_pawn() {
    let mut chess = Chess::new();
    assert!(chess.make_move(sq("E2"), sq("E4")));
    assert_eq!(chess.board.get_ep_target(), Some(sq("E3")));
    assert!(chess.make_move(sq("D7"), sq("D5")));
    assert_eq!(chess.board.get_ep_target(), Some(sq("D6")));
    assert!(chess.make_move(sq("E4"), sq("D5")));
    assert_eq!(chess.board.get_ep_target(), None);
    assert!(chess.make_move(sq("C7"), sq("C5")));
    assert_eq!(chess.board.get_ep_target(), Some(sq("C6")));
    assert!(chess.make_move(sq("D5"), sq("C6")));
    assert!(chess.board.get_piece_at_pos(sq("C5")).is_none());
    assert!(chess.board.get_piece_at_pos(sq("D5")).is_none());
    let pawn = chess.board.get_piece_at_pos(sq("C6")).unwrap();
    assert!(pawn.get_piece_type() == PieceType::Pawn);
    assert!(pawn.get_color() == Side::White);
    assert_eq!(chess.get_all_pieces().len(), 30);
}

#[test]
fn en_passant_is_offered_for_one_ply_only() {
    let mut chess = Chess::new();
    assert!(chess.make_move(sq("E2"), sq("E4")));
    assert!(chess.make_move(sq("A7"), sq("A6")));
    assert!(chess.make_move(sq("E4"), sq("E5")));
    assert!(chess.make_move(sq("D7"), sq("D5")));
    assert!(chess.get_moves(sq("E5")).contains(&(3, 5)));
    assert!(chess.make_move(sq("A2"), sq("A3")));
    assert!(chess.make_move(sq("A6"), sq("A5")));
    assert!(!chess.get_moves(sq("E5")).contains(&(3, 5)));
    assert!(!chess.make_move(sq("E5"), sq("D6")));
}

#[test]
fn pinned_piece_moves_only_along_the_pin_line() {
    // the white rook on e2 is pinned on the e-file by the black rook on e8
    let mut chess = game("4r2k/8/8/8/8/8/4R3/4K3 w - - 0 1");
    assert!(chess.board.get_side_computed_boards(Side::White).0.get(sq("E2")));
    let before = chess.board.all_pieces_bitboard().to_number();
    assert!(!chess.make_move(sq("E2"), sq("D2")));
    assert!(!chess.make_move(sq("E2"), sq("H2")));
    assert_eq!(chess.board.all_pieces_bitboard().to_number(), before);
    assert!(chess.get_playing_side() == Side::White);
    let moves = chess.get_moves(sq("E2"));
    assert_eq!(moves, vec![(4, 7), (4, 6), (4, 5), (4, 4), (4, 3), (4, 2)]);
    assert!(chess.make_move(sq("E2"), sq("E8")));
}

#[test]
fn pinned_knight_cannot_move() {
    // the white knight on b2 is pinned on the long diagonal by the bishop on h8
    let mut chess = game("7b/8/8/8/8/8/1N6/K6k w - - 0 1");
    assert!(chess.board.get_side_computed_boards(Side::White).0.get(sq("B2")));
    assert!(chess.get_moves(sq("B2")).is_empty());
    assert!(!chess.make_move(sq("B2"), sq("C4")));
    assert!(!chess.make_move(sq("B2"), sq("D3")));
}

#[test]
fn piece_behind_two_blockers_is_not_pinned() {
    let chess = game("4r2k/8/8/8/4P3/8/4R3/4K3 w - - 0 1");
    assert_eq!(chess.board.get_side_computed_boards(Side::White).0.to_number(), 0);
}

#[test]
fn castling_moves_the_rook() {
    let mut chess = game("4k3/8/8/8/8/8/8/R3K2R w KQ - 0 1");
    assert!(chess.make_move(sq("E1"), sq("G1")));
    let rook = chess.board.get_piece_at_pos(sq("F1")).unwrap();
    assert!(rook.get_piece_type() == PieceType::Rook);
    assert!(chess.board.get_piece_at_pos(sq("H1")).is_none());
    assert!(chess.board.get_castling(Side::White) == CastlingAbility::Neither);

    let mut chess = game("r3k2r/8/8/8/8/8/8/4K3 b kq - 0 1");
    assert!(chess.make_move(sq("E8"), sq("C8")));
    let rook = chess.board.get_piece_at_pos(sq("D8")).unwrap();
    assert!(rook.get_piece_type() == PieceType::Rook);
    assert!(rook.get_color() == Side::Black);
    assert!(chess.board.get_piece_at_pos(sq("A8")).is_none());
    assert_eq!(chess.board.get_move_counter(), 2);
}

#[test]
fn castling_is_rejected_through_attacked_or_occupied_squares() {
    // f1 is attacked by the rook on f8
    let mut chess = game("4kr2/8/8/8/8/8/8/R3K2R w KQ - 0 1");
    assert!(!chess.make_move(sq("E1"), sq("G1")));
    assert!(chess.make_move(sq("E1"), sq("C1")));
    // b1 is occupied
    let mut chess = game("4k3/8/8/8/8/8/8/RN2K2R w KQ - 0 1");
    assert!(!chess.make_move(sq("E1"), sq("C1")));
    assert!(chess.make_move(sq("E1"), sq("G1")));
    // without the right
    let mut chess = game("4k3/8/8/8/8/8/8/R3K2R w Q - 0 1");
    assert!(!chess.make_move(sq("E1"), sq("G1")));
}

#[test]
fn rook_move_gives_up_one_right() {
    let mut chess = game("4k3/8/8/8/8/8/8/R3K2R w KQ - 0 1");
    assert!(chess.make_move(sq("A1"), sq("A2")));
    assert!(chess.board.get_castling(Side::White) == CastlingAbility::King);
    let mut chess = game("4k3/8/8/8/8/8/8/R3K2R w KQ - 0 1");
    assert!(chess.make_move(sq("H1"), sq("H2")));
    assert!(chess.board.get_castling(Side::White) == CastlingAbility::Queen);
}

#[test]
fn halfmove_clock_forces_a_draw() {
    let mut chess = game("4k3/8/8/8/8/8/8/R3K3 w - - 99 60");
    assert!(chess.get_state() == State::Playing);
    assert!(chess.make_move(sq("A1"), sq("A8")));
    assert_eq!(chess.board.get_moves_to_50(), 100);
    assert!(chess.get_state() == State::Draw);
    // mate on the board, and still a draw
    let chess = game("8/8/2p5/8/8/k7/1q6/K7 w - - 100 80");
    assert!(chess.get_state() == State::Draw);
}

#[test]
fn halfmove_clock_starts_again_with_pawn_moves_and_captures() {
    let mut chess = game("4k3/8/8/8/8/8/1P6/R3K3 w - - 7 10");
    assert!(chess.make_move(sq("E1"), sq("E2")));
    assert_eq!(chess.board.get_moves_to_50(), 8);
    assert!(chess.make_move(sq("E8"), sq("E7")));
    assert_eq!(chess.board.get_moves_to_50(), 9);
    assert_eq!(chess.board.get_move_counter(), 11);
    assert!(chess.make_move(sq("B2"), sq("B4")));
    assert_eq!(chess.board.get_moves_to_50(), 0);
}

#[test]
fn only_the_side_to_move_moves() {
    let mut chess = Chess::new();
    assert!(!chess.is_selectable(sq("E7")));
    assert!(chess.is_selectable(sq("E2")));
    assert!(chess.get_moves(sq("E7")).is_empty());
    assert!(!chess.make_move(sq("E7"), sq("E5")));
    assert!(chess.get_moves(sq("E4")).is_empty());
    assert_eq!(chess.get_moves(sq("E2")), vec![(4, 3), (4, 2)]);
}

#[test]
fn promotion_blocks_moves_until_made() {
    let mut chess = game("8/6P1/2p1k3/8/8/1q6/8/4K3 w - - 0 1");
    assert!(chess.make_move(sq("G7"), sq("G8")));
    assert!(chess.get_state() == State::Promotion);
    assert!(!chess.make_move(sq("E6"), sq("E5")));
    chess.promote(PieceType::King);
    assert!(chess.get_state() == State::Promotion);
    chess.promote(PieceType::Knight);
    assert!(chess.get_state() != State::Promotion);
    let piece = chess.board.get_piece_at_pos(sq("G8")).unwrap();
    assert!(piece.get_piece_type() == PieceType::Knight);
    assert!(piece.get_color() == Side::White);
    assert!(chess.make_move(sq("E6"), sq("E5")));
}

#[test]
fn double_check_leaves_only_king_moves() {
    // the black king on e8 is checked by the rook on e1 and the knight on f6
    let chess = game("3qk3/8/5N2/8/8/8/8/4R2K b - - 0 1");
    assert!(chess.get_state() == State::Check);
    assert_eq!(chess.board.get_side_computed_boards(Side::Black).1.len(), 2);
    assert!(chess.get_moves(sq("D8")).is_empty());
    assert!(!chess.get_moves(sq("E8")).is_empty());
}

#[test]
fn king_may_step_aside_from_a_knight() {
    // the knight on d2 checks the king on e4, which may go to f5
    let mut chess = game("7k/8/8/8/4K3/8/3n4/8 w - - 0 1");
    assert!(chess.get_state() == State::Check);
    assert!(chess.make_move(sq("E4"), sq("F5")));
}

#[test]
fn king_may_not_stay_on_the_line_of_a_checking_rook() {
    let mut chess = game("7k/8/8/8/r3K3/8/8/8 w - - 0 1");
    assert!(chess.get_state() == State::Check);
    assert!(!chess.make_move(sq("E4"), sq("F4")));
    assert!(chess.make_move(sq("E4"), sq("E5")));
}

#[test]
fn notation_errors() {
    let read = |s: &str| Board::from_fen(s.to_string()).err();
    assert_eq!(read("8/8/8/8/8/8/8/8 w - - 0"), Some(FenError::FieldCount));
    assert_eq!(read("8/8/8/8/8/8/8/8 w - - 0 1 x"), Some(FenError::FieldCount));
    assert_eq!(read(""), Some(FenError::FieldCount));
    assert_eq!(read("8/8/8/8/8/8/8 w - - 0 1"), Some(FenError::Placement));
    assert_eq!(read("9/8/8/8/8/8/8/8 w - - 0 1"), Some(FenError::Placement));
    assert_eq!(read("8/8/8/8/8/8/8/7 w - - 0 1"), Some(FenError::Placement));
    assert_eq!(read("8/8/8/8/8/8/8/7x w - - 0 1"), Some(FenError::Placement));
    assert_eq!(read("8/8/8/8/8/8/8/08 w - - 0 1"), Some(FenError::Placement));
    assert_eq!(read("8/8/8/8/8/8/8/8 x - - 0 1"), Some(FenError::Side));
    assert_eq!(read("8/8/8/8/8/8/8/8 w KX - 0 1"), Some(FenError::Castling));
    assert_eq!(read("8/8/8/8/8/8/8/8 w - e9 0 1"), Some(FenError::EnPassant));
    assert_eq!(read("8/8/8/8/8/8/8/8 w - e6 0 1"), Some(FenError::EnPassant));
    assert_eq!(read("8/8/8/8/8/8/8/8 w - - x 1"), Some(FenError::Halfmove));
    assert_eq!(read("8/8/8/8/8/8/8/8 w - - 4294967296 1"), Some(FenError::Halfmove));
    assert_eq!(read("8/8/8/8/8/8/8/8 w - - 0 -1"), Some(FenError::Fullmove));
    assert!(read("8/8/8/8/8/8/8/8 w - - 4294967295 1").is_none());
    assert!(!FenError::Placement.message().is_empty());
}

#[test]
fn notation_reads_every_field() {
    let board = Board::from_fen(
        " rnbqkbnr/ppp1pppp/8/3pP3/8/8/PPPP1PPP/RNBQKBNR   w Kq d6 0 3 ".to_string(),
    )
    .unwrap();
    assert!(board.get_playing_side() == Side::White);
    assert!(board.get_castling(Side::White) == CastlingAbility::King);
    assert!(board.get_castling(Side::Black) == CastlingAbility::Queen);
    assert_eq!(board.get_ep_target(), Some(43));
    assert_eq!(board.get_moves_to_50(), 0);
    assert_eq!(board.get_move_counter(), 3);
    let pawn = board.get_piece_at_pos(36).unwrap();
    assert!(pawn.get_piece_type() == PieceType::Pawn && pawn.get_color() == Side::White);
    assert_eq!(pawn.get_pos_as_usize(), (4, 4));
    assert_eq!(pawn.get_occupied_slot(), 36);
    assert!(board.get_piece_type_at_pos(35) == PieceType::Pawn);
    assert!(board.get_piece_type_at_pos(28) == PieceType::Empty);
    assert!(board.is_empty(28));
    assert_eq!(board.find_king(Side::White), Some(4));
    assert_eq!(board.get_king(Side::Black), 60);
}

#[test]
fn square_names() {
    assert_eq!(notation_to_index("A1"), 0);
    assert_eq!(notation_to_index("h8"), 63);
    assert_eq!(notation_to_index("e2"), 12);
    assert_eq!(square_from_notation("E2"), Some(12));
    assert_eq!(square_from_notation("i2"), None);
    assert_eq!(square_from_notation("e9"), None);
    assert_eq!(square_from_notation("e"), None);
}

#[test]
fn attacked_squares_include_defended_pieces() {
    let chess = game("8/8/8/8/8/8/8/R3K2k w - - 0 1");
    let rook = chess.board.get_piece_at_pos(0).unwrap();
    // along the first rank up to and including the own king, and up the a-file
    assert_eq!(rook.get_attacked_square(&chess.board).to_number(), 0x0101_0101_0101_011e);
    // the legal destinations leave out the king's square
    assert_eq!(rook.get_possible_moves(&chess.board).to_number(), 0x0101_0101_0101_010e);
    assert!(rook.is_allowed_move(&chess.board, 8));
    assert!(!rook.is_allowed_move(&chess.board, 4));
}
