use chess_rules::{
    parse_command, BitBoard, Board, CastlingAbility, Command, CoordinateIterator, DualBoard, File,
    PieceType, Side,
};

#[test]
fn bitboard_set_algebra() {
    let mut a = BitBoard::empty();
    a.set(0, true);
    a.set(9, true);
    let mut b = BitBoard::empty();
    b.set(9, true);
    b.set(63, true);
    assert_eq!(a.union(b).to_number(), 0x8000_0000_0000_0201);
    assert_eq!(a.intersection(b).to_number(), 0x200);
    assert_eq!(a.xor(b).to_number(), 0x8000_0000_0000_0001);
    assert_eq!(a.difference(b).to_number(), 1);
    assert_eq!(a.complement().to_number(), !0x201u64);
    assert!(!a.is_empty());
    a.clear();
    assert!(a.is_empty());
}

#[test]
fn bitboard_ignores_indices_off_the_board() {
    let mut a = BitBoard::empty();
    a.set(64, true);
    a.set(1000, true);
    assert_eq!(a.to_number(), 0);
    assert!(!a.get(64));
    a.set_coord(3, 2, true);
    assert!(a.get(19));
    a.set_coord(0, 8, true);
    assert_eq!(a.to_number(), 1 << 19);
    a.set_coord(3, 2, false);
    assert_eq!(a.to_number(), 0);
}

#[test]
fn bitboard_walks_from_the_highest_square() {
    let mut a = BitBoard::empty();
    a.set(5, true);
    a.set(40, true);
    a.set(41, true);
    assert_eq!(a.to_indices(), vec![41, 40, 5]);
    assert_eq!(a.highest(), Some(41));
    assert_eq!(a.count_and_pop_highest(), Some(41));
    assert_eq!(a.count_and_pop_highest(), Some(40));
    assert_eq!(a.count_and_pop_highest(), Some(5));
    assert_eq!(a.count_and_pop_highest(), None);
    assert_eq!(BitBoard::empty().highest(), None);
}

#[test]
fn bitboard_conditional_inserts() {
    let mut a = BitBoard::empty();
    assert!(a.predicate_and_set(1, 1, |x, y| x == y));
    assert!(!a.predicate_and_set(1, 2, |x, y| x == y));
    assert!(!a.predicate_and_set(8, 8, |_, _| true));
    assert_eq!(a.to_number(), 1 << 9);
    let mut other = BitBoard::empty();
    other.set(2, true);
    assert!(a.compare_and_set(other, true, 2, 0));
    assert!(!a.compare_and_set(other, true, 3, 0));
    assert!(a.compare_and_set(other, false, 3, 0));
    assert!(!a.compare_and_set(other, false, 3, 9));
    assert_eq!(a.to_number(), (1 << 9) | 4 | 8);
    let kept = a.filter_on(|index| index % 2 == 0);
    assert_eq!(kept.to_number(), 4);
    let board = Board::standard();
    let mut free = BitBoard::empty();
    assert!(!free.is_empty_on_board_and_set(&board, 0, 0));
    assert!(free.is_empty_on_board_and_set(&board, 0, 2));
    assert!(!free.is_empty_on_board_and_set(&board, 0, 8));
    assert_eq!(free.to_number(), 1 << 16);
}

#[test]
fn walks_along_lines() {
    let mut walk = CoordinateIterator::from_to((1, 1), (4, 4));
    assert_eq!(walk.get_change(), (1, 1));
    assert_eq!(walk.next(), Some((2, 2)));
    assert_eq!(walk.next(), Some((3, 3)));
    assert_eq!(walk.next(), Some((4, 4)));
    assert_eq!(walk.next(), None);
    assert_eq!(walk.next(), None);

    let mut walk = CoordinateIterator::new((3, 6), (3, 4));
    assert_eq!(walk.get_change(), (0, -1));
    assert!(walk.contains((3, 5)));
    assert_eq!(walk.next(), Some((3, 4)));
    assert!(!CoordinateIterator::from_to((3, 6), (3, 4)).contains((3, 3)));
    assert!(!CoordinateIterator::from_to((3, 6), (3, 6)).contains((3, 6)));

    // a walk stops when one coordinate has arrived
    let mut walk = CoordinateIterator::from_to((0, 0), (5, 2));
    assert_eq!(walk.next(), Some((1, 1)));
    assert_eq!(walk.next(), Some((2, 2)));
    assert_eq!(walk.next(), None);
}

#[test]
fn walks_to_the_edge() {
    let mut walk = CoordinateIterator::from_delta((5, 6), (1, -1));
    assert_eq!(walk.get_change(), (1, -1));
    assert_eq!(walk.next(), Some((6, 5)));
    assert_eq!(walk.next(), Some((7, 4)));
    assert_eq!(walk.next(), None);
    assert_eq!(CoordinateIterator::from_delta((7, 7), (1, 1)).next(), None);
    assert_eq!(CoordinateIterator::from_delta((0, 3), (-1, 0)).next(), None);
    assert_eq!(CoordinateIterator::from_delta((3, 3), (0, 0)).next(), None);
    let mut walk = CoordinateIterator::from_delta((3, 3), (0, 1));
    assert_eq!(walk.next(), Some((3, 4)));
    assert!(walk.contains((3, 7)));
    assert_eq!(walk.next(), None);
}

#[test]
fn castling_rights() {
    let mut rights = CastlingAbility::Both;
    assert!(rights.has(CastlingAbility::King) && rights.has(CastlingAbility::Queen));
    rights.remove(CastlingAbility::King);
    assert!(rights == CastlingAbility::Queen);
    assert!(!rights.has(CastlingAbility::King));
    rights.remove(CastlingAbility::King);
    assert!(rights == CastlingAbility::Queen);
    rights.remove(CastlingAbility::Queen);
    assert!(rights == CastlingAbility::Neither);
    rights.remove(CastlingAbility::Queen);
    assert!(rights == CastlingAbility::Neither);
    rights.add(CastlingAbility::King);
    assert!(rights == CastlingAbility::King);
    rights.add(CastlingAbility::Queen);
    assert!(rights == CastlingAbility::Both);
    assert!(Side::White.get_opposite() == Side::Black);
    assert!(Side::Black.get_opposite() == Side::White);
}

#[test]
fn piece_kind_indices() {
    assert_eq!(PieceType::Pawn.to_value(), 0);
    assert_eq!(PieceType::King.to_value(), 5);
    assert!(PieceType::from_value(3) == PieceType::Rook);
    assert!(PieceType::from_value(6) == PieceType::Empty);
    assert!(PieceType::from_value(-1) == PieceType::Empty);
    for value in 0..6i8 {
        assert_eq!(PieceType::from_value(value).to_value(), value as usize);
    }
}

#[test]
fn files() {
    assert_eq!(File::from_char('c'), Some(File::C));
    assert_eq!(File::from_char('C'), None);
    assert_eq!(File::from_char('i'), None);
    assert_eq!(File::H.to_char(), 'h');
    assert_eq!(File::E.index(), 4);
}

#[test]
fn dual_board_counts_to_two() {
    let mut dual = DualBoard::new();
    dual.set(3);
    dual.set(3);
    dual.set(4);
    dual.set(64);
    let mut more = BitBoard::empty();
    more.set(4, true);
    more.set(5, true);
    dual.add(more);
    let mut probe = DualBoard::new();
    probe.add(more);
    probe.add(more);
    // read back through a second pair: everything in `more` is now met twice
    let mut all = BitBoard::empty();
    all.set(3, true);
    all.set(4, true);
    all.set(5, true);
    assert_eq!(dual.first().to_number(), all.to_number());
    assert_eq!(dual.second().to_number(), (1 << 3) | (1 << 4));
    assert_eq!(probe.second().to_number(), more.to_number());
}

#[test]
fn empty_board() {
    let board = Board::new();
    assert_eq!(board.all_pieces_bitboard().to_number(), 0);
    assert!(board.get_all_pieces().is_empty());
    assert_eq!(board.find_king(Side::White), None);
    assert!(!board.is_only_kings_left());
    assert!(board.is_no_possible_moves(Side::White));
    assert!(Board::is_inbounds(7, 7));
    assert!(!Board::is_inbounds(8, 0));
    assert_eq!(
        board.get_opponent_and_empty_squares_board(Side::White).to_number(),
        u64::MAX
    );
}

#[test]
fn bitboard_operators() {
    let mut a = BitBoard::empty();
    a.set(1, true);
    a.set(2, true);
    let mut b = BitBoard::empty();
    b.set(2, true);
    b.set(3, true);
    assert_eq!((a & b).to_number(), 0b0100);
    assert_eq!((a | b).to_number(), 0b1110);
    assert_eq!((a ^ b).to_number(), 0b1010);
    assert_eq!((!a).to_number(), !0b0110u64);
    assert!(a == a.union(BitBoard::empty()));
}

#[test]
fn commands() {
    assert_eq!(parse_command("move e2 e4\n"), Command::Move(12, 28));
    assert_eq!(parse_command("  m  E2   E4 "), Command::Move(12, 28));
    assert_eq!(parse_command("m e2"), Command::Nothing);
    assert_eq!(parse_command("m e2 z9"), Command::Nothing);
    assert_eq!(parse_command("attacks d1"), Command::Attacks(3));
    assert_eq!(parse_command("a h8"), Command::Attacks(63));
    assert_eq!(parse_command("a"), Command::Nothing);
    assert_eq!(parse_command("pinned white"), Command::Pinned(Side::White));
    assert_eq!(parse_command("pinned b"), Command::Pinned(Side::Black));
    assert_eq!(parse_command("pinned x"), Command::Nothing);
    assert_eq!(parse_command("aa w"), Command::Attacked(Side::White));
    assert_eq!(parse_command("aa black"), Command::Attacked(Side::Black));
    assert_eq!(parse_command("white"), Command::White);
    assert_eq!(parse_command("black"), Command::Black);
    assert_eq!(parse_command("state"), Command::State);
    assert_eq!(parse_command("turn"), Command::Turn);
    assert_eq!(parse_command("fen 8/8/8/8/8/8/8/8 w - - 0 1"), Command::Fen);
    assert_eq!(parse_command("fen"), Command::Nothing);
    assert_eq!(parse_command(""), Command::Nothing);
    assert_eq!(parse_command("moves e2 e4"), Command::Nothing);
}
